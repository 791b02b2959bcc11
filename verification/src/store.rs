//! Where a meeting's files live. Every file a meeting owns has one canonical
//! name derived from its ID, so a saved path is trusted only when it is that
//! name; file-system checks (no links, no directories) happen at the edge.
use vstd::prelude::*;

use crate::error::{AppError, AppResult};
use crate::order::{lemma_insert_by_at, lemma_sort_by_step, sort_by};
use crate::session::{AudioSource, Session};
use crate::text::{
    chars_of, concat2, concat3, decimal, digit_char, is_ascii_alnum, is_ascii_digit, owned,
    padded_decimal, padded_decimal_string, repeat, same_text, string_of,
};

verus! {

/// A session ID: non-empty ASCII letters, digits and dashes, so it can never
/// name another directory.
pub open spec fn valid_id(id: Seq<char>) -> bool {
    id.len() > 0 && forall|i: int| 0 <= i < id.len() ==> is_ascii_alnum(#[trigger] id[i]) || id[i]
        == '-'
}

pub fn validate_id(id: &str) -> (r: AppResult<()>)
    ensures
        r is Ok <==> valid_id(id@),
        r matches Err(e) ==> e.code@ == "invalid_session_id"@ && e.message@
            == "Session ID is invalid"@,
{
    let v = chars_of(id);
    let n: usize = v.len();
    let mut ok = n > 0;
    let mut i: usize = 0;
    while i < n
        invariant
            n == v@.len(),
            v@ == id@,
            0 <= i <= n,
            ok == (n > 0 && forall|k: int| 0 <= k < i ==> is_ascii_alnum(#[trigger] v@[k]) || v@[k]
                == '-'),
        decreases n - i,
    {
        let c = v[i];
        let good = ('a' <= c && c <= 'z') || ('A' <= c && c <= 'Z') || ('0' <= c && c <= '9') || c
            == '-';
        if !good {
            ok = false;
        }
        proof {
            if ok {
                assert forall|k: int| 0 <= k < i + 1 implies is_ascii_alnum(#[trigger] v@[k]) || v@[k]
                    == '-' by {}
            }
        }
        i = i + 1;
    }
    if ok {
        Ok(())
    } else {
        Err(AppError::new("invalid_session_id", "Session ID is invalid"))
    }
}

/// `Path::join` for a relative file name, with `/` as separator.
pub open spec fn join(dir: Seq<char>, name: Seq<char>) -> Seq<char> {
    if dir.len() == 0 {
        name
    } else if dir.last() == '/' {
        dir + name
    } else {
        dir + "/"@ + name
    }
}

pub fn join_path(dir: &str, name: &str) -> (r: String)
    ensures
        r@ == join(dir@, name@),
{
    let v = chars_of(dir);
    if v.len() == 0 {
        owned(name)
    } else if v[v.len() - 1] == '/' {
        concat2(dir, name)
    } else {
        concat3(dir, "/", name)
    }
}

pub open spec fn m4a_name(id: Seq<char>) -> Seq<char> {
    id + ".m4a"@
}

pub open spec fn microphone_name(id: Seq<char>) -> Seq<char> {
    id + "-mic.m4a"@
}

pub open spec fn chunk_name(id: Seq<char>, source: AudioSource) -> Seq<char> {
    id + "-"@ + source.filename_spec() + "-chunk.m4a"@
}

pub open spec fn segment_prefix(id: Seq<char>, source: AudioSource) -> Seq<char> {
    id + "-"@ + source.filename_spec() + "-segment-"@
}

/// `{id}-{source}-segment-{index:08}.m4a`.
pub open spec fn segment_name(id: Seq<char>, source: AudioSource, index: nat) -> Seq<char> {
    segment_prefix(id, source) + padded_decimal(index, 8) + ".m4a"@
}

pub open spec fn max_segment_index() -> int {
    99_999_999
}

pub fn invalid_audio_path() -> (e: AppError)
    ensures
        e.code@ == "invalid_audio_path"@,
        e.message@ == "Recorded audio path is invalid"@,
{
    AppError::new("invalid_audio_path", "Recorded audio path is invalid")
}

/// The app's data directory.
#[derive(Clone, Debug)]
pub struct SessionStore {
    pub root: String,
}

impl SessionStore {
    pub fn new(root: String) -> (s: SessionStore)
        ensures
            s.root == root,
    {
        SessionStore { root }
    }

    pub open spec fn audio_dir(&self) -> Seq<char> {
        join(self.root@, "audio"@)
    }

    pub open spec fn sessions_dir_spec(&self) -> Seq<char> {
        join(self.root@, "sessions"@)
    }

    /// The directory of saved meetings.
    pub fn sessions_dir(&self) -> (d: String)
        ensures
            d@ == self.sessions_dir_spec(),
    {
        join_path(self.root.as_str(), "sessions")
    }

    /// The directory of retained audio.
    pub fn audio_directory(&self) -> (d: String)
        ensures
            d@ == self.audio_dir(),
    {
        join_path(self.root.as_str(), "audio")
    }

    /// The saved meeting's file, `sessions/{id}.json`.
    pub fn session_file(&self, id: &str) -> (r: AppResult<String>)
        ensures
            r is Ok <==> valid_id(id@),
            r matches Ok(p) ==> p@ == join(self.sessions_dir_spec(), id@ + ".json"@),
            r matches Err(e) ==> e.code@ == "invalid_session_id"@,
    {
        match validate_id(id) {
            Ok(()) => {},
            Err(e) => return Err(e),
        }
        let dir = self.sessions_dir();
        let name = concat2(id, ".json");
        Ok(join_path(dir.as_str(), name.as_str()))
    }

    /// The marker of a deletion in progress, `sessions/{id}.json.deleting`.
    pub fn tombstone_file(&self, id: &str) -> (r: AppResult<String>)
        ensures
            r is Ok <==> valid_id(id@),
            r matches Ok(p) ==> p@ == join(self.sessions_dir_spec(), id@ + ".json.deleting"@),
            r matches Err(e) ==> e.code@ == "invalid_session_id"@,
    {
        match validate_id(id) {
            Ok(()) => {},
            Err(e) => return Err(e),
        }
        let dir = self.sessions_dir();
        let name = concat2(id, ".json.deleting");
        Ok(join_path(dir.as_str(), name.as_str()))
    }

    /// Accepts a saved path only if it is exactly the meeting's canonical file
    /// `audio/{filename}`.
    pub fn validate_named_audio_path(&self, id: &str, audio_path: &str, filename: &str) -> (r:
        AppResult<String>)
        ensures
            r is Ok <==> valid_id(id@) && audio_path@ == join(self.audio_dir(), filename@),
            r matches Ok(p) ==> p@ == audio_path@,
            r matches Err(e) ==> if valid_id(id@) {
                e.code@ == "invalid_audio_path"@
            } else {
                e.code@ == "invalid_session_id"@
            },
    {
        match validate_id(id) {
            Ok(()) => {},
            Err(e) => return Err(e),
        }
        let dir = self.audio_directory();
        let expected = join_path(dir.as_str(), filename);
        if !same_text(audio_path, expected.as_str()) {
            return Err(invalid_audio_path());
        }
        Ok(owned(audio_path))
    }

    /// The meeting's system-audio path, `audio/{id}.m4a`.
    pub fn audio_path(&self, id: &str) -> (r: AppResult<String>)
        ensures
            r is Ok <==> valid_id(id@),
            r matches Ok(p) ==> p@ == join(self.audio_dir(), m4a_name(id@)),
            r matches Err(e) ==> e.code@ == "invalid_session_id"@,
    {
        let name = concat2(id, ".m4a");
        let dir = self.audio_directory();
        let path = join_path(dir.as_str(), name.as_str());
        self.validate_named_audio_path(id, path.as_str(), name.as_str())
    }

    pub fn validate_audio_path(&self, id: &str, audio_path: &str) -> (r: AppResult<String>)
        ensures
            r is Ok <==> valid_id(id@) && audio_path@ == join(self.audio_dir(), m4a_name(id@)),
            r matches Ok(p) ==> p@ == audio_path@,
            r matches Err(e) ==> e.code@ == "invalid_audio_path"@ || e.code@
                == "invalid_session_id"@,
    {
        let name = concat2(id, ".m4a");
        self.validate_named_audio_path(id, audio_path, name.as_str())
    }

    pub fn validate_microphone_audio_path(&self, id: &str, audio_path: &str) -> (r: AppResult<
        String,
    >)
        ensures
            r is Ok <==> valid_id(id@) && audio_path@ == join(self.audio_dir(), microphone_name(id@)),
            r matches Ok(p) ==> p@ == audio_path@,
            r matches Err(e) ==> e.code@ == "invalid_audio_path"@ || e.code@
                == "invalid_session_id"@,
    {
        let name = concat2(id, "-mic.m4a");
        self.validate_named_audio_path(id, audio_path, name.as_str())
    }

    /// Scratch file for the chunk being uploaded, `audio/{id}-{source}-chunk.m4a`.
    pub fn chunk_path(&self, id: &str, source: AudioSource) -> (r: AppResult<String>)
        ensures
            r is Ok <==> valid_id(id@),
            r matches Ok(p) ==> p@ == join(self.audio_dir(), chunk_name(id@, source)),
    {
        let name = concat3(concat2(id, "-").as_str(), source.filename(), "-chunk.m4a");
        let dir = self.audio_directory();
        let path = join_path(dir.as_str(), name.as_str());
        self.validate_named_audio_path(id, path.as_str(), name.as_str())
    }

    /// A numbered capture section, `audio/{id}-{source}-segment-{index:08}.m4a`.
    pub fn segment_path(&self, id: &str, source: AudioSource, index: u64) -> (r: AppResult<String>)
        ensures
            r is Ok <==> valid_id(id@) && index <= max_segment_index(),
            r matches Ok(p) ==> p@ == join(self.audio_dir(), segment_name(id@, source, index as nat)),
            r matches Err(e) ==> index > max_segment_index() ==> e.code@ == "invalid_audio_path"@,
    {
        if index > 99_999_999 {
            return Err(invalid_audio_path());
        }
        let name = segment_file_name(id, source, index);
        let dir = self.audio_directory();
        let path = join_path(dir.as_str(), name.as_str());
        self.validate_named_audio_path(id, path.as_str(), name.as_str())
    }
}

pub fn segment_file_name(id: &str, source: AudioSource, index: u64) -> (s: String)
    ensures
        s@ == segment_name(id@, source, index as nat),
{
    let prefix = concat3(concat2(id, "-").as_str(), source.filename(), "-segment-");
    let digits = padded_decimal_string(index, 8);
    concat3(prefix.as_str(), digits.as_str(), ".m4a")
}

/// The number a string of decimal digits denotes.
pub open spec fn digits_value(s: Seq<char>) -> nat
    decreases s.len(),
{
    if s.len() == 0 {
        0
    } else {
        digits_value(s.drop_last()) * 10 + ((s.last() as int - '0' as int) as nat)
    }
}

pub open spec fn all_digits(s: Seq<char>) -> bool {
    forall|i: int| 0 <= i < s.len() ==> is_ascii_digit(#[trigger] s[i])
}

/// The section index a file name encodes for this meeting and source:
/// exactly the prefix, eight decimal digits, and `.m4a`.
pub open spec fn segment_index_of(id: Seq<char>, source: AudioSource, name: Seq<char>) -> Option<
    nat,
> {
    let prefix = segment_prefix(id, source);
    let p = prefix.len() as int;
    if name.len() == p + 12 && name.take(p) == prefix && name.skip(p + 8) == ".m4a"@ && all_digits(
        name.subrange(p, p + 8),
    ) {
        Some(digits_value(name.subrange(p, p + 8)))
    } else {
        None
    }
}

/// Which numbered section of this meeting a file name denotes, if any.
pub open spec fn segment_of(id: Seq<char>, name: Seq<char>) -> Option<(AudioSource, nat)> {
    match segment_index_of(id, AudioSource::System, name) {
        Some(i) => Some((AudioSource::System, i)),
        None => match segment_index_of(id, AudioSource::Microphone, name) {
            Some(i) => Some((AudioSource::Microphone, i)),
            None => None,
        },
    }
}

fn starts_with_at(v: &Vec<char>, prefix: &Vec<char>) -> (b: bool)
    ensures
        b == (v@.len() >= prefix@.len() && v@.take(prefix@.len() as int) == prefix@),
{
    let n: usize = prefix.len();
    if v.len() < n {
        return false;
    }
    let mut i: usize = 0;
    while i < n
        invariant
            n == prefix@.len(),
            n <= v@.len(),
            0 <= i <= n,
            forall|k: int| 0 <= k < i ==> v@[k] == prefix@[k],
        decreases n - i,
    {
        if v[i] != prefix[i] {
            proof {
                assert(v@.take(n as int)[i as int] != prefix@[i as int]);
            }
            return false;
        }
        i = i + 1;
    }
    proof {
        assert(v@.take(n as int) =~= prefix@);
    }
    true
}

fn index_for(v: &Vec<char>, id: &str, source: AudioSource) -> (r: Option<u64>)
    ensures
        r == match segment_index_of(id@, source, v@) {
            Some(i) => Some(i as u64),
            None => None::<u64>,
        },
        r matches Some(i) ==> i <= max_segment_index(),
{
    let prefix = chars_of(concat3(concat2(id, "-").as_str(), source.filename(), "-segment-").as_str());
    let p: usize = prefix.len();
    proof {
        reveal_strlit(".m4a");
    }
    let vn: usize = v.len();
    if vn < 12 || vn - 12 != p || !starts_with_at(v, &prefix) {
        return None;
    }
    if !(v[p + 8] == '.' && v[p + 9] == 'm' && v[p + 10] == '4' && v[p + 11] == 'a') {
        proof {
            let tail = v@.skip(p + 8);
            assert(tail[0] == v@[p + 8]);
            assert(tail[1] == v@[p + 9]);
            assert(tail[2] == v@[p + 10]);
            assert(tail[3] == v@[p + 11]);
        }
        return None;
    }
    proof {
        assert(v@.skip(p + 8) =~= ".m4a"@);
    }
    let ghost digits = v@.subrange(p as int, p + 8);
    let mut value: u64 = 0;
    let mut k: usize = 0;
    while k < 8
        invariant
            vn == v@.len(),
            v@.len() == p + 12,
            digits == v@.subrange(p as int, p + 8),
            0 <= k <= 8,
            all_digits(digits.take(k as int)),
            value == digits_value(digits.take(k as int)),
            value < pow10(k as nat),
        decreases 8 - k,
    {
        let c = v[p + k];
        if !('0' <= c && c <= '9') {
            proof {
                assert(digits[k as int] == c);
            }
            return None;
        }
        proof {
            assert(digits.take(k + 1).drop_last() =~= digits.take(k as int));
            assert(digits.take(k + 1).last() == c);
            assert(all_digits(digits.take(k + 1)));
            assert(pow10((k + 1) as nat) == pow10(k as nat) * 10);
            lemma_pow10_mono((k + 1) as nat, 8);
            reveal_with_fuel(pow10, 9);
            assert(pow10(8) == 100_000_000);
            assert(value * 10 + 9 < pow10((k + 1) as nat)) by (nonlinear_arith)
                requires
                    value < pow10(k as nat),
                    pow10((k + 1) as nat) == pow10(k as nat) * 10,
            ;
        }
        value = value * 10 + (c as u64 - '0' as u64);
        k = k + 1;
    }
    proof {
        assert(digits.take(8) =~= digits);
        reveal_with_fuel(pow10, 9);
        assert(pow10(8) == 100_000_000);
    }
    Some(value)
}

pub open spec fn pow10(k: nat) -> nat
    decreases k,
{
    if k == 0 {
        1
    } else {
        pow10((k - 1) as nat) * 10
    }
}

proof fn lemma_pow10_mono(a: nat, b: nat)
    requires
        a <= b,
    ensures
        pow10(a) <= pow10(b),
    decreases b,
{
    if a < b {
        lemma_pow10_mono(a, (b - 1) as nat);
    }
}

proof fn lemma_digit_char(d: nat)
    requires
        d < 10,
    ensures
        is_ascii_digit(digit_char(d)),
        digit_char(d) as int - '0' as int == d,
{
}

proof fn lemma_decimal(n: nat)
    ensures
        all_digits(decimal(n)),
        digits_value(decimal(n)) == n,
        decimal(n).len() >= 1,
        forall|k: nat| 1 <= k && n < pow10(k) ==> decimal(n).len() <= k,
    decreases n,
{
    if n < 10 {
        lemma_digit_char(n);
        let d = decimal(n);
        assert(d.drop_last() =~= Seq::<char>::empty());
        assert(d.last() == digit_char(n));
        assert(digits_value(d) == digits_value(d.drop_last()) * 10 + ((d.last() as int
            - '0' as int) as nat));
        assert forall|k: nat| 1 <= k && n < pow10(k) implies decimal(n).len() <= k by {}
    } else {
        lemma_decimal(n / 10);
        lemma_digit_char(n % 10);
        let d = decimal(n);
        assert(d.drop_last() =~= decimal(n / 10));
        assert(d.last() == digit_char(n % 10));
        assert((n / 10) * 10 + n % 10 == n) by (nonlinear_arith);
        assert(digits_value(d) == digits_value(d.drop_last()) * 10 + ((d.last() as int
            - '0' as int) as nat));
        assert forall|k: nat| 1 <= k && n < pow10(k) implies decimal(n).len() <= k by {
            if k == 1 {
                assert(pow10(1) == 10) by {
                    reveal_with_fuel(pow10, 2);
                }
            } else {
                assert(pow10(k) == pow10((k - 1) as nat) * 10);
                assert(n / 10 < pow10((k - 1) as nat)) by (nonlinear_arith)
                    requires
                        n < pow10((k - 1) as nat) * 10,
                ;
            }
        }
    }
}

proof fn lemma_zero_prefix(z: nat, t: Seq<char>)
    ensures
        digits_value(repeat('0', z) + t) == digits_value(t),
        all_digits(t) ==> all_digits(repeat('0', z) + t),
    decreases t.len(), z,
{
    let w = repeat('0', z) + t;
    if t.len() == 0 {
        assert(w =~= repeat('0', z));
        if z > 0 {
            assert(w.drop_last() =~= repeat('0', (z - 1) as nat) + t);
            lemma_zero_prefix((z - 1) as nat, t);
        }
    } else {
        assert(w.drop_last() =~= repeat('0', z) + t.drop_last());
        lemma_zero_prefix(z, t.drop_last());
    }
}

proof fn lemma_digits_value_bound(s: Seq<char>)
    requires
        all_digits(s),
    ensures
        digits_value(s) < pow10(s.len()),
    decreases s.len(),
{
    if s.len() > 0 {
        lemma_digits_value_bound(s.drop_last());
        assert(digits_value(s.drop_last()) * 10 + 9 < pow10(s.len())) by (nonlinear_arith)
            requires
                digits_value(s.drop_last()) < pow10((s.len() - 1) as nat),
                pow10(s.len()) == pow10((s.len() - 1) as nat) * 10,
        ;
    }
}

proof fn lemma_digits_unique(a: Seq<char>, b: Seq<char>)
    requires
        a.len() == b.len(),
        all_digits(a),
        all_digits(b),
        digits_value(a) == digits_value(b),
    ensures
        a == b,
    decreases a.len(),
{
    if a.len() > 0 {
        let x = a.last() as int - '0' as int;
        let y = b.last() as int - '0' as int;
        let va = digits_value(a.drop_last());
        let vb = digits_value(b.drop_last());
        assert(0 <= x < 10 && 0 <= y < 10);
        assert(va == vb && x == y) by (nonlinear_arith)
            requires
                va * 10 + x == vb * 10 + y,
                0 <= x < 10,
                0 <= y < 10,
                va >= 0,
                vb >= 0,
        ;
        lemma_digits_unique(a.drop_last(), b.drop_last());
        assert(a =~= a.drop_last().push(a.last()));
        assert(b =~= b.drop_last().push(b.last()));
    } else {
        assert(a =~= b);
    }
}

proof fn lemma_padded(n: nat)
    requires
        n <= 99_999_999,
    ensures
        padded_decimal(n, 8).len() == 8,
        all_digits(padded_decimal(n, 8)),
        digits_value(padded_decimal(n, 8)) == n,
{
    lemma_decimal(n);
    reveal_with_fuel(pow10, 9);
    assert(pow10(8) == 100_000_000);
    let d = decimal(n);
    assert(d.len() <= 8);
    if d.len() < 8 {
        lemma_zero_prefix((8 - d.len()) as nat, d);
    }
}

/// Law: section file names round-trip. The name made for a meeting, source
/// and index is recognised as exactly that section, and any name recognised
/// as a section of the meeting is that section's canonical name; no other
/// file (another meeting's, a noncanonical spelling) can be taken for one.
pub proof fn lemma_segment_names_roundtrip(id: Seq<char>, source: AudioSource, index: nat, name: Seq<char>)
    requires
        valid_id(id),
        index <= max_segment_index(),
    ensures
        segment_of(id, segment_name(id, source, index)) == Some((source, index)),
        segment_of(id, name) matches Some((s, i)) ==> name == segment_name(id, s, i),
{
    reveal_strlit(".m4a");
    reveal_strlit("-");
    reveal_strlit("-segment-");
    reveal_strlit("system");
    reveal_strlit("mic");
    lemma_padded(index);
    let made = segment_name(id, source, index);
    let pre = segment_prefix(id, source);
    let p = pre.len() as int;
    let digits = padded_decimal(index, 8);
    assert(made.take(p) =~= pre);
    assert(made.skip(p + 8) =~= ".m4a"@);
    assert(made.subrange(p, p + 8) =~= digits);
    if source == AudioSource::Microphone {
        assert(segment_prefix(id, AudioSource::System).len() == p + 3);
    }
    match segment_of(id, name) {
        Some((s, i)) => {
            let q = segment_prefix(id, s).len() as int;
            let m = name.subrange(q, q + 8);
            lemma_digits_value_bound(m);
            reveal_with_fuel(pow10, 9);
            assert(pow10(8) == 100_000_000);
            lemma_padded(i);
            lemma_digits_unique(m, padded_decimal(i, 8));
            assert(name =~= name.take(q) + m + name.skip(q + 8));
        },
        None => {},
    }
}

/// The meeting's numbered section that a file name denotes, if any.
pub fn parse_segment_name(id: &str, name: &str) -> (r: Option<(AudioSource, u64)>)
    ensures
        r == match segment_of(id@, name@) {
            Some((s, i)) => Some((s, i as u64)),
            None => None::<(AudioSource, u64)>,
        },
{
    let v = chars_of(name);
    match index_for(&v, id, AudioSource::System) {
        Some(i) => Some((AudioSource::System, i)),
        None => match index_for(&v, id, AudioSource::Microphone) {
            Some(i) => Some((AudioSource::Microphone, i)),
            None => None,
        },
    }
}

/// The instant `chrono::DateTime::parse_from_rfc3339` reads in a text, as
/// whole seconds since the Unix epoch and the nanoseconds past them; `None`
/// when the text is not RFC 3339.
pub uninterp spec fn rfc3339_instant(s: Seq<char>) -> Option<(i64, u32)>;

/// `chrono::DateTime::parse_from_rfc3339`, read as `timestamp()` and
/// `timestamp_subsec_nanos()`; a refusal comes with chrono's description.
/// The contract names the instant and says nothing of the description.
#[verifier::external_body]
fn parse_rfc3339(s: &str) -> (r: Result<(i64, u32), String>)
    ensures
        match r {
            Ok(t) => rfc3339_instant(s@) == Some(t),
            Err(_) => rfc3339_instant(s@) is None,
        },
{
    match chrono::DateTime::parse_from_rfc3339(s) {
        Ok(t) => Ok((t.timestamp(), t.timestamp_subsec_nanos())),
        Err(e) => Err(e.to_string()),
    }
}

/// Instants in order: seconds first, then the nanoseconds past them.
pub open spec fn instant_key(t: (i64, u32)) -> int {
    t.0 * 2_000_000_000 + t.1
}

/// Meetings are listed newest first; meetings started together keep their order.
pub open spec fn newest_first() -> spec_fn((Session, (i64, u32))) -> int {
    |p: (Session, (i64, u32))| -instant_key(p.1)
}

pub open spec fn all_start_times_known(ss: Seq<Session>) -> bool {
    forall|k: int| 0 <= k < ss.len() ==> (#[trigger] rfc3339_instant(ss[k].started_at@)) is Some
}

pub open spec fn with_start_times(ss: Seq<Session>) -> Seq<(Session, (i64, u32))> {
    ss.map_values(|s: Session| (s, rfc3339_instant(s.started_at@)->0))
}

/// Orders listed meetings newest first by their start time; a start time
/// that is not RFC 3339 refuses the whole list.
pub fn order_sessions(sessions: Vec<Session>) -> (r: AppResult<Vec<Session>>)
    ensures
        r is Ok <==> all_start_times_known(sessions@),
        r matches Err(e) ==> e.code@ == "invalid_session_timestamp"@,
        r matches Ok(v) ==> v@ == sort_by(with_start_times(sessions@), newest_first()).map_values(
            |p: (Session, (i64, u32))| p.0,
        ),
{
    let ghost orig = sessions@;
    let ghost all = with_start_times(orig);
    let mut out: Vec<(Session, (i64, u32))> = Vec::new();
    proof {
        assert(all.take(0) =~= Seq::<(Session, (i64, u32))>::empty());
    }
    for s in it: sessions.into_iter()
        invariant
            it.seq() == orig,
            all == with_start_times(orig),
            forall|k: int| 0 <= k < it.index() ==> (#[trigger] rfc3339_instant(orig[k].started_at@)) is Some,
            out@ == sort_by(all.take(it.index() as int), newest_first()),
    {
        let ghost k = it.index() as int;
        proof {
            assert(s == orig[k]);
        }
        let t = match parse_rfc3339(s.started_at.as_str()) {
            Ok(t) => t,
            Err(message) => {
                return Err(AppError::with_message("invalid_session_timestamp", message));
            },
        };
        let item = (s, t);
        proof {
            assert(all[k] == item);
        }
        let ghost before = out@;
        let key: i128 = -(t.0 as i128 * 2_000_000_000 + t.1 as i128);
        let mut p: usize = out.len();
        while p > 0 && -((out[p - 1].1).0 as i128 * 2_000_000_000 + (out[p - 1].1).1 as i128) > key
            invariant
                p <= out@.len(),
                before == out@,
                key == (newest_first())(item),
                forall|j: int| p <= j < out@.len() ==> (newest_first())(#[trigger] out@[j]) > (newest_first())(item),
            decreases p,
        {
            p = p - 1;
        }
        proof {
            lemma_insert_by_at(before, item, newest_first(), p as int);
            lemma_sort_by_step(all, k, newest_first());
        }
        out.insert(p, item);
    }
    proof {
        assert(all.take(all.len() as int) =~= all);
    }
    let ghost sorted = out@;
    let mut result: Vec<Session> = Vec::new();
    for pair in it: out.into_iter()
        invariant
            it.seq() == sorted,
            result@ == sorted.take(it.index() as int).map_values(|p: (Session, (i64, u32))| p.0),
    {
        proof {
            assert(pair == sorted[it.index() as int]);
            assert(sorted.take(it.index() + 1).map_values(|p: (Session, (i64, u32))| p.0) =~= sorted.take(
                it.index() as int,
            ).map_values(|p: (Session, (i64, u32))| p.0).push(pair.0));
        }
        result.push(pair.0);
    }
    proof {
        assert(sorted.take(sorted.len() as int) =~= sorted);
    }
    Ok(result)
}

} // verus!
