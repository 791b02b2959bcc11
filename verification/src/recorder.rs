//! Capture bookkeeping that does not depend on a platform audio API: the
//! single recording slot, per-source frame counters and the health verdict
//! drawn from them, the barrier that retires callback work, and how native
//! status codes become errors.
use vstd::prelude::*;

use crate::error::{AppError, AppResult};
use crate::session::AudioSource;
use crate::store::{segment_file_name, segment_name, valid_id, validate_id};
use crate::text::{
    chars_of, concat2, concat3, decimal, decimal_string, owned, same_text, string_of,
};

verus! {

#[derive(Clone, Copy, Debug, PartialEq, Eq, Structural)]
pub enum CaptureStatus {
    Starting,
    Healthy,
    NoFrames,
    Stalled,
    WriteError,
    ShortCapture,
}

/// Position of the last `c` in `s`, or -1.
pub open spec fn last_pos(s: Seq<char>, c: char) -> int
    decreases s.len(),
{
    if s.len() == 0 {
        -1
    } else if s.last() == c {
        s.len() - 1
    } else {
        last_pos(s.drop_last(), c)
    }
}

proof fn lemma_last_pos(s: Seq<char>, c: char)
    ensures
        -1 <= last_pos(s, c) < s.len(),
        last_pos(s, c) >= 0 ==> s[last_pos(s, c)] == c,
        forall|j: int| last_pos(s, c) < j < s.len() ==> s[j] != c,
    decreases s.len(),
{
    if s.len() > 0 && s.last() != c {
        lemma_last_pos(s.drop_last(), c);
        assert forall|j: int| last_pos(s, c) < j < s.len() implies s[j] != c by {
            if j < s.len() - 1 {
                assert(s.drop_last()[j] == s[j]);
            }
        }
        if last_pos(s, c) >= 0 {
            assert(s.drop_last()[last_pos(s, c)] == s[last_pos(s, c)]);
        }
    }
}

fn find_last(v: &Vec<char>, c: char) -> (r: Option<usize>)
    ensures
        r matches Some(i) ==> i == last_pos(v@, c),
        r is None ==> last_pos(v@, c) == -1,
{
    proof {
        lemma_last_pos(v@, c);
    }
    let mut i: usize = v.len();
    while i > 0
        invariant
            0 <= i <= v@.len(),
            forall|j: int| i <= j < v@.len() ==> v@[j] != c,
            -1 <= last_pos(v@, c) < v@.len(),
            last_pos(v@, c) >= 0 ==> v@[last_pos(v@, c)] == c,
            forall|j: int| last_pos(v@, c) < j < v@.len() ==> v@[j] != c,
        decreases i,
    {
        if v[i - 1] == c {
            return Some(i - 1);
        }
        i = i - 1;
    }
    None
}

/// The section path for a capture whose base file is `{id}.m4a`: the
/// section `{id}-{source}-segment-{index:08}.m4a` beside it.
pub open spec fn section_path(base: Seq<char>, source: AudioSource, index: nat) -> Option<Seq<char>> {
    let slash = last_pos(base, '/');
    let dir = base.take(slash + 1);
    let name = base.skip(slash + 1);
    let dot = last_pos(name, '.');
    if dot > 0 && valid_id(name.take(dot)) && name.skip(dot + 1) == "m4a"@ {
        Some(dir + segment_name(name.take(dot), source, index))
    } else {
        None
    }
}

pub fn segment_path(base: &str, source: AudioSource, index: u64) -> (r: AppResult<String>)
    ensures
        r is Ok <==> section_path(base@, source, index as nat) is Some,
        r matches Ok(p) ==> section_path(base@, source, index as nat) == Some(p@),
        r matches Err(e) ==> e.code@ == "invalid_audio_path"@,
{
    let v = chars_of(base);
    let n: usize = v.len();
    proof {
        lemma_last_pos(v@, '/');
    }
    let start: usize = match find_last(&v, '/') {
        Some(i) => i + 1,
        None => 0,
    };
    proof {
        lemma_last_pos(v@, '/');
    }
    let dir = base.substring_char(0, start);
    let name = base.substring_char(start, n);
    let name_chars = chars_of(name);
    let m: usize = name_chars.len();
    let dot: usize = match find_last(&name_chars, '.') {
        Some(d) => d,
        None => 0,
    };
    proof {
        lemma_last_pos(name_chars@, '.');
        reveal_strlit("m4a");
    }
    if dot == 0 {
        return Err(AppError::new("invalid_audio_path", "Invalid capture session path"));
    }
    let stem = name.substring_char(0, dot);
    let extension = name.substring_char(dot + 1, m);
    if validate_id(stem).is_err() || !same_text(extension, "m4a") {
        return Err(AppError::new("invalid_audio_path", "Invalid capture session path"));
    }
    let file = segment_file_name(stem, source, index);
    Ok(concat2(dir, file.as_str()))
}

/// One source's counters at one moment.
#[derive(Clone, Debug)]
pub struct SourceHealth {
    pub admitted_frames: u64,
    /// Frames the writer accepted.
    pub written_frames: u64,
    pub sample_rate: u32,
    /// Milliseconds since the last callback, if one arrived.
    pub last_callback_age_ms: Option<u64>,
    pub write_error: Option<i32>,
    pub status: CaptureStatus,
}

#[derive(Clone, Debug)]
pub struct RecordingHealth {
    pub wall_ms: u64,
    pub system: SourceHealth,
    pub microphone: SourceHealth,
    pub identity_changed: bool,
    pub warnings: Vec<String>,
}

/// Counters one audio callback updates for one source.
#[derive(Debug)]
pub struct SourceCounters {
    admitted_frames: u64,
    written_frames: u64,
    /// Zero means no callback; other values are elapsed milliseconds plus one.
    last_callback_ms: u64,
    last_written_frame_ms: u64,
    write_status: i32,
}

/// Seconds before a silent source counts as missing or stalled.
pub open spec fn quiet_limit_ms() -> int {
    10_000
}

/// Milliseconds elapsed since a stamp (elapsed milliseconds plus one), never negative.
pub open spec fn age_ms(wall_ms: int, stamp: int) -> int {
    if wall_ms - (stamp - 1) > 0 {
        wall_ms - (stamp - 1)
    } else {
        0
    }
}

/// A stopped capture is short when it lacks more than five seconds, or more
/// than 5% of the wall duration: missing = wall - written / rate.
pub open spec fn short_capture(wall_ms: int, written: int, rate: int) -> bool {
    wall_ms * rate > written * 1000 + 5000 * rate || 19 * (wall_ms * rate) > 20000 * written
}

pub open spec fn capture_status(
    write_status: int,
    written: int,
    last_written_frame_ms: int,
    rate: int,
    wall_ms: int,
    stopped: bool,
) -> CaptureStatus {
    if write_status != 0 {
        CaptureStatus::WriteError
    } else if written == 0 {
        if stopped || wall_ms >= quiet_limit_ms() {
            CaptureStatus::NoFrames
        } else {
            CaptureStatus::Starting
        }
    } else if !stopped && last_written_frame_ms > 0 && age_ms(wall_ms, last_written_frame_ms)
        >= quiet_limit_ms() {
        CaptureStatus::Stalled
    } else if stopped && short_capture(wall_ms, written, rate) {
        CaptureStatus::ShortCapture
    } else {
        CaptureStatus::Healthy
    }
}

impl SourceCounters {
    pub closed spec fn admitted(&self) -> int {
        self.admitted_frames as int
    }

    pub closed spec fn written(&self) -> int {
        self.written_frames as int
    }

    pub closed spec fn callback_stamp(&self) -> int {
        self.last_callback_ms as int
    }

    pub closed spec fn frame_stamp(&self) -> int {
        self.last_written_frame_ms as int
    }

    pub closed spec fn status_code(&self) -> int {
        self.write_status as int
    }

    pub fn new() -> (c: SourceCounters)
        ensures
            c.admitted() == 0,
            c.written() == 0,
            c.callback_stamp() == 0,
            c.frame_stamp() == 0,
            c.status_code() == 0,
    {
        SourceCounters {
            admitted_frames: 0,
            written_frames: 0,
            last_callback_ms: 0,
            last_written_frame_ms: 0,
            write_status: 0,
        }
    }

    /// A callback arrived `elapsed_ms` after capture started.
    pub fn callback(&mut self, elapsed_ms: u64)
        ensures
            final(self).callback_stamp() == if elapsed_ms == u64::MAX {
                u64::MAX as int
            } else {
                elapsed_ms + 1
            },
            final(self).admitted() == old(self).admitted(),
            final(self).written() == old(self).written(),
            final(self).frame_stamp() == old(self).frame_stamp(),
            final(self).status_code() == old(self).status_code(),
    {
        self.last_callback_ms = elapsed_ms.saturating_add(1);
    }

    /// A callback handed `frames` frames to the writer.
    pub fn accept_frames(&mut self, frames: u32)
        ensures
            final(self).admitted() == (old(self).admitted() + frames) % 0x1_0000_0000_0000_0000,
            final(self).written() == old(self).written(),
            final(self).callback_stamp() == old(self).callback_stamp(),
            final(self).frame_stamp() == old(self).frame_stamp(),
            final(self).status_code() == old(self).status_code(),
    {
        self.admitted_frames = self.admitted_frames.wrapping_add(frames as u64);
    }

    /// The writer finished `frames` frames with `status`. Only successful
    /// writes count as captured audio; the first failure status is kept.
    pub fn complete_write(&mut self, frames: u32, status: i32)
        ensures
            status == 0 ==> final(self).written() == (old(self).written() + frames)
                % 0x1_0000_0000_0000_0000,
            status != 0 ==> final(self).written() == old(self).written(),
            final(self).frame_stamp() == if status == 0 && frames != 0 {
                old(self).callback_stamp()
            } else {
                old(self).frame_stamp()
            },
            final(self).status_code() == if status != 0 && old(self).status_code() == 0 {
                status as int
            } else {
                old(self).status_code()
            },
            final(self).admitted() == old(self).admitted(),
            final(self).callback_stamp() == old(self).callback_stamp(),
    {
        if status == 0 {
            if frames != 0 {
                self.last_written_frame_ms = self.last_callback_ms;
            }
            self.written_frames = self.written_frames.wrapping_add(frames as u64);
        } else if self.write_status == 0 {
            self.write_status = status;
        }
    }

    /// The source's health `wall_ms` milliseconds into a capture at `sample_rate`.
    pub fn snapshot(&self, sample_rate: u32, wall_ms: u64, stopped: bool) -> (h: SourceHealth)
        ensures
            h.admitted_frames == self.admitted(),
            h.written_frames == self.written(),
            h.sample_rate == sample_rate,
            h.last_callback_age_ms == if self.callback_stamp() == 0 {
                None::<u64>
            } else {
                Some(age_ms(wall_ms as int, self.callback_stamp()) as u64)
            },
            h.write_error == if self.status_code() == 0 {
                None::<i32>
            } else {
                Some(self.status_code() as i32)
            },
            h.status == capture_status(
                self.status_code(),
                self.written(),
                self.frame_stamp(),
                sample_rate as int,
                wall_ms as int,
                stopped,
            ),
    {
        let last_callback_age_ms = if self.last_callback_ms == 0 {
            None
        } else {
            Some(age(wall_ms, self.last_callback_ms))
        };
        let written = self.written_frames;
        let status = if self.write_status != 0 {
            CaptureStatus::WriteError
        } else if written == 0 {
            if stopped || wall_ms >= 10_000 {
                CaptureStatus::NoFrames
            } else {
                CaptureStatus::Starting
            }
        } else if !stopped && self.last_written_frame_ms > 0 && age(
            wall_ms,
            self.last_written_frame_ms,
        ) >= 10_000 {
            CaptureStatus::Stalled
        } else if stopped && is_short(wall_ms, written, sample_rate) {
            CaptureStatus::ShortCapture
        } else {
            CaptureStatus::Healthy
        };
        SourceHealth {
            admitted_frames: self.admitted_frames,
            written_frames: written,
            sample_rate,
            last_callback_age_ms,
            write_error: if self.write_status != 0 {
                Some(self.write_status)
            } else {
                None
            },
            status,
        }
    }
}

fn age(wall_ms: u64, stamp: u64) -> (a: u64)
    requires
        stamp > 0,
    ensures
        a == age_ms(wall_ms as int, stamp as int),
{
    if wall_ms > stamp - 1 {
        wall_ms - (stamp - 1)
    } else {
        0
    }
}

fn is_short(wall_ms: u64, written: u64, rate: u32) -> (b: bool)
    ensures
        b == short_capture(wall_ms as int, written as int, rate as int),
{
    let w: u128 = wall_ms as u128;
    let f: u128 = written as u128;
    let r: u128 = rate as u128;
    proof {
        assert(w * r <= 0xffff_ffff_ffff_ffff * 0xffff_ffff) by (nonlinear_arith)
            requires
                w <= 0xffff_ffff_ffff_ffff,
                r <= 0xffff_ffff,
        ;
    }
    let lhs: u128 = w * r;
    proof {
        assert(lhs == wall_ms as int * rate as int);
    }
    lhs > f * 1000 + 5000 * r || 19 * lhs > 20000 * f
}

/// Whole tenths of `num / den`, rounded half up.
pub open spec fn tenths(num: int, den: int) -> int {
    (num * 20 + den) / (den * 2)
}

/// A number of tenths written with one decimal (`{:.1}`).
pub open spec fn one_decimal(t: nat) -> Seq<char> {
    decimal(t / 10) + "."@ + decimal(t % 10)
}

pub fn one_decimal_string(t: u128) -> (s: String)
    ensures
        s@ == one_decimal(t as nat),
{
    let whole = decimal_string(t / 10);
    let fraction = decimal_string(t % 10);
    concat3(whole.as_str(), ".", fraction.as_str())
}

/// A signed status code in decimal.
pub open spec fn signed_decimal(v: int) -> Seq<char> {
    if v < 0 {
        "-"@ + decimal((-v) as nat)
    } else {
        decimal(v as nat)
    }
}

pub fn signed_decimal_string(v: i32) -> (s: String)
    ensures
        s@ == signed_decimal(v as int),
{
    if v < 0 {
        let magnitude: u128 = (0 - (v as i64)) as u128;
        concat2("-", decimal_string(magnitude).as_str())
    } else {
        decimal_string(v as u128)
    }
}

/// Seconds of audio a source captured, in tenths.
pub open spec fn captured_tenths(h: SourceHealth) -> int {
    if h.sample_rate == 0 {
        0
    } else {
        tenths(h.written_frames as int, h.sample_rate as int)
    }
}

/// The warnings one source contributes to a capture's health.
pub open spec fn source_warnings(label: Seq<char>, h: SourceHealth, wall_ms: int) -> Seq<Seq<char>> {
    let captured = one_decimal(captured_tenths(h) as nat);
    let wall = one_decimal(((wall_ms + 50) / 100) as nat);
    match h.status {
        CaptureStatus::NoFrames => seq![label + " has produced no audio frames."@],
        CaptureStatus::Stalled => seq![
            label + " has not delivered writable audio frames for at least 10 seconds."@,
        ],
        CaptureStatus::WriteError => seq![
            label + " could not write some audio (OSStatus "@ + signed_decimal(
                match h.write_error {
                    Some(c) => c as int,
                    None => 0,
                },
            ) + ")."@,
            label + " accepted "@ + captured + " seconds of audio during "@ + wall
                + " seconds of recording."@,
        ],
        CaptureStatus::ShortCapture => seq![
            label + " captured "@ + captured + " seconds of a "@ + wall + "-second recording."@,
        ],
        _ => Seq::empty(),
    }
}

fn push_source_warnings(
    warnings: &mut Vec<String>,
    label: &str,
    h: &SourceHealth,
    wall_ms: u64,
)
    ensures
        final(warnings)@.map_values(|w: String| w@) == old(warnings)@.map_values(|w: String| w@)
            + source_warnings(label@, *h, wall_ms as int),
{
    let ghost before = warnings@.map_values(|w: String| w@);
    let captured_t: u128 = if h.sample_rate == 0 {
        0
    } else {
        let num: u128 = (h.written_frames as u128) * 20 + h.sample_rate as u128;
        let den: u128 = (h.sample_rate as u128) * 2;
        num / den
    };
    let captured = one_decimal_string(captured_t);
    let wall = one_decimal_string((wall_ms as u128 + 50) / 100);
    match h.status {
        CaptureStatus::NoFrames => {
            warnings.push(concat2(label, " has produced no audio frames."));
            proof {
                assert(warnings@.map_values(|w: String| w@) =~= before + source_warnings(
                    label@,
                    *h,
                    wall_ms as int,
                ));
            }
        },
        CaptureStatus::Stalled => {
            warnings.push(
                concat2(label, " has not delivered writable audio frames for at least 10 seconds."),
            );
            proof {
                assert(warnings@.map_values(|w: String| w@) =~= before + source_warnings(
                    label@,
                    *h,
                    wall_ms as int,
                ));
            }
        },
        CaptureStatus::WriteError => {
            let code = signed_decimal_string(
                match h.write_error {
                    Some(c) => c,
                    None => 0,
                },
            );
            let first = concat3(
                concat2(label, " could not write some audio (OSStatus ").as_str(),
                code.as_str(),
                ").",
            );
            warnings.push(first);
            let second = concat3(
                concat3(label, " accepted ", captured.as_str()).as_str(),
                concat2(" seconds of audio during ", wall.as_str()).as_str(),
                " seconds of recording.",
            );
            proof {
                assert(captured@ == one_decimal(captured_tenths(*h) as nat));
                assert(wall@ == one_decimal(((wall_ms + 50) / 100) as nat));
                assert(first@ =~= label@ + " could not write some audio (OSStatus "@
                    + signed_decimal(
                    match h.write_error {
                        Some(c) => c as int,
                        None => 0,
                    },
                ) + ")."@);
                assert(second@ =~= label@ + " accepted "@ + captured@ + " seconds of audio during "@
                    + wall@ + " seconds of recording."@);
            }
            warnings.push(second);
            proof {
                assert(warnings@.map_values(|w: String| w@) =~= before + source_warnings(
                    label@,
                    *h,
                    wall_ms as int,
                ));
            }
        },
        CaptureStatus::ShortCapture => {
            let w = concat3(
                concat3(label, " captured ", captured.as_str()).as_str(),
                concat2(" seconds of a ", wall.as_str()).as_str(),
                "-second recording.",
            );
            proof {
                assert(captured@ == one_decimal(captured_tenths(*h) as nat));
                assert(wall@ == one_decimal(((wall_ms + 50) / 100) as nat));
                assert(w@ =~= label@ + " captured "@ + captured@ + " seconds of a "@ + wall@
                    + "-second recording."@);
            }
            warnings.push(w);
            proof {
                assert(warnings@.map_values(|w: String| w@) =~= before + source_warnings(
                    label@,
                    *h,
                    wall_ms as int,
                ));
            }
        },
        _ => {
            proof {
                assert(warnings@.map_values(|w: String| w@) =~= before + source_warnings(
                    label@,
                    *h,
                    wall_ms as int,
                ));
            }
        },
    }
}

impl RecordingHealth {
    /// Both sources' health, with one warning per problem found.
    pub fn from_sources(wall_ms: u64, system: SourceHealth, microphone: SourceHealth) -> (h:
        RecordingHealth)
        ensures
            h.wall_ms == wall_ms,
            h.system == system,
            h.microphone == microphone,
            !h.identity_changed,
            h.warnings@.map_values(|w: String| w@) == source_warnings(
                "System audio"@,
                system,
                wall_ms as int,
            ) + source_warnings("Microphone"@, microphone, wall_ms as int),
    {
        let mut warnings: Vec<String> = Vec::new();
        proof {
            assert(warnings@.map_values(|w: String| w@) =~= Seq::<Seq<char>>::empty());
        }
        push_source_warnings(&mut warnings, "System audio", &system, wall_ms);
        push_source_warnings(&mut warnings, "Microphone", &microphone, wall_ms);
        proof {
            assert(Seq::<Seq<char>>::empty() + source_warnings("System audio"@, system, wall_ms as int)
                =~= source_warnings("System audio"@, system, wall_ms as int));
        }
        RecordingHealth { wall_ms, system, microphone, identity_changed: false, warnings }
    }

    /// Marks whether the app's executable changed during capture; a change
    /// adds a warning, since platform permissions may have changed with it.
    pub fn set_identity_changed(&mut self, changed: bool)
        ensures
            final(self).identity_changed == changed,
            changed ==> final(self).warnings@.map_values(|w: String| w@) == old(
                self,
            ).warnings@.map_values(|w: String| w@).push(identity_warning()),
            !changed ==> final(self).warnings == old(self).warnings,
            final(self).wall_ms == old(self).wall_ms,
            final(self).system == old(self).system,
            final(self).microphone == old(self).microphone,
    {
        self.identity_changed = changed;
        if changed {
            self.warnings.push(
                owned(
                    "The app executable changed while this process was running. macOS privacy permissions may have changed and capture may be incomplete. Avoid replacing the app during recording; stable Developer ID signing is needed to prevent ad-hoc identity changes.",
                ),
            );
            proof {
                assert(final(self).warnings@.map_values(|w: String| w@) =~= old(
                    self,
                ).warnings@.map_values(|w: String| w@).push(identity_warning()));
            }
        }
    }
}

pub open spec fn identity_warning() -> Seq<char> {
    "The app executable changed while this process was running. macOS privacy permissions may have changed and capture may be incomplete. Avoid replacing the app during recording; stable Developer ID signing is needed to prevent ad-hoc identity changes."@
}

/// What identifies the executable file on disk: size, modification time,
/// device and inode.
#[derive(Debug)]
pub struct Fingerprint {
    pub length: u64,
    pub modified_ns: Option<u128>,
    pub device: u64,
    pub inode: u64,
}

pub fn same_fingerprint(a: &Option<Fingerprint>, b: &Option<Fingerprint>) -> (r: bool)
    ensures
        r == (a == b),
{
    match (a, b) {
        (None, None) => true,
        (Some(x), Some(y)) => x.length == y.length && x.device == y.device && x.inode == y.inode
            && match (x.modified_ns, y.modified_ns) {
            (None, None) => true,
            (Some(p), Some(q)) => p == q,
            _ => false,
        },
        _ => false,
    }
}

/// The executable as it was when recording support started.
#[derive(Debug)]
pub struct ExecutableIdentity {
    pub baseline: Option<Fingerprint>,
}

impl ExecutableIdentity {
    pub fn read(baseline: Option<Fingerprint>) -> (e: ExecutableIdentity)
        ensures
            e.baseline == baseline,
    {
        ExecutableIdentity { baseline }
    }

    /// Whether the executable now found differs from the baseline, including
    /// when it has disappeared.
    pub fn changed(&self, current: &Option<Fingerprint>) -> (r: bool)
        ensures
            r == (self.baseline != *current),
    {
        !same_fingerprint(&self.baseline, current)
    }
}

/// Mach's conversion from clock ticks to nanoseconds: `numer / denom`.
#[derive(Clone, Copy, Debug)]
pub struct MachTimebase {
    pub numer: u32,
    pub denom: u32,
}

/// A capture clock that keeps counting while the machine sleeps, so that
/// the wall duration of a capture includes sleep: the tick count when
/// capture started and the timebase read before it.
#[derive(Clone, Copy, Debug)]
pub struct ContinuousClock {
    pub started_ticks: u64,
    pub timebase: MachTimebase,
}

/// Nanoseconds from `started` to `ticks` (none before the start), saturating
/// at the largest `u64`.
pub open spec fn elapsed_nanos(started: u64, numer: u32, denom: u32, ticks: u64) -> int {
    let span: int = if ticks >= started {
        ticks - started
    } else {
        0
    };
    let n = span * numer / (denom as int);
    if n > u64::MAX {
        u64::MAX as int
    } else {
        n
    }
}

impl ContinuousClock {
    /// A clock started at `started_ticks`; a timebase with a zero is refused.
    pub fn from_timebase(started_ticks: u64, timebase: MachTimebase) -> (r: AppResult<
        ContinuousClock,
    >)
        ensures
            r is Ok <==> timebase.numer != 0 && timebase.denom != 0,
            r matches Ok(c) ==> c.started_ticks == started_ticks && c.timebase == timebase,
            r matches Err(e) ==> e.code@ == "audio_capture"@ && e.message@
                == "macOS returned an invalid capture clock timebase"@,
    {
        if timebase.numer == 0 || timebase.denom == 0 {
            return Err(
                AppError::new("audio_capture", "macOS returned an invalid capture clock timebase"),
            );
        }
        Ok(ContinuousClock { started_ticks, timebase })
    }

    /// Nanoseconds elapsed at clock reading `ticks`.
    pub fn elapsed_at(&self, ticks: u64) -> (nanos: u64)
        requires
            self.timebase.denom != 0,
        ensures
            nanos == elapsed_nanos(self.started_ticks, self.timebase.numer, self.timebase.denom, ticks),
    {
        let span: u64 = if ticks >= self.started_ticks {
            ticks - self.started_ticks
        } else {
            0
        };
        let numer: u32 = self.timebase.numer;
        proof {
            assert((span as int) * (numer as int) <= 0xffff_ffff_ffff_ffffint * 0xffff_ffffint)
                by (nonlinear_arith)
                requires
                    span <= 0xffff_ffff_ffff_ffffu64,
                    numer <= 0xffff_ffffu32,
            ;
        }
        let product: u128 = (span as u128) * (numer as u128);
        let scaled: u128 = product / (self.timebase.denom as u128);
        if scaled > 0xffff_ffff_ffff_ffffu128 {
            0xffff_ffff_ffff_ffffu64
        } else {
            scaled as u64
        }
    }
}

/// Which session owns the recorder, and whether capture resources exist for it.
#[derive(Debug)]
pub struct RecordingSlot {
    pub session_id: Option<String>,
    pub active: bool,
}

pub open spec fn owner_is(slot: &RecordingSlot, id: Seq<char>) -> bool {
    slot.session_id matches Some(s) && s@ == id
}

fn owned_by(slot: &RecordingSlot, id: &str) -> (r: bool)
    ensures
        r == owner_is(slot, id@),
{
    match &slot.session_id {
        Some(s) => same_text(s.as_str(), id),
        None => false,
    }
}

pub fn session_mismatch() -> (e: AppError)
    ensures
        e.code@ == "recording_session_mismatch"@,
        e.message@ == "Recording belongs to a different session"@,
{
    AppError::new("recording_session_mismatch", "Recording belongs to a different session")
}

pub fn resources_missing() -> (e: AppError)
    ensures
        e.code@ == "recorder_state"@,
        e.message@ == "Recording resources are missing"@,
{
    AppError::new("recorder_state", "Recording resources are missing")
}

impl RecordingSlot {
    pub fn empty() -> (s: RecordingSlot)
        ensures
            s.session_id is None,
            !s.active,
    {
        RecordingSlot { session_id: None, active: false }
    }

    /// Claims the recorder for a session; one recording at a time.
    pub fn reserve(&mut self, session_id: &str) -> (r: AppResult<()>)
        ensures
            r is Ok <==> old(self).session_id is None,
            r is Ok ==> owner_is(final(self), session_id@) && final(self).active == old(
                self,
            ).active,
            r matches Err(e) ==> e.code@ == "already_recording"@ && e.message@
                == "A recording is already in progress"@ && *final(self) == *old(self),
    {
        if self.session_id.is_some() {
            return Err(AppError::new("already_recording", "A recording is already in progress"));
        }
        self.session_id = Some(owned(session_id));
        Ok(())
    }

    /// Gives the recorder back; only its owner can.
    pub fn release(&mut self, session_id: &str) -> (r: AppResult<()>)
        ensures
            r is Ok <==> owner_is(old(self), session_id@),
            r is Ok ==> final(self).session_id is None && final(self).active == old(
                self,
            ).active,
            r matches Err(e) ==> e.code@ == "recording_session_mismatch"@ && *final(self) == *old(
                self,
            ),
    {
        if !owned_by(self, session_id) {
            return Err(session_mismatch());
        }
        self.session_id = None;
        Ok(())
    }
}

#[derive(Clone, Debug)]
pub struct RecordingInfo {
    pub session_id: String,
    pub started_at: String,
}

/// A finalized capture section as the recorder hands it over.
#[derive(Clone, Debug)]
pub struct CapturedSegment {
    pub source: AudioSource,
    pub index: u64,
    pub start_us: u64,
    pub duration_us: u64,
    pub path: String,
}

/// What a stopped recording leaves: the two source files, the capture
/// health, and the finalized sections when capture was sectioned.
#[derive(Clone, Debug)]
pub struct RecordingFiles {
    pub system: String,
    pub microphone: String,
    pub health: Option<RecordingHealth>,
    pub segments: Vec<CapturedSegment>,
    pub segmented: bool,
}

/// The recorder: a single slot; platform capture runs beside it.
#[derive(Debug)]
pub struct Recorder {
    pub slot: RecordingSlot,
    pub executable: Option<ExecutableIdentity>,
}

pub fn capture_unsupported() -> (e: AppError)
    ensures
        e.code@ == "audio_capture_unsupported"@,
{
    AppError::new("audio_capture_unsupported", "System audio capture requires macOS 14.2 or newer")
}

impl Recorder {
    pub fn new(executable: Option<ExecutableIdentity>) -> (r: Recorder)
        ensures
            r.slot.session_id is None,
            !r.slot.active,
            r.executable == executable,
    {
        Recorder { slot: RecordingSlot::empty(), executable }
    }

    /// Starts capture for a session: claims the slot, then runs the platform
    /// start (told whether capture is sectioned). A failed platform start
    /// gives the slot back.
    fn start_mode<F: FnOnce(bool) -> AppResult<()>>(
        &mut self,
        session_id: &str,
        native_start: F,
        segmented: bool,
        started_at: String,
    ) -> (r: AppResult<RecordingInfo>)
        requires
            call_requires(native_start, (segmented,)),
            old(self).slot.session_id is None ==> !old(self).slot.active,
        ensures
            session_id@.len() == 0 ==> (r matches Err(e) && e.code@ == "invalid_session_id"@
                && e.message@ == "Session ID is required"@),
            session_id@.len() == 0 ==> final(self).slot == old(self).slot,
            session_id@.len() != 0 && old(self).slot.session_id is Some ==> (r matches Err(e)
                && e.code@ == "already_recording"@ && e.message@
                == "A recording is already in progress"@),
            old(self).slot.session_id is Some ==> r is Err && final(self).slot == old(self).slot,
            r matches Ok(info) ==> info.session_id@ == session_id@ && info.started_at
                == started_at && owner_is(&final(self).slot, session_id@)
                && final(self).slot.active,
            r is Err && old(self).slot.session_id is None ==> final(self).slot.session_id is None,
            session_id@.len() != 0 && old(self).slot.session_id is None ==> exists|res: AppResult<()>|
                #![trigger call_ensures(native_start, (segmented,), res)]
                call_ensures(native_start, (segmented,), res) && match res {
                    Ok(()) => r is Ok,
                    Err(e) => r == Err::<RecordingInfo, AppError>(e),
                },
            final(self).executable == old(self).executable,
    {
        if session_id.unicode_len() == 0 {
            return Err(AppError::new("invalid_session_id", "Session ID is required"));
        }
        match self.slot.reserve(session_id) {
            Ok(()) => {},
            Err(e) => return Err(e),
        }
        match native_start(segmented) {
            Ok(()) => {
                self.slot.active = true;
                Ok(RecordingInfo { session_id: owned(session_id), started_at })
            },
            Err(e) => {
                self.slot.session_id = None;
                Err(e)
            },
        }
    }

    /// Starts whole-file capture (see `start_mode`).
    pub fn start<F: FnOnce(bool) -> AppResult<()>>(
        &mut self,
        session_id: &str,
        native_start: F,
        started_at: String,
    ) -> (r: AppResult<RecordingInfo>)
        requires
            call_requires(native_start, (false,)),
            old(self).slot.session_id is None ==> !old(self).slot.active,
        ensures
            session_id@.len() == 0 ==> (r matches Err(e) && e.code@ == "invalid_session_id"@
                && e.message@ == "Session ID is required"@),
            session_id@.len() == 0 ==> final(self).slot == old(self).slot,
            session_id@.len() != 0 && old(self).slot.session_id is Some ==> (r matches Err(e)
                && e.code@ == "already_recording"@ && e.message@
                == "A recording is already in progress"@),
            old(self).slot.session_id is Some ==> r is Err && final(self).slot == old(self).slot,
            r matches Ok(info) ==> info.session_id@ == session_id@ && info.started_at
                == started_at && owner_is(&final(self).slot, session_id@)
                && final(self).slot.active,
            r is Err && old(self).slot.session_id is None ==> final(self).slot.session_id is None,
            session_id@.len() != 0 && old(self).slot.session_id is None ==> exists|res: AppResult<()>|
                #![trigger call_ensures(native_start, (false,), res)]
                call_ensures(native_start, (false,), res) && match res {
                    Ok(()) => r is Ok,
                    Err(e) => r == Err::<RecordingInfo, AppError>(e),
                },
            final(self).executable == old(self).executable,
    {
        self.start_mode(session_id, native_start, false, started_at)
    }

    /// Starts sectioned capture (see `start_mode`).
    pub fn start_segmented<F: FnOnce(bool) -> AppResult<()>>(
        &mut self,
        session_id: &str,
        native_start: F,
        started_at: String,
    ) -> (r: AppResult<RecordingInfo>)
        requires
            call_requires(native_start, (true,)),
            old(self).slot.session_id is None ==> !old(self).slot.active,
        ensures
            session_id@.len() == 0 ==> (r matches Err(e) && e.code@ == "invalid_session_id"@
                && e.message@ == "Session ID is required"@),
            session_id@.len() == 0 ==> final(self).slot == old(self).slot,
            session_id@.len() != 0 && old(self).slot.session_id is Some ==> (r matches Err(e)
                && e.code@ == "already_recording"@ && e.message@
                == "A recording is already in progress"@),
            old(self).slot.session_id is Some ==> r is Err && final(self).slot == old(self).slot,
            r matches Ok(info) ==> info.session_id@ == session_id@ && info.started_at
                == started_at && owner_is(&final(self).slot, session_id@)
                && final(self).slot.active,
            r is Err && old(self).slot.session_id is None ==> final(self).slot.session_id is None,
            session_id@.len() != 0 && old(self).slot.session_id is None ==> exists|res: AppResult<()>|
                #![trigger call_ensures(native_start, (true,), res)]
                call_ensures(native_start, (true,), res) && match res {
                    Ok(()) => r is Ok,
                    Err(e) => r == Err::<RecordingInfo, AppError>(e),
                },
            final(self).executable == old(self).executable,
    {
        self.start_mode(session_id, native_start, true, started_at)
    }

    /// Stops the owner's capture. The slot is given back whether or not the
    /// capture resources were still there.
    pub fn stop(&mut self, session_id: &str) -> (r: AppResult<()>)
        ensures
            !owner_is(&old(self).slot, session_id@) ==> (r matches Err(e) && e.code@
                == "recording_session_mismatch"@) && final(self).slot == old(self).slot,
            owner_is(&old(self).slot, session_id@) ==> final(self).slot.session_id is None
                && !final(self).slot.active,
            owner_is(&old(self).slot, session_id@) ==> (r is Ok <==> old(self).slot.active),
            owner_is(&old(self).slot, session_id@) && !old(self).slot.active ==> (r matches Err(
                e,
            ) && e.code@ == "recorder_state"@),
            final(self).executable == old(self).executable,
    {
        if !owned_by(&self.slot, session_id) {
            return Err(session_mismatch());
        }
        let had_resources = self.slot.active;
        self.slot.active = false;
        self.slot.session_id = None;
        if had_resources {
            Ok(())
        } else {
            Err(resources_missing())
        }
    }

    /// Checks that rotation or a health read concerns the recording in progress.
    pub fn ensure_active(&self, session_id: &str) -> (r: AppResult<()>)
        ensures
            r is Ok <==> owner_is(&self.slot, session_id@) && self.slot.active,
            !owner_is(&self.slot, session_id@) ==> (r matches Err(e) && e.code@
                == "recording_session_mismatch"@),
            owner_is(&self.slot, session_id@) && !self.slot.active ==> (r matches Err(e) && e.code@
                == "recorder_state"@),
    {
        if !owned_by(&self.slot, session_id) {
            return Err(session_mismatch());
        }
        if !self.slot.active {
            return Err(resources_missing());
        }
        Ok(())
    }

    pub fn is_recording(&self) -> (b: bool)
        ensures
            b == self.slot.session_id is Some,
    {
        self.slot.session_id.is_some()
    }

    /// Whether the executable changed since the recorder was created.
    pub fn identity_changed(&self, current: &Option<Fingerprint>) -> (b: bool)
        ensures
            b == (self.executable matches Some(e) && e.baseline != *current),
    {
        match &self.executable {
            Some(identity) => identity.changed(current),
            None => false,
        }
    }
}

/// The Core Audio status that reports a denied audio permission.
pub const AUDIO_PERMISSION_DENIED: i32 = -66748;

pub open spec fn status_message(operation: Seq<char>, status: int) -> Seq<char> {
    operation + " failed with OSStatus "@ + signed_decimal(status)
}

/// Passes a native status through: zero is success.
pub fn check_status(operation: &str, status: i32) -> (r: AppResult<()>)
    ensures
        r is Ok <==> status == 0,
        r matches Err(e) ==> e.code@ == (if status == AUDIO_PERMISSION_DENIED {
            "audio_permission"@
        } else {
            "audio_capture"@
        }) && e.message@ == status_message(operation@, status as int),
{
    if status == 0 {
        Ok(())
    } else {
        Err(status_error(operation, status))
    }
}

/// Appends the error of a failed native status to `errors`.
pub fn collect_status(errors: &mut Vec<AppError>, operation: &str, status: i32)
    ensures
        status == 0 ==> final(errors)@ == old(errors)@,
        status != 0 ==> final(errors)@.len() == old(errors)@.len() + 1 && final(errors)@.take(
            old(errors)@.len() as int,
        ) == old(errors)@ && final(errors)@.last().message@ == status_message(
            operation@,
            status as int,
        ) && final(errors)@.last().code@ == (if status == AUDIO_PERMISSION_DENIED {
            "audio_permission"@
        } else {
            "audio_capture"@
        }),
{
    if status != 0 {
        errors.push(status_error(operation, status));
        proof {
            assert(final(errors)@.take(old(errors)@.len() as int) =~= old(errors)@);
        }
    }
}

/// Only the Core Audio permission status is reported as a permission failure.
pub fn status_error(operation: &str, status: i32) -> (e: AppError)
    ensures
        e.code@ == (if status == AUDIO_PERMISSION_DENIED {
            "audio_permission"@
        } else {
            "audio_capture"@
        }),
        e.message@ == status_message(operation@, status as int),
{
    let message = concat3(operation, " failed with OSStatus ", signed_decimal_string(status).as_str());
    if status == AUDIO_PERMISSION_DENIED {
        AppError::with_message("audio_permission", message)
    } else {
        AppError::with_message("audio_capture", message)
    }
}

/// A capture error on the microphone path, keeping permission guidance only
/// for permission denials.
pub fn microphone_error(error: AppError) -> (e: AppError)
    ensures
        e.code@ == (if error.code@ == "audio_permission"@ {
            "microphone_permission"@
        } else {
            "microphone_capture"@
        }),
        e.message@ == error.message@,
{
    if same_text(error.code.as_str(), "audio_permission") {
        AppError::with_message("microphone_permission", error.message)
    } else {
        AppError::with_message("microphone_capture", error.message)
    }
}

/// Messages joined by "; ".
pub open spec fn joined(msgs: Seq<Seq<char>>) -> Seq<char>
    decreases msgs.len(),
{
    if msgs.len() == 0 {
        Seq::empty()
    } else if msgs.len() == 1 {
        msgs[0]
    } else {
        joined(msgs.drop_last()) + "; "@ + msgs.last()
    }
}

/// One error for several cleanup failures: the first one's code, every message.
pub fn combine_errors(errors: Vec<AppError>) -> (e: AppError)
    ensures
        errors@.len() == 0 ==> e.code@ == "audio_capture"@,
        errors@.len() > 0 ==> e.code@ == errors@[0].code@,
        e.message@ == joined(errors@.map_values(|x: AppError| x.message@)),
{
    let ghost msgs = errors@.map_values(|x: AppError| x.message@);
    let n: usize = errors.len();
    let code = if n == 0 {
        owned("audio_capture")
    } else {
        errors[0].code.clone()
    };
    let mut message = String::new();
    let mut i: usize = 0;
    while i < n
        invariant
            n == errors@.len(),
            msgs == errors@.map_values(|x: AppError| x.message@),
            0 <= i <= n,
            message@ == joined(msgs.take(i as int)),
        decreases n - i,
    {
        proof {
            assert(msgs.take(i + 1).drop_last() =~= msgs.take(i as int));
        }
        if i > 0 {
            message.append("; ");
        }
        message.append(errors[i].message.as_str());
        proof {
            if i == 0 {
                assert(msgs.take(1) =~= seq![msgs[0]]);
                assert(message@ =~= joined(msgs.take(1)));
            }
        }
        i = i + 1;
    }
    proof {
        assert(msgs.take(n as int) =~= msgs);
    }
    AppError { code, message }
}

/// The bit of a callback gate that marks it closed to new work.
pub const GATE_CLOSED: u64 = 0x8000_0000_0000_0000;

/// Admits audio callbacks until disabled, and counts those still running so
/// their file can be retired only once they have all left.
#[derive(Debug)]
pub struct CallbackGate {
    state: u64,
}

impl CallbackGate {
    pub closed spec fn closed(&self) -> bool {
        self.state >= GATE_CLOSED
    }

    /// Callbacks inside the barrier.
    pub closed spec fn inside(&self) -> int {
        (self.state % GATE_CLOSED) as int
    }

    pub fn new() -> (g: CallbackGate)
        ensures
            !g.closed(),
            g.inside() == 0,
    {
        CallbackGate { state: 0 }
    }

    /// Lets a callback in, unless it is closed (or its count is full).
    pub fn try_enter(&mut self) -> (entered: bool)
        ensures
            entered <==> !old(self).closed() && old(self).inside() < GATE_CLOSED - 1,
            entered ==> final(self).inside() == old(self).inside() + 1 && !final(self).closed(),
            !entered ==> *final(self) == *old(self),
    {
        if self.state >= GATE_CLOSED || self.state == GATE_CLOSED - 1 {
            return false;
        }
        self.state = self.state + 1;
        true
    }

    /// A callback that entered leaves.
    pub fn leave(&mut self)
        requires
            old(self).inside() > 0,
        ensures
            final(self).inside() == old(self).inside() - 1,
            final(self).closed() == old(self).closed(),
    {
        self.state = self.state - 1;
    }

    /// Closes the barrier to new callbacks; those inside may finish.
    pub fn disable(&mut self)
        ensures
            final(self).closed(),
            final(self).inside() == old(self).inside(),
    {
        if self.state < GATE_CLOSED {
            self.state = self.state + GATE_CLOSED;
        }
    }

    /// No callback is inside.
    pub fn is_idle(&self) -> (b: bool)
        ensures
            b == (self.inside() == 0),
    {
        self.state % GATE_CLOSED == 0
    }
}

impl Default for RecordingSlot {
    /// A free slot.
    fn default() -> (s: RecordingSlot)
        ensures
            s.session_id is None,
            !s.active,
    {
        RecordingSlot::empty()
    }
}

impl Default for CallbackGate {
    /// An open gate with no callback inside.
    fn default() -> (g: CallbackGate)
        ensures
            !g.closed(),
            g.inside() == 0,
    {
        CallbackGate::new()
    }
}

} // verus!
