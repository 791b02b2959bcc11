//! The rules around the OpenAI API that do not depend on the network: how a
//! failed response becomes an actionable error, what a transcription request
//! holds, and how generated notes are written out.
use vstd::prelude::*;

use crate::error::{AppError, AppResult};
use crate::settings::{diarize_model, TranscriptionSettings};
use crate::text::{
    chars_of, concat2, concat3, contains, contains_chars, decimal, decimal_string, owned,
    push_char, same_text, string_of,
};

verus! {

pub open spec fn to_lower(c: char) -> char {
    if 'A' <= c && c <= 'Z' {
        ((c as u32) + 32) as char
    } else {
        c
    }
}

/// `str::to_ascii_lowercase`.
pub open spec fn ascii_lowercase(s: Seq<char>) -> Seq<char> {
    s.map_values(|c: char| to_lower(c))
}

fn lower_char(c: char) -> (r: char)
    ensures
        r == to_lower(c),
{
    if 'A' <= c && c <= 'Z' {
        ((c as u8) + 32) as char
    } else {
        c
    }
}

pub fn to_ascii_lowercase(s: &str) -> (r: Vec<char>)
    ensures
        r@ == ascii_lowercase(s@),
{
    let v = chars_of(s);
    let n: usize = v.len();
    let mut out: Vec<char> = Vec::new();
    let mut i: usize = 0;
    while i < n
        invariant
            n == v@.len(),
            v@ == s@,
            0 <= i <= n,
            out@ == ascii_lowercase(v@.take(i as int)),
        decreases n - i,
    {
        out.push(lower_char(v[i]));
        proof {
            assert(ascii_lowercase(v@.take(i + 1)) =~= ascii_lowercase(v@.take(i as int)).push(
                to_lower(v@[i as int]),
            ));
        }
        i = i + 1;
    }
    proof {
        assert(v@.take(n as int) =~= v@);
    }
    out
}

pub open spec fn request_id_char(c: char) -> bool {
    ('a' <= c && c <= 'z') || ('A' <= c && c <= 'Z') || ('0' <= c && c <= '9') || c == '_' || c
        == '-'
}

/// A request identifier safe to show: `req_`, at most 128 characters of
/// ASCII letters, digits, `_` and `-`.
pub open spec fn shareable_request_id(s: Seq<char>) -> bool {
    &&& s.len() >= 4
    &&& s.take(4) == "req_"@
    &&& s.len() <= 128
    &&& forall|i: int| 0 <= i < s.len() ==> request_id_char(#[trigger] s[i])
}

pub fn is_shareable_request_id(s: &str) -> (b: bool)
    ensures
        b == shareable_request_id(s@),
{
    let v = chars_of(s);
    let n: usize = v.len();
    if n < 4 || n > 128 {
        return false;
    }
    proof {
        reveal_strlit("req_");
    }
    if !(v[0] == 'r' && v[1] == 'e' && v[2] == 'q' && v[3] == '_') {
        proof {
            assert(s@.take(4)[0] == s@[0]);
            assert(s@.take(4)[1] == s@[1]);
            assert(s@.take(4)[2] == s@[2]);
            assert(s@.take(4)[3] == s@[3]);
        }
        return false;
    }
    proof {
        assert(s@.take(4) =~= "req_"@);
    }
    let mut i: usize = 0;
    while i < n
        invariant
            n == v@.len(),
            v@ == s@,
            0 <= i <= n,
            forall|k: int| 0 <= k < i ==> request_id_char(#[trigger] v@[k]),
        decreases n - i,
    {
        let c = v[i];
        if !(('a' <= c && c <= 'z') || ('A' <= c && c <= 'Z') || ('0' <= c && c <= '9') || c
            == '_' || c == '-') {
            return false;
        }
        i = i + 1;
    }
    true
}

/// The error code for a failed API response, by HTTP status, the API's
/// error code and parameter, and its lowercased message.
pub open spec fn failure_code(status: int, code: Seq<char>, param: Seq<char>, reason: Seq<char>) -> Seq<
    char,
> {
    if status == 401 || code == "invalid_api_key"@ {
        "invalid_api_key"@
    } else if status == 403 || code == "model_not_found"@ || code == "permission_denied"@ {
        "model_access"@
    } else if code == "insufficient_quota"@ {
        "quota_exceeded"@
    } else if status == 429 {
        "rate_limited"@
    } else if status == 413 {
        "audio_too_large"@
    } else if code == "context_length_exceeded"@ || contains(reason, "maximum content size"@) {
        "input_too_large"@
    } else if status == 400 && (param == "file"@ || contains(reason, "audio file"@) || contains(
        reason,
        "invalid audio"@,
    )) {
        "invalid_audio"@
    } else if 500 <= status <= 599 {
        "openai_server"@
    } else if status == 408 {
        "openai_timeout"@
    } else {
        "openai"@
    }
}

/// The message for a failure code; the two generic ones name the HTTP status.
pub open spec fn failure_message(failure: Seq<char>, status: int) -> Seq<char> {
    if failure == "invalid_api_key"@ {
        "OpenAI rejected the API key. Update it in Settings."@
    } else if failure == "model_access"@ {
        "This API key cannot access the requested OpenAI model. Check project permissions and model access."@
    } else if failure == "quota_exceeded"@ {
        "OpenAI API quota is exhausted. Check billing and project limits, then retry."@
    } else if failure == "rate_limited"@ {
        "OpenAI rate limit reached. Wait briefly, then retry."@
    } else if failure == "audio_too_large"@ {
        "Recorded audio exceeds the upload limit. Your audio was kept."@
    } else if failure == "input_too_large"@ {
        "OpenAI rejected input that exceeds its limit. Your notes and pending audio were kept."@
    } else if failure == "invalid_audio"@ {
        "OpenAI could not read this recording. Your audio was kept."@
    } else if failure == "openai_server"@ {
        "OpenAI is temporarily unavailable (HTTP "@ + decimal(status as nat)
            + "). Retry later; saved progress is kept."@
    } else if failure == "openai_timeout"@ {
        "OpenAI timed out. Your notes and pending audio were kept. Retry when ready."@
    } else {
        "OpenAI rejected the request (HTTP "@ + decimal(status as nat)
            + "). Your notes and pending audio were kept."@
    }
}

pub open spec fn success_status(status: int) -> bool {
    200 <= status <= 299
}

fn text_eq(v: &Vec<char>, lit: &str) -> (b: bool)
    ensures
        b == (v@ == lit@),
{
    let s = string_of(v);
    same_text(s.as_str(), lit)
}

fn has_phrase(reason: &Vec<char>, phrase: &str) -> (b: bool)
    ensures
        b == contains(reason@, phrase@),
{
    contains_chars(reason, &chars_of(phrase))
}

fn failure_text(failure: &str, status: u16) -> (m: String)
    ensures
        m@ == failure_message(failure@, status as int),
{
    let status_text = decimal_string(status as u128);
    if same_text(failure, "invalid_api_key") {
        owned("OpenAI rejected the API key. Update it in Settings.")
    } else if same_text(failure, "model_access") {
        owned(
            "This API key cannot access the requested OpenAI model. Check project permissions and model access.",
        )
    } else if same_text(failure, "quota_exceeded") {
        owned("OpenAI API quota is exhausted. Check billing and project limits, then retry.")
    } else if same_text(failure, "rate_limited") {
        owned("OpenAI rate limit reached. Wait briefly, then retry.")
    } else if same_text(failure, "audio_too_large") {
        owned("Recorded audio exceeds the upload limit. Your audio was kept.")
    } else if same_text(failure, "input_too_large") {
        owned(
            "OpenAI rejected input that exceeds its limit. Your notes and pending audio were kept.",
        )
    } else if same_text(failure, "invalid_audio") {
        owned("OpenAI could not read this recording. Your audio was kept.")
    } else if same_text(failure, "openai_server") {
        concat3(
            "OpenAI is temporarily unavailable (HTTP ",
            status_text.as_str(),
            "). Retry later; saved progress is kept.",
        )
    } else if same_text(failure, "openai_timeout") {
        owned("OpenAI timed out. Your notes and pending audio were kept. Retry when ready.")
    } else {
        concat3(
            "OpenAI rejected the request (HTTP ",
            status_text.as_str(),
            "). Your notes and pending audio were kept.",
        )
    }
}

/// Reads a failed response: success passes; otherwise a classified error whose
/// message never echoes the response body, followed by the request ID when
/// that ID is safe to show.
pub fn check_response(
    status: u16,
    api_code: &str,
    param: &str,
    message: &str,
    request_id: Option<&str>,
) -> (r: AppResult<()>)
    ensures
        r is Ok <==> success_status(status as int),
        r matches Err(e) ==> {
            let reason = ascii_lowercase(message@);
            let failure = failure_code(status as int, api_code@, param@, reason);
            let base = failure_message(failure, status as int);
            &&& e.code@ == failure
            &&& e.message@ == match request_id {
                Some(id) => if shareable_request_id(id@) {
                    base + " Request ID: "@ + id@
                } else {
                    base
                },
                None => base,
            }
        },
{
    if 200 <= status && status <= 299 {
        return Ok(());
    }
    let reason = to_ascii_lowercase(message);
    let code = chars_of(api_code);
    let param_chars = chars_of(param);
    let failure: &str = if status == 401 || text_eq(&code, "invalid_api_key") {
        "invalid_api_key"
    } else if status == 403 || text_eq(&code, "model_not_found") || text_eq(
        &code,
        "permission_denied",
    ) {
        "model_access"
    } else if text_eq(&code, "insufficient_quota") {
        "quota_exceeded"
    } else if status == 429 {
        "rate_limited"
    } else if status == 413 {
        "audio_too_large"
    } else if text_eq(&code, "context_length_exceeded") || has_phrase(
        &reason,
        "maximum content size",
    ) {
        "input_too_large"
    } else if status == 400 && (text_eq(&param_chars, "file") || has_phrase(&reason, "audio file")
        || has_phrase(&reason, "invalid audio")) {
        "invalid_audio"
    } else if 500 <= status && status <= 599 {
        "openai_server"
    } else if status == 408 {
        "openai_timeout"
    } else {
        "openai"
    };
    let base = failure_text(failure, status);
    let message = match request_id {
        Some(id) => if is_shareable_request_id(id) {
            concat3(base.as_str(), " Request ID: ", id)
        } else {
            base
        },
        None => base,
    };
    Err(AppError::with_message(failure, message))
}

/// A request that never got a response: a timeout can be retried as such;
/// anything else is a connection failure.
pub fn request_failure(timed_out: bool) -> (e: AppError)
    ensures
        e.code@ == if timed_out {
            "openai_timeout"@
        } else {
            "openai_network"@
        },
{
    if timed_out {
        AppError::new(
            "openai_timeout",
            "OpenAI timed out. Your notes and pending audio were kept. Retry when ready.",
        )
    } else {
        AppError::new(
            "openai_network",
            "Could not connect to OpenAI. Check your internet connection and retry. Your notes and pending audio were kept.",
        )
    }
}

/// A successful response whose body is not the expected JSON.
pub fn invalid_content() -> (e: AppError)
    ensures
        e.code@ == "openai"@,
{
    AppError::new("openai", "OpenAI returned invalid content. Your notes and pending audio were kept.")
}

/// One part of an item of a response's output: its type and its text, when
/// the text is a string.
#[derive(Clone, Debug)]
pub struct OutputPart {
    pub kind: String,
    pub text: Option<String>,
}

pub open spec fn is_output_text(p: OutputPart) -> bool {
    p.kind@ == "output_text"@ && p.text is Some
}

/// Part `j` of item `i` exists and carries output text.
pub open spec fn text_at(items: Seq<Vec<OutputPart>>, i: int, j: int) -> bool {
    0 <= i < items.len() && 0 <= j < items[i]@.len() && is_output_text(items[i]@[j])
}

/// `(i2, j2)` comes before `(i, j)`, items first, then parts.
pub open spec fn part_before(i2: int, j2: int, i: int, j: int) -> bool {
    i2 < i || (i2 == i && j2 < j)
}

pub fn not_completed() -> (e: AppError)
    ensures
        e.code@ == "openai"@,
        e.message@ == "OpenAI response was not completed"@,
{
    AppError::new("openai", "OpenAI response was not completed")
}

/// The text of a completed response: the first output text part, items in
/// order and the parts of each in order. `kind` names what was asked for in
/// the error when there is none.
pub fn completed_output_text(completed: bool, output: &Vec<Vec<OutputPart>>, kind: &str) -> (r: AppResult<
    String,
>)
    ensures
        !completed ==> (r matches Err(e) && e.code@ == "openai"@ && e.message@
            == "OpenAI response was not completed"@),
        completed && !(exists|i: int, j: int| #[trigger] text_at(output@, i, j)) ==> (r matches Err(
            e,
        ) && e.code@ == "openai"@ && e.message@ == "OpenAI returned no "@ + kind@ + " content"@),
        r is Ok <==> completed && exists|i: int, j: int| #[trigger] text_at(output@, i, j),
        r matches Ok(t) ==> exists|i: int, j: int|
            #[trigger] text_at(output@, i, j) && output@[i]@[j].text == Some(t) && forall|
                i2: int,
                j2: int,
            | #[trigger] text_at(output@, i2, j2) ==> !part_before(i2, j2, i, j),
{
    if !completed {
        return Err(not_completed());
    }
    let n: usize = output.len();
    let mut i: usize = 0;
    while i < n
        invariant
            completed,
            n == output@.len(),
            i <= n,
            forall|i2: int, j2: int| #[trigger] text_at(output@, i2, j2) ==> i2 >= i,
        decreases n - i,
    {
        let parts = &output[i];
        let m: usize = parts.len();
        let mut j: usize = 0;
        while j < m
            invariant
                completed,
                n == output@.len(),
                i < n,
                parts == &output@[i as int],
                m == parts@.len(),
                j <= m,
                forall|i2: int, j2: int| #[trigger] text_at(output@, i2, j2) ==> i2 >= i,
                forall|j2: int| 0 <= j2 < j ==> !text_at(output@, i as int, j2),
            decreases m - j,
        {
            let part = &parts[j];
            if same_text(part.kind.as_str(), "output_text") {
                if let Some(text) = &part.text {
                    proof {
                        assert(text_at(output@, i as int, j as int));
                        assert forall|i2: int, j2: int| #[trigger] text_at(output@, i2, j2) implies !part_before(
                            i2,
                            j2,
                            i as int,
                            j as int,
                        ) by {
                            if i2 == i as int && j2 < j as int {
                                assert(!text_at(output@, i as int, j2));
                            }
                        }
                    }
                    return Ok(text.clone());
                }
            }
            proof {
                assert(!text_at(output@, i as int, j as int));
            }
            j = j + 1;
        }
        proof {
            assert forall|i2: int, j2: int| #[trigger] text_at(output@, i2, j2) implies i2 >= i + 1 by {
                if i2 == i as int {
                    assert(!text_at(output@, i as int, j2));
                }
            }
        }
        i = i + 1;
    }
    Err(AppError::with_message("openai", concat3("OpenAI returned no ", kind, " content")))
}

} // verus!
