//! One upload to the transcription service, apart from the network: the
//! recognition hints sent with it, the form fields, the size limit, and how
//! the service's reply becomes a result or an error.
use vstd::prelude::*;

use crate::error::{AppError, AppResult};
use crate::session::Session;
use crate::settings::{diarize_model, TranscriptionSettings};
use crate::text::{chars_of, concat2, concat3, is_blank, owned, same_text, string_of, trim};
use crate::transcript::{invalid_speaker_timing, segments_valid, TranscriptionResult};
use crate::session::TranscriptSegment;

verus! {

/// Each attendee's name followed by a space.
pub open spec fn spaced_names(names: Seq<String>) -> Seq<char>
    decreases names.len(),
{
    if names.len() == 0 {
        Seq::empty()
    } else {
        spaced_names(names.drop_last()) + names.last()@.push(' ')
    }
}

/// The attendee hint: the spaced names cut to 500 characters.
pub open spec fn attendee_hint(names: Seq<String>) -> Seq<char> {
    let all = spaced_names(names);
    if all.len() <= 500 {
        all
    } else {
        all.take(500)
    }
}

/// The context hint: the meeting context cut to 1000 characters.
pub open spec fn context_hint(context: Seq<char>) -> Seq<char> {
    if context.len() <= 1000 {
        context
    } else {
        context.take(1000)
    }
}

/// The recognition prompt: empty when there is nothing to hint.
pub open spec fn prompt_spec(s: Session) -> Seq<char> {
    let attendees = attendee_hint(s.attendees@);
    let context = context_hint(s.context@);
    let vocabulary = s.transcription_settings.vocabulary@;
    if vocabulary.len() == 0 && trim(attendees).len() == 0 && trim(context).len() == 0 {
        Seq::empty()
    } else {
        "Recognition hints only; transcribe only words actually spoken. Do not add these terms unless heard.\nVocabulary: "@
            + vocabulary + "\nAttendees: "@ + attendees + "\nContext: "@ + context
    }
}

fn first_chars(v: Vec<char>, n: usize) -> (r: String)
    ensures
        r@ == if v@.len() <= n {
            v@
        } else {
            v@.take(n as int)
        },
{
    if v.len() <= n {
        return string_of(&v);
    }
    let mut out: Vec<char> = Vec::new();
    let mut i: usize = 0;
    while i < n
        invariant
            i <= n,
            n < v@.len(),
            out@ == v@.take(i as int),
        decreases n - i,
    {
        out.push(v[i]);
        proof {
            assert(v@.take(i + 1) =~= v@.take(i as int).push(v@[i as int]));
        }
        i = i + 1;
    }
    string_of(&out)
}

fn spaced(names: &Vec<String>) -> (r: Vec<char>)
    ensures
        r@ == spaced_names(names@),
{
    let mut out: Vec<char> = Vec::new();
    let n: usize = names.len();
    let mut i: usize = 0;
    proof {
        assert(names@.take(0) =~= Seq::<String>::empty());
    }
    while i < n
        invariant
            n == names@.len(),
            i <= n,
            out@ == spaced_names(names@.take(i as int)),
        decreases n - i,
    {
        let name = chars_of(names[i].as_str());
        let m: usize = name.len();
        let mut j: usize = 0;
        let ghost start = out@;
        while j < m
            invariant
                m == name@.len(),
                j <= m,
                out@ == start + name@.take(j as int),
            decreases m - j,
        {
            out.push(name[j]);
            proof {
                assert(name@.take(j + 1) =~= name@.take(j as int).push(name@[j as int]));
            }
            j = j + 1;
        }
        out.push(' ');
        proof {
            assert(names@.take(i + 1).drop_last() =~= names@.take(i as int));
            assert(name@.take(m as int) =~= name@);
            assert(out@ =~= spaced_names(names@.take(i + 1)));
        }
        i = i + 1;
    }
    proof {
        assert(names@.take(n as int) =~= names@);
    }
    out
}

/// The hints sent with an upload of a non-diarized model: vocabulary,
/// attendees and context, marked as hints so that only spoken words are written.
pub fn transcription_prompt(session: &Session) -> (p: String)
    ensures
        p@ == prompt_spec(*session),
{
    let attendees = first_chars(spaced(&session.attendees), 500);
    let context = first_chars(chars_of(session.context.as_str()), 1000);
    let vocabulary = session.transcription_settings.vocabulary.as_str();
    if vocabulary.unicode_len() == 0 && is_blank(attendees.as_str()) && is_blank(context.as_str()) {
        return String::new();
    }
    let head = concat3(
        "Recognition hints only; transcribe only words actually spoken. Do not add these terms unless heard.\nVocabulary: ",
        vocabulary,
        "\nAttendees: ",
    );
    let head = concat3(head.as_str(), attendees.as_str(), "\nContext: ");
    concat2(head.as_str(), context.as_str())
}

/// The text fields of an upload's form; the audio is attached as
/// `audio/mp4` under its file name.
#[derive(Clone, Debug)]
pub struct TranscriptionForm {
    pub model: String,
    pub response_format: String,
    pub language: Option<String>,
    pub chunking_strategy: Option<String>,
    pub prompt: Option<String>,
}

/// The form for `settings` and a prompt: the diarizing model asks for
/// speaker JSON with automatic chunking and takes no prompt; a language is
/// sent only when one is chosen, a prompt only when it is not empty.
pub fn transcription_form(settings: &TranscriptionSettings, prompt: String) -> (r: AppResult<
    TranscriptionForm,
>)
    ensures
        r is Ok <==> settings.valid(),
        r matches Err(e) ==> e.code@ == "invalid_transcription_settings"@ && e.message@
            == settings.first_problem(),
        r matches Ok(f) ==> {
            let diarize = settings.model@ == diarize_model();
            &&& f.model@ == settings.model@
            &&& f.response_format@ == if diarize {
                "diarized_json"@
            } else {
                "json"@
            }
            &&& match f.language {
                Some(l) => settings.language@.len() != 0 && l@ == settings.language@,
                None => settings.language@.len() == 0,
            }
            &&& match f.chunking_strategy {
                Some(c) => diarize && c@ == "auto"@,
                None => !diarize,
            }
            &&& match f.prompt {
                Some(p) => !diarize && prompt@.len() != 0 && p@ == prompt@,
                None => diarize || prompt@.len() == 0,
            }
        },
{
    settings.validate()?;
    let diarize = same_text(settings.model.as_str(), "gpt-4o-transcribe-diarize");
    let language = if settings.language.as_str().unicode_len() != 0 {
        Some(settings.language.clone())
    } else {
        None
    };
    let prompt = if !diarize && prompt.as_str().unicode_len() != 0 {
        Some(prompt)
    } else {
        None
    };
    Ok(
        TranscriptionForm {
            model: settings.model.clone(),
            response_format: owned(
                if diarize {
                    "diarized_json"
                } else {
                    "json"
                },
            ),
            language,
            chunking_strategy: if diarize {
                Some(owned("auto"))
            } else {
                None
            },
            prompt,
        },
    )
}

/// The largest audio file the service accepts, exclusive.
pub const UPLOAD_LIMIT: u64 = 25_000_000;

/// Audio of `len` bytes may be uploaded only below the service's limit.
pub fn check_upload_size(len: u64) -> (r: AppResult<()>)
    ensures
        r is Ok <==> len < UPLOAD_LIMIT,
        r matches Err(e) ==> e.code@ == "audio_too_large"@ && e.message@
            == "Recorded audio exceeds the upload limit. Your audio was kept."@,
{
    if len >= UPLOAD_LIMIT {
        return Err(
            AppError::new(
                "audio_too_large",
                "Recorded audio exceeds the upload limit. Your audio was kept.",
            ),
        );
    }
    Ok(())
}

/// The result of an upload with no audio in it: no words and no turns.
pub fn silent_result() -> (r: TranscriptionResult)
    ensures
        !r.omitted_speakers,
        r.text@.len() == 0,
        r.segments@.len() == 0,
{
    TranscriptionResult { omitted_speakers: false, text: String::new(), segments: Vec::new() }
}

fn incomplete_speakers() -> (e: AppError)
    ensures
        e.code@ == "invalid_transcription"@,
        e.message@ == "OpenAI returned incomplete speaker segments. Your audio was kept."@,
{
    AppError::new(
        "invalid_transcription",
        "OpenAI returned incomplete speaker segments. Your audio was kept."
    )
}

/// The speaker turns kept from a reply: those that parsed, none when they
/// did not parse but words came or no turns were sent; `None` is an error.
pub open spec fn kept_turns(
    diarize: bool,
    text: Seq<char>,
    parsed: Option<Seq<TranscriptSegment>>,
    segments_null: bool,
) -> Option<Seq<TranscriptSegment>> {
    if !diarize {
        Some(Seq::empty())
    } else {
        match parsed {
            Some(v) => Some(v),
            None => if trim(text).len() != 0 || segments_null {
                Some(Seq::empty())
            } else {
                None
            },
        }
    }
}

/// The reply to one upload turned into a result. `output_tokens` is the
/// reported usage, if any; `segments` the speaker turns if they parsed;
/// `segments_null` whether the reply held no turns at all; `duration_us`
/// the reported audio length, if it was a finite non-negative number.
/// A reply at the output limit is too long; a diarized reply needs words
/// for its turns, and turns that do not fit the audio are dropped when
/// words came (and make an error when none did).
pub fn interpret_transcription(
    diarize: bool,
    text: String,
    output_tokens: Option<u64>,
    segments: Option<Vec<TranscriptSegment>>,
    segments_null: bool,
    duration_us: Option<u64>,
) -> (r: AppResult<TranscriptionResult>)
    ensures
        ({
            let parsed = match segments {
                Some(v) => Some(v@),
                None => None,
            };
            let kept = kept_turns(diarize, text@, parsed, segments_null);
            let speech = trim(text@).len() != 0;
            let turns_fit = match duration_us {
                Some(d) => segments_valid(kept->0, d as int),
                None => false,
            };
            &&& (output_tokens matches Some(n) && n >= 1_900) ==> (r matches Err(e) && e.code@
                == "transcription_too_long"@ && e.message@
                == "OpenAI reached the transcription output limit. Your audio was kept."@)
            &&& !(output_tokens matches Some(n) && n >= 1_900) ==> {
                &&& kept is None ==> (r matches Err(e) && e.code@ == "invalid_transcription"@
                    && e.message@
                    == "OpenAI returned incomplete speaker segments. Your audio was kept."@)
                &&& kept is Some && diarize && !speech && kept->0.len() != 0 ==> (r matches Err(
                    e,
                ) && e.code@ == "invalid_transcription"@ && e.message@
                    == "OpenAI returned incomplete speaker segments. Your audio was kept."@)
                &&& kept is Some && diarize && !speech && kept->0.len() == 0 && !turns_fit ==> (
                r matches Err(e) && e.code@ == "invalid_transcription"@ && e.message@
                    == "Speaker timestamps are invalid. Your audio and saved progress were kept."@)
                &&& kept is Some && (!diarize || (speech || kept->0.len() == 0) && (speech
                    || turns_fit)) ==> (r matches Ok(res) && res.text == text && if diarize
                    && !turns_fit {
                    res.segments@.len() == 0 && res.omitted_speakers
                } else {
                    res.segments@ == kept->0 && res.omitted_speakers == (diarize && speech
                        && kept->0.len() == 0)
                })
            }
        }),
{
    if let Some(n) = output_tokens {
        if n >= 1_900 {
            return Err(
                AppError::new(
                    "transcription_too_long",
                    "OpenAI reached the transcription output limit. Your audio was kept.",
                ),
            );
        }
    }
    let speech = !is_blank(text.as_str());
    let turns: Vec<TranscriptSegment> = if diarize {
        match segments {
            Some(v) => v,
            None => {
                if speech || segments_null {
                    Vec::new()
                } else {
                    return Err(incomplete_speakers());
                }
            },
        }
    } else {
        Vec::new()
    };
    let omitted = diarize && speech && turns.len() == 0;
    let mut result = TranscriptionResult { omitted_speakers: omitted, text, segments: turns };
    if diarize {
        if !speech && result.segments.len() != 0 {
            return Err(incomplete_speakers());
        }
        match duration_us {
            Some(d) => {
                result.retain_valid_speakers(d)?;
            },
            None => {
                if !speech {
                    return Err(invalid_speaker_timing());
                }
                result.segments = Vec::new();
                result.omitted_speakers = true;
            },
        }
    }
    Ok(result)
}

} // verus!
