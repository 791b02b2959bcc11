//! Recognition preferences for a recording: language, vocabulary hints and model.
use vstd::prelude::*;

use crate::error::{AppError, AppResult};
use crate::text::{chars_of, owned, same_text};

verus! {

#[derive(Clone, Debug)]
pub struct TranscriptionSettings {
    pub language: String,
    pub vocabulary: String,
    pub model: String,
}

/// Empty (automatic detection) or two lowercase ASCII letters.
pub open spec fn valid_language(s: Seq<char>) -> bool {
    s.len() == 0 || (s.len() == 2 && 'a' <= s[0] && s[0] <= 'z' && 'a' <= s[1] && s[1] <= 'z')
}

pub open spec fn valid_vocabulary(s: Seq<char>) -> bool {
    s.len() <= 2000
}

pub open spec fn supported_model(s: Seq<char>) -> bool {
    s == "gpt-4o-mini-transcribe"@ || s == "gpt-4o-transcribe"@ || s
        == "gpt-4o-transcribe-diarize"@
}

pub open spec fn diarize_model() -> Seq<char> {
    "gpt-4o-transcribe-diarize"@
}

impl TranscriptionSettings {
    pub open spec fn valid(&self) -> bool {
        valid_language(self.language@) && valid_vocabulary(self.vocabulary@) && supported_model(
            self.model@,
        )
    }

    /// The message of the first rule that the settings break.
    pub open spec fn first_problem(&self) -> Seq<char> {
        if !valid_language(self.language@) {
            "Language must be empty for automatic detection or a two-letter lowercase language code."@
        } else if !valid_vocabulary(self.vocabulary@) {
            "Vocabulary must contain at most 2000 characters."@
        } else {
            "Choose a supported transcription model."@
        }
    }

    /// The preferences of an installation that never saved any: plain, lowest-cost
    /// transcription with automatic language detection.
    pub fn legacy_default() -> (s: TranscriptionSettings)
        ensures
            s.language@.len() == 0,
            s.vocabulary@.len() == 0,
            s.model@ == "gpt-4o-mini-transcribe"@,
    {
        TranscriptionSettings {
            language: String::new(),
            vocabulary: String::new(),
            model: owned("gpt-4o-mini-transcribe"),
        }
    }

    /// Settings for a new recording when nothing was saved: speaker detection.
    pub fn new_recording_default() -> (s: TranscriptionSettings)
        ensures
            s.language@.len() == 0,
            s.vocabulary@.len() == 0,
            s.model@ == diarize_model(),
    {
        TranscriptionSettings {
            language: String::new(),
            vocabulary: String::new(),
            model: owned("gpt-4o-transcribe-diarize"),
        }
    }

    pub fn duplicate(&self) -> (s: TranscriptionSettings)
        ensures
            s.language@ == self.language@,
            s.vocabulary@ == self.vocabulary@,
            s.model@ == self.model@,
    {
        TranscriptionSettings {
            language: self.language.clone(),
            vocabulary: self.vocabulary.clone(),
            model: self.model.clone(),
        }
    }

    pub fn validate(&self) -> (r: AppResult<()>)
        ensures
            r is Ok <==> self.valid(),
            r matches Err(e) ==> e.code@ == "invalid_transcription_settings"@ && e.message@
                == self.first_problem(),
    {
        let language = chars_of(self.language.as_str());
        let ok_language = language.len() == 0 || (language.len() == 2 && 'a' <= language[0]
            && language[0] <= 'z' && 'a' <= language[1] && language[1] <= 'z');
        if !ok_language {
            return Err(
                AppError::new(
                    "invalid_transcription_settings",
                    "Language must be empty for automatic detection or a two-letter lowercase language code.",
                ),
            );
        }
        if self.vocabulary.as_str().unicode_len() > 2000 {
            return Err(
                AppError::new(
                    "invalid_transcription_settings",
                    "Vocabulary must contain at most 2000 characters.",
                ),
            );
        }
        let model = self.model.as_str();
        if !(same_text(model, "gpt-4o-mini-transcribe") || same_text(model, "gpt-4o-transcribe")
            || same_text(model, "gpt-4o-transcribe-diarize")) {
            return Err(
                AppError::new(
                    "invalid_transcription_settings",
                    "Choose a supported transcription model.",
                ),
            );
        }
        Ok(())
    }

    /// Whether these settings ask for timed speaker turns.
    pub fn diarizes(&self) -> (b: bool)
        ensures
            b == (self.model@ == diarize_model()),
    {
        same_text(self.model.as_str(), "gpt-4o-transcribe-diarize")
    }
}

impl Default for TranscriptionSettings {
    /// The settings of an installation that never saved any (see `legacy_default`).
    fn default() -> (s: TranscriptionSettings)
        ensures
            s.language@.len() == 0,
            s.vocabulary@.len() == 0,
            s.model@ == "gpt-4o-mini-transcribe"@,
    {
        TranscriptionSettings::legacy_default()
    }
}

} // verus!
