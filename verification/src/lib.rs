//! A verified core for a meeting notepad: transcription settings, API key
//! input, session lifecycle, capture bookkeeping, audio container checks,
//! and the rules that decide what is sent to and accepted from the AI service.
use vstd::prelude::*;

pub mod error;
pub mod insights;
pub mod lifecycle;
pub mod m4a;
pub mod notes;
pub mod order;
pub mod processing;
pub mod progress;
pub mod questions;
pub mod openai;
pub mod recorder;
pub mod secrets;
pub mod sections;
pub mod session;
pub mod settings;
pub mod sources;
pub mod store;
pub mod suggestions;
pub mod text;
pub mod transcript;
pub mod transcription;
pub mod wav;
pub mod worker;

verus! {

/// The application's name as people see it.
pub const APP_NAME: &'static str = "Meeting Notes";

/// The application's bundle identifier.
pub const BUNDLE_ID: &'static str = "com.dweng.meetingnotes";

} // verus!
