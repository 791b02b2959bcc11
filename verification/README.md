# meeting_notes

The rules of a meeting notepad that records microphone and system audio,
transcribes it section by section with the OpenAI API, and turns the
transcript and typed notes into an editable notes document with grounded
suggestions.

`src/` is a Verus library: every function carries a contract and is proved
against it. It holds the session lifecycle, the checkpointed transcription
progress and its validity, chunk planning and splitting, capture section
bookkeeping, the combined transcript and speaker turns, suggestion and
citation checks, question passages, error classification of service
replies, the retry schedule, WAV and M4A container checks, store paths and
the API key rules. Laws that relate several functions are public proof
functions whose names begin with `lemma_`.

`app/` is a command-line program around the library: meeting files on disk,
HTTP requests, and the processing loop that performs what the library
decides.

`tests/` exercises the library on concrete meetings.
