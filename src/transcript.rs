//! Transcript events: what a recognition step yields, and the JSON text that
//! is pushed to every connected client.
use vstd::prelude::*;

verus! {

#[derive(Clone, Copy, Debug, PartialEq, Eq, Structural)]
pub enum TranscriptKind {
    Partial,
    Final,
}

/// A transcript produced by the recognition engine: an in-progress
/// hypothesis or a closed utterance.
pub struct TranscriptEvent {
    pub kind: TranscriptKind,
    pub text: String,
}

impl View for TranscriptEvent {
    type V = (TranscriptKind, Seq<char>);

    open spec fn view(&self) -> (TranscriptKind, Seq<char>) {
        (self.kind, self.text@)
    }
}

/// What the engine reported after it took a chunk, with the text that goes
/// with that state: the partial hypothesis while running, the finalized text
/// once an utterance closes.
pub enum Decoding {
    Running(String),
    Finalized(String),
    Failed,
}

/// The event a decoding state yields: none on failure or on empty text.
pub open spec fn event_spec(d: Decoding) -> Option<(TranscriptKind, Seq<char>)> {
    match d {
        Decoding::Running(t) => if t@.len() > 0 {
            Some((TranscriptKind::Partial, t@))
        } else {
            None
        },
        Decoding::Finalized(t) => if t@.len() > 0 {
            Some((TranscriptKind::Final, t@))
        } else {
            None
        },
        Decoding::Failed => None,
    }
}

/// Turns the engine's decoding state into the transcript event to publish,
/// if any.
pub fn interpret(d: Decoding) -> (r: Option<TranscriptEvent>)
    ensures
        match r {
            Some(e) => event_spec(d) == Some(e@),
            None => event_spec(d) is None,
        },
{
    match d {
        Decoding::Running(t) => {
            if t.as_str().is_empty() {
                None
            } else {
                Some(TranscriptEvent { kind: TranscriptKind::Partial, text: t })
            }
        },
        Decoding::Finalized(t) => {
            if t.as_str().is_empty() {
                None
            } else {
                Some(TranscriptEvent { kind: TranscriptKind::Final, text: t })
            }
        },
        Decoding::Failed => None,
    }
}

/// The JSON string literal that serde_json writes for a string.
pub uninterp spec fn json_string_of(s: Seq<char>) -> Seq<char>;

/// Relies on serde_json::to_string on a `str`: the JSON string literal of `s`.
/// Serializing a `str` writes into a `Vec<u8>`, which cannot fail.
#[verifier::external_body]
fn json_string(s: &str) -> (r: Option<String>)
    ensures
        r is Some,
        r.unwrap()@ == json_string_of(s@),
{
    serde_json::to_string(s).ok()
}

pub open spec fn kind_name(k: TranscriptKind) -> Seq<char> {
    match k {
        TranscriptKind::Partial => "partial"@,
        TranscriptKind::Final => "final"@,
    }
}

/// The wire form of an event: `{"type":<kind>,"text":<text>}`.
pub open spec fn wire_spec(e: (TranscriptKind, Seq<char>)) -> Seq<char> {
    "{\"type\":\""@ + kind_name(e.0) + "\",\"text\":"@ + json_string_of(e.1) + "}"@
}

/// The JSON object sent to clients for an event.
pub fn encode_event(e: &TranscriptEvent) -> (r: String)
    ensures
        r@ == wire_spec(e@),
{
    let mut out = String::from_str("{\"type\":\"");
    match e.kind {
        TranscriptKind::Partial => out.append("partial"),
        TranscriptKind::Final => out.append("final"),
    }
    out.append("\",\"text\":");
    let q = match json_string(e.text.as_str()) {
        Some(q) => q,
        None => String::new(),
    };
    out.append(q.as_str());
    out.append("}");
    out
}

/// The message to publish after the engine reported `d`, if any.
pub fn message_for(d: Decoding) -> (r: Option<String>)
    ensures
        match r {
            Some(m) => event_spec(d) matches Some(e) && m@ == wire_spec(e),
            None => event_spec(d) is None,
        },
{
    match interpret(d) {
        Some(e) => Some(encode_event(&e)),
        None => None,
    }
}

} // verus!
