//! A recognizer front end that hands recognized text to an async channel.
use vstd::prelude::*;
use tokio::sync::mpsc::Sender;

verus! {

/// tokio's bounded channel sender, carried through unopened.
#[verifier::external_type_specification]
#[verifier::external_body]
#[verifier::reject_recursive_types(T)]
pub struct ExSender<T>(Sender<T>);

pub struct SpeechRecognizer {
    /// Where recognized text is sent.
    pub sender: Sender<String>,
}

impl SpeechRecognizer {
    /// A recognizer that sends its text to `sender`.
    pub fn new(sender: Sender<String>) -> (r: SpeechRecognizer)
        ensures
            r.sender == sender,
    {
        SpeechRecognizer { sender }
    }
}

} // verus!
