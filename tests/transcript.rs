use tokio::sync::broadcast::error::TryRecvError;
use voice_stream::fanout::{forward_action, keeps_forwarding, Delivery, ForwardAction};
use voice_stream::transcript::{
    encode_event, interpret, message_for, Decoding, TranscriptEvent, TranscriptKind,
};

#[test]
fn running_with_text_is_partial() {
    let e = interpret(Decoding::Running("hello".to_string())).unwrap();
    assert_eq!(e.kind, TranscriptKind::Partial);
    assert_eq!(e.text, "hello");
}

#[test]
fn finalized_with_text_is_final() {
    let e = interpret(Decoding::Finalized("good night".to_string())).unwrap();
    assert_eq!(e.kind, TranscriptKind::Final);
    assert_eq!(e.text, "good night");
}

#[test]
fn empty_text_and_failure_yield_nothing() {
    assert!(interpret(Decoding::Running(String::new())).is_none());
    assert!(interpret(Decoding::Finalized(String::new())).is_none());
    assert!(interpret(Decoding::Failed).is_none());
    assert!(message_for(Decoding::Failed).is_none());
}

#[test]
fn events_encode_as_json_objects() {
    let e = TranscriptEvent { kind: TranscriptKind::Partial, text: "hi there".to_string() };
    assert_eq!(encode_event(&e), r#"{"type":"partial","text":"hi there"}"#);
    let f = TranscriptEvent { kind: TranscriptKind::Final, text: "say \"x\"\n".to_string() };
    assert_eq!(encode_event(&f), r#"{"type":"final","text":"say \"x\"\n"}"#);
}

#[test]
fn message_for_finalized_text() {
    let m = message_for(Decoding::Finalized("done".to_string())).unwrap();
    assert_eq!(m, r#"{"type":"final","text":"done"}"#);
}

#[test]
fn forwarding_decisions() {
    match forward_action(Delivery::Delivered("m".to_string())) {
        ForwardAction::Send(t) => assert_eq!(t, "m"),
        _ => panic!("expected a send"),
    }
    assert!(matches!(forward_action(Delivery::Lagged(3)), ForwardAction::Skip));
    assert!(matches!(forward_action(Delivery::Closed), ForwardAction::Stop));
    assert!(keeps_forwarding(&ForwardAction::Send("m".to_string()), true));
    assert!(!keeps_forwarding(&ForwardAction::Send("m".to_string()), false));
    assert!(keeps_forwarding(&ForwardAction::Skip, false));
    assert!(!keeps_forwarding(&ForwardAction::Stop, true));
}

fn delivery(r: Result<String, TryRecvError>) -> Option<Delivery> {
    match r {
        Ok(m) => Some(Delivery::Delivered(m)),
        Err(TryRecvError::Lagged(n)) => Some(Delivery::Lagged(n)),
        Err(TryRecvError::Closed) => Some(Delivery::Closed),
        Err(TryRecvError::Empty) => None,
    }
}

#[test]
fn publishing_without_subscribers_is_harmless() {
    let (tx, rx) = tokio::sync::broadcast::channel::<String>(16);
    drop(rx);
    let m = message_for(Decoding::Running("x".to_string())).unwrap();
    assert!(tx.send(m).is_err());
}

#[test]
fn two_subscribers_see_the_same_order() {
    let (tx, mut a) = tokio::sync::broadcast::channel::<String>(16);
    let mut b = tx.subscribe();
    let texts = ["one", "two", "three"];
    for t in texts {
        tx.send(message_for(Decoding::Finalized(t.to_string())).unwrap()).unwrap();
    }
    for t in texts {
        let want = format!(r#"{{"type":"final","text":"{}"}}"#, t);
        assert_eq!(a.try_recv().unwrap(), want);
        assert_eq!(b.try_recv().unwrap(), want);
    }
}

#[test]
fn lagging_subscriber_skips_and_resumes() {
    let (tx, mut rx) = tokio::sync::broadcast::channel::<String>(16);
    for i in 0..20 {
        tx.send(format!("m{}", i)).unwrap();
    }
    let first = delivery(rx.try_recv()).unwrap();
    assert!(matches!(first, Delivery::Lagged(4)));
    assert!(matches!(forward_action(first), ForwardAction::Skip));
    match forward_action(delivery(rx.try_recv()).unwrap()) {
        ForwardAction::Send(t) => assert_eq!(t, "m4"),
        _ => panic!("expected a send"),
    }
}
