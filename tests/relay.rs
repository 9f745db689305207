use ollama_rs::generation::chat::{ChatMessage, ChatMessageResponse, MessageRole};
use ws_relay::conversation::RoleTag;
use ws_relay::relay::{FinalData, Fragment, Relay, RelayAction, RelayError, RelayEvent, RelayPhase};

fn fragment(content: &str, done: bool) -> Fragment {
    Fragment {
        model: "llama3:latest".to_string(),
        created_at: "2024-05-01T10:00:00Z".to_string(),
        role: RoleTag::Assistant,
        content: content.to_string(),
        done,
        final_data: None,
    }
}

fn native_json(f: &Fragment) -> String {
    serde_json::to_string(&ChatMessageResponse {
        model: f.model.clone(),
        created_at: f.created_at.clone(),
        message: ChatMessage::new(MessageRole::Assistant, f.content.clone()),
        done: f.done,
        final_data: None,
    })
    .unwrap()
}

fn streaming() -> Relay {
    let mut r = Relay::new();
    assert_eq!(r.step(RelayEvent::Submitted(true)), RelayAction::Pull);
    r
}

#[test]
fn new_relay_is_submitting() {
    assert_eq!(Relay::new().phase(), RelayPhase::Submitting);
}

#[test]
fn fragments_are_written_in_backend_order() {
    let mut r = streaming();
    let frags = vec![fragment("Hel", false), fragment("lo", false), fragment("", true)];
    let mut sent: Vec<String> = Vec::new();
    for f in frags.iter() {
        match r.step(RelayEvent::Fragment(Some(Ok(f.clone())))) {
            RelayAction::Write(text) => sent.push(text),
            other => panic!("unexpected {:?}", other),
        }
        assert_eq!(r.phase(), RelayPhase::Writing);
        assert_eq!(r.step(RelayEvent::Written(true)), RelayAction::Pull);
    }
    assert_eq!(r.step(RelayEvent::Fragment(None)), RelayAction::Stop(Ok(())));
    assert_eq!(r.phase(), RelayPhase::Finished);
    let expected: Vec<String> = frags.iter().map(native_json).collect();
    assert_eq!(sent, expected);
    assert!(sent[0].contains(r#""content":"Hel""#));
    assert!(sent[1].contains(r#""content":"lo""#));
    assert!(sent[2].contains(r#""content":"""#));
    assert!(sent[2].contains(r#""done":true"#));
    let back: serde_json::Value = serde_json::from_str(&sent[0]).unwrap();
    assert_eq!(back["message"]["content"], "Hel");
    assert_eq!(back["done"], false);
}

#[test]
fn no_pull_while_a_write_is_pending() {
    let mut r = streaming();
    assert!(matches!(
        r.step(RelayEvent::Fragment(Some(Ok(fragment("a", false))))),
        RelayAction::Write(_)
    ));
    assert_eq!(
        r.step(RelayEvent::Fragment(Some(Ok(fragment("b", false))))),
        RelayAction::Nothing
    );
    assert_eq!(r.phase(), RelayPhase::Writing);
}

#[test]
fn submit_failure_writes_nothing() {
    let mut r = Relay::new();
    assert_eq!(
        r.step(RelayEvent::Submitted(false)),
        RelayAction::Stop(Err(RelayError::Submit))
    );
    assert_eq!(r.phase(), RelayPhase::Failed(RelayError::Submit));
    assert_eq!(r.step(RelayEvent::Fragment(None)), RelayAction::Nothing);
}

#[test]
fn backend_error_mid_stream_stops_the_relay() {
    let mut r = streaming();
    assert!(matches!(
        r.step(RelayEvent::Fragment(Some(Ok(fragment("x", false))))),
        RelayAction::Write(_)
    ));
    assert_eq!(r.step(RelayEvent::Written(true)), RelayAction::Pull);
    assert_eq!(
        r.step(RelayEvent::Fragment(Some(Err(())))),
        RelayAction::Stop(Err(RelayError::Backend))
    );
    assert_eq!(r.phase(), RelayPhase::Failed(RelayError::Backend));
}

#[test]
fn write_failure_aborts_without_further_reads() {
    let mut r = streaming();
    assert!(matches!(
        r.step(RelayEvent::Fragment(Some(Ok(fragment("Hel", false))))),
        RelayAction::Write(_)
    ));
    assert_eq!(
        r.step(RelayEvent::Written(false)),
        RelayAction::Stop(Err(RelayError::Write))
    );
    assert_eq!(r.phase(), RelayPhase::Failed(RelayError::Write));
    assert_eq!(r.step(RelayEvent::Written(true)), RelayAction::Nothing);
    assert_eq!(
        r.step(RelayEvent::Fragment(Some(Ok(fragment("lo", false))))),
        RelayAction::Nothing
    );
    assert_eq!(r.phase(), RelayPhase::Failed(RelayError::Write));
}

#[test]
fn cancel_stops_a_running_relay() {
    let mut r = streaming();
    assert_eq!(r.step(RelayEvent::Cancel), RelayAction::Stop(Err(RelayError::Cancelled)));
    assert_eq!(r.phase(), RelayPhase::Failed(RelayError::Cancelled));
    assert_eq!(r.step(RelayEvent::Fragment(None)), RelayAction::Nothing);
}

#[test]
fn events_out_of_phase_are_ignored() {
    let mut r = Relay::new();
    assert_eq!(r.step(RelayEvent::Written(true)), RelayAction::Nothing);
    assert_eq!(r.step(RelayEvent::Fragment(None)), RelayAction::Nothing);
    assert_eq!(r.phase(), RelayPhase::Submitting);
    assert_eq!(r.step(RelayEvent::Submitted(true)), RelayAction::Pull);
    assert_eq!(r.step(RelayEvent::Submitted(true)), RelayAction::Nothing);
    assert_eq!(r.phase(), RelayPhase::Streaming);
}

#[test]
fn finished_relay_ignores_cancel() {
    let mut r = streaming();
    assert_eq!(r.step(RelayEvent::Fragment(None)), RelayAction::Stop(Ok(())));
    assert_eq!(r.step(RelayEvent::Cancel), RelayAction::Nothing);
    assert_eq!(r.phase(), RelayPhase::Finished);
}

#[test]
fn final_fragment_carries_its_statistics() {
    let mut last = fragment("", true);
    last.final_data = Some(FinalData {
        total_duration: 1000,
        prompt_eval_count: 12,
        prompt_eval_duration: 200,
        eval_count: 34,
        eval_duration: 700,
    });
    let mut r = streaming();
    let text = match r.step(RelayEvent::Fragment(Some(Ok(last)))) {
        RelayAction::Write(text) => text,
        other => panic!("unexpected {:?}", other),
    };
    let v: serde_json::Value = serde_json::from_str(&text).unwrap();
    assert_eq!(v["done"], true);
    assert_eq!(v["total_duration"], 1000);
    assert_eq!(v["prompt_eval_count"], 12);
    assert_eq!(v["prompt_eval_duration"], 200);
    assert_eq!(v["eval_count"], 34);
    assert_eq!(v["eval_duration"], 700);
    assert_eq!(v["model"], "llama3:latest");
    assert_eq!(v["message"]["role"], "assistant");
}
