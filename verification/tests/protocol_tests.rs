use rust_worker::driver::reference_handler;
use rust_worker::errors::PayloadShapeError;
use rust_worker::messages::{
    add_observer_message, encode_value_str, is_alive_message, next_task_for_worker_message,
    register_worker_message, task_result_message, EvalMessage, Message,
};
use rust_worker::worker::{Worker, WorkerAttributes, WorkerConnectionStrategy};

fn new_worker() -> Worker {
    Worker::new("/tmp/work".to_string(), "linux".to_string(), 4242)
}

fn eval_with_payload(id: &str, json: &str) -> Message {
    Message::Eval(EvalMessage {
        id: id.to_string(),
        value: encode_value_str(json).unwrap(),
    })
}

#[test]
fn fresh_ids_are_hyphenated_and_distinct() {
    let a = rust_worker::messages::fresh_id();
    let b = rust_worker::messages::fresh_id();
    assert_eq!(a.len(), 36);
    assert_eq!(b.len(), 36);
    assert_ne!(a, b);
    assert!(a.chars().all(|c| c.is_ascii_hexdigit() || c == '-'));
}

#[test]
fn message_id_uses_the_right_field_per_variant() {
    let m = eval_with_payload("eval-id", "{}");
    assert_eq!(m.id(), Some("eval-id"));
    let alive = is_alive_message().unwrap();
    match &alive {
        Message::IsAlive(v) => assert_eq!(alive.id(), Some(v.sync.as_str())),
        _ => panic!("expected IsAlive"),
    }
    assert_eq!(Message::Heartbeat.id(), None);
    assert_eq!(Message::Registered.id(), None);
}

#[test]
fn worker_attributes_carry_the_given_values() {
    let attrs = WorkerAttributes::new(
        "id-1".to_string(),
        "/srv".to_string(),
        "linux".to_string(),
        7,
    );
    assert_eq!(attrs.id, "id-1");
    assert_eq!(attrs.working_directory, "/srv");
    assert_eq!(attrs.platform, "linux");
    assert_eq!(attrs.pid, 7);
    assert!(matches!(
        attrs.worker_connection_strategy,
        WorkerConnectionStrategy::Single
    ));
}

#[test]
fn attributes_encode_as_a_msgpack_record() {
    let worker = new_worker();
    let blob = rust_worker::worker::encode_value_attributes(&worker.attributes()).unwrap();
    let value = rmpv::decode::read_value(&mut blob.as_slice()).expect("valid msgpack");
    match value {
        rmpv::Value::Map(entries) => {
            assert_eq!(entries.len(), 5);
            assert_eq!(entries[0].0.as_str(), Some("id"));
            assert_eq!(entries[0].1.as_str(), Some(worker.id()));
            assert_eq!(entries[1].0.as_str(), Some("workingDirectory"));
            assert_eq!(entries[1].1.as_str(), Some("/tmp/work"));
            assert_eq!(entries[2].0.as_str(), Some("workerConnectionStrategy"));
            assert_eq!(entries[2].1.as_str(), Some("singleConnectionStrategy"));
            assert_eq!(entries[3].0.as_str(), Some("platform"));
            assert_eq!(entries[3].1.as_str(), Some("linux"));
            assert_eq!(entries[4].0.as_str(), Some("pid"));
            assert_eq!(entries[4].1.as_u64(), Some(4242));
        }
        other => panic!("expected a map, got {:?}", other),
    }
}

#[test]
fn registration_classifies_exactly_once() {
    let mut worker = new_worker();
    assert!(!worker.is_registered());

    let message = worker.request_registration().unwrap().expect("a message");
    let pending_id = message.id().unwrap().to_string();

    // An Eval with a different envelope id passes through untouched first.
    let other = eval_with_payload("not-the-pending-id", "{}");
    match worker.classify_message(other) {
        Message::Eval(ev) => assert_eq!(ev.id, "not-the-pending-id"),
        other => panic!("expected the Eval back, got {:?}", other),
    }
    assert!(!worker.is_registered());

    // The matching Eval completes the handshake.
    let reply = eval_with_payload(&pending_id, "{}");
    match worker.classify_message(reply) {
        Message::Registered => {}
        other => panic!("expected Registered, got {:?}", other),
    }
    assert!(worker.is_registered());

    // A later Eval with the same id does not re-trigger.
    let again = eval_with_payload(&pending_id, "{}");
    match worker.classify_message(again) {
        Message::Eval(ev) => assert_eq!(ev.id, pending_id),
        other => panic!("expected the Eval back, got {:?}", other),
    }
    assert!(worker.is_registered());

    // Requesting registration again is a no-op.
    assert!(worker.request_registration().unwrap().is_none());
}

fn binding<'a>(m: &'a Message, key: &str) -> Option<&'a Vec<u8>> {
    match m {
        Message::Enqueue(e) => e
            .bindings
            .iter()
            .find(|(k, _)| k == key)
            .map(|(_, v)| v),
        _ => None,
    }
}

#[test]
fn task_flow_replies_with_result_then_pull() {
    let mut worker = new_worker();
    worker.set_work_duration(Some(5));
    let eval = eval_with_payload("env-1", "{\"taskContextId\": \"abc-123\"}");
    let action = reference_handler(&worker, &eval, "{}").unwrap();

    assert_eq!(action.sleep_ms, Some(5));
    assert_eq!(action.replies.len(), 2);

    let tid = binding(&action.replies[0], "taskContextId").expect("taskContextId bound");
    assert_eq!(tid, &encode_value_str("abc-123").unwrap());
    assert!(binding(&action.replies[0], "executionData").is_some());
    assert!(binding(&action.replies[0], "result").is_some());

    match &action.replies[1] {
        Message::Enqueue(e) => assert!(e.statements.contains("nextTaskSerializedForWorkerId")),
        other => panic!("expected a task pull, got {:?}", other),
    }
}

#[test]
fn malformed_payload_is_silently_ignored() {
    let worker = new_worker();
    for json in ["[1, 2, 3]", "17", "{\"other\": \"x\"}", "{\"taskContextId\": 9}", "not json"] {
        let eval = eval_with_payload("env-2", json);
        let action = reference_handler(&worker, &eval, "{}").unwrap();
        assert!(action.replies.is_empty());
        assert!(action.sleep_ms.is_none());
    }
    // A payload that is not even a text element is ignored the same way.
    let eval = Message::Eval(EvalMessage {
        id: "env-3".to_string(),
        value: vec![0xc4, 0x01, 0x00],
    });
    let action = reference_handler(&worker, &eval, "{}").unwrap();
    assert!(action.replies.is_empty());
}

#[test]
fn task_context_id_extraction() {
    let ok = EvalMessage {
        id: "e".to_string(),
        value: encode_value_str("{\"taskContextId\": \"abc-123\"}").unwrap(),
    };
    assert_eq!(ok.task_context_id().unwrap(), "abc-123");
    assert_eq!(ok.json_value().unwrap(), "{\"taskContextId\": \"abc-123\"}");

    let missing = EvalMessage {
        id: "e".to_string(),
        value: encode_value_str("{\"a\": 1}").unwrap(),
    };
    assert!(matches!(
        missing.task_context_id(),
        Err(PayloadShapeError::NoTaskContextId)
    ));

    let not_text = EvalMessage {
        id: "e".to_string(),
        value: vec![0x93, 0x01, 0x02, 0x03],
    };
    assert!(matches!(
        not_text.task_context_id(),
        Err(PayloadShapeError::ValueNotText)
    ));
}

#[test]
fn heartbeat_is_answered_with_a_fresh_is_alive() {
    let worker = new_worker();
    let action = reference_handler(&worker, &Message::Heartbeat, "{}").unwrap();
    assert!(action.sleep_ms.is_none());
    assert_eq!(action.replies.len(), 1);
    match &action.replies[0] {
        Message::IsAlive(v) => assert_eq!(v.sync.len(), 36),
        other => panic!("expected IsAlive, got {:?}", other),
    }
}

#[test]
fn registered_is_answered_with_observer_then_pull() {
    let worker = new_worker();
    let action = reference_handler(&worker, &Message::Registered, "{}").unwrap();
    assert!(action.sleep_ms.is_none());
    assert_eq!(action.replies.len(), 2);
    let wid = binding(&action.replies[0], "workerId").expect("workerId bound");
    assert_eq!(wid, &encode_value_str(worker.id()).unwrap());
    assert!(binding(&action.replies[0], "observerId").is_some());
    match &action.replies[1] {
        Message::Enqueue(e) => assert!(e.statements.contains("nextTaskSerializedForWorkerId")),
        other => panic!("expected a task pull, got {:?}", other),
    }
}

#[test]
fn inbound_noise_draws_no_reply() {
    let worker = new_worker();
    for m in [
        is_alive_message().unwrap(),
        next_task_for_worker_message(&worker).unwrap(),
    ] {
        let action = reference_handler(&worker, &m, "{}").unwrap();
        assert!(action.replies.is_empty());
    }
}

#[test]
fn factory_messages_carry_their_own_envelope_id() {
    let worker = new_worker();
    for m in [
        register_worker_message(&worker).unwrap(),
        add_observer_message(&worker).unwrap(),
        next_task_for_worker_message(&worker).unwrap(),
        task_result_message("abc", "{}").unwrap(),
    ] {
        match &m {
            Message::Enqueue(e) => {
                assert_eq!(e.command_id.len(), 36);
                assert_eq!(m.id(), Some(e.command_id.as_str()));
                let bound = binding(&m, "pharoCommandId").expect("pharoCommandId bound");
                assert_eq!(bound, &encode_value_str(&e.command_id).unwrap());
            }
            other => panic!("expected Enqueue, got {:?}", other),
        }
    }
}

#[test]
fn registration_message_carries_the_attributes_binding() {
    let worker = new_worker();
    let m = register_worker_message(&worker).unwrap();
    let attrs_blob = binding(&m, "attributes").expect("attributes bound");
    assert_eq!(
        attrs_blob,
        &rust_worker::worker::encode_value_attributes(&worker.attributes()).unwrap()
    );
    match &m {
        Message::Enqueue(e) => {
            assert!(e.statements.contains("registerWorkerWithDetails"));
            assert!(e.statements.starts_with("llCommand notify: ("));
        }
        other => panic!("expected Enqueue, got {:?}", other),
    }
}

#[test]
fn add_binding_replaces_an_existing_key() {
    let worker = new_worker();
    let m = next_task_for_worker_message(&worker).unwrap();
    match m {
        Message::Enqueue(mut e) => {
            let before = e.bindings.len();
            e.add_binding("workerId", "other").unwrap();
            assert_eq!(e.bindings.len(), before);
            let found = e
                .bindings
                .iter()
                .find(|(k, _)| k == "workerId")
                .map(|(_, v)| v.clone())
                .unwrap();
            assert_eq!(found, encode_value_str("other").unwrap());
        }
        other => panic!("expected Enqueue, got {:?}", other),
    }
}
