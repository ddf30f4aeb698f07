use aubapr::batcher::{
    distribute_error, distribute_results, is_success_status, make_batch_items,
    status_or_bad_gateway, Batcher, Delivery, SubmitOutcome, UpstreamReply,
};
use aubapr::config::Config;
use aubapr::tray::TrayAction;
use aubapr::types::{BatchError, BatchItem};

/// Creates 16-dimensional vectors from input strings using ASCII codes.
fn generate_test_embedding(input: &str) -> Vec<f64> {
    let mut embedding = vec![0.0; 16];
    let chars: Vec<char> = input.chars().take(16).collect();
    for (i, &ch) in chars.iter().enumerate() {
        embedding[i] = ch as u8 as f64;
    }
    embedding
}

/// The upstream service: one embedding per text.
fn upstream(texts: &[String]) -> UpstreamReply<Vec<f64>> {
    UpstreamReply::Embeddings(texts.iter().map(|t| generate_test_embedding(t)).collect())
}

fn strings(v: &[&str]) -> Vec<String> {
    v.iter().map(|s| s.to_string()).collect()
}

fn config(batch_size: usize, timeout_ms: u64) -> Config {
    Config {
        soft_max_batch_size: batch_size,
        soft_max_wait_time_ms: timeout_ms,
        ..Config::default()
    }
}

/// Submit a request and return the dispatched batch, if the tray made one.
fn submit(b: &mut Batcher<u32>, inputs: &[&str], id: u32) -> Option<Vec<BatchItem<u32>>> {
    match b.submit_request(strings(inputs), id) {
        SubmitOutcome::Queued(TrayAction::Dispatch(batch)) => Some(batch),
        SubmitOutcome::Queued(_) => None,
        SubmitOutcome::Immediate(_) => panic!("not queued"),
    }
}

/// Run a batch through the upstream stub and return the answers.
fn process(batch: Vec<BatchItem<u32>>) -> (Vec<String>, Vec<Delivery<u32, Vec<f64>>>) {
    let texts = Batcher::request_texts(&batch);
    let reply = upstream(&texts);
    (texts, Batcher::complete_batch(batch, reply))
}

fn ok_of(d: &Delivery<u32, Vec<f64>>) -> Vec<Vec<f64>> {
    match &d.result {
        Ok(v) => v.clone(),
        Err(e) => panic!("unexpected error {}", e.to_message()),
    }
}

fn status_of<E>(d: &Delivery<u32, E>) -> u16 {
    match &d.result {
        Ok(_) => panic!("expected an error"),
        Err(e) => e.to_status_code(),
    }
}

#[test]
fn test_generate_test_embedding() {
    // Test with short string
    let embedding = generate_test_embedding("hi");
    assert_eq!(embedding.len(), 16);
    assert_eq!(embedding[0], 'h' as u8 as f64); // 104.0
    assert_eq!(embedding[1], 'i' as u8 as f64); // 105.0
    assert_eq!(embedding[2], 0.0); // padding

    // Test with exactly 16 characters
    let embedding = generate_test_embedding("1234567890123456");
    assert_eq!(embedding.len(), 16);
    assert_eq!(embedding[0], '1' as u8 as f64); // 49.0
    assert_eq!(embedding[15], '6' as u8 as f64); // 54.0

    // Test with more than 16 characters (should be truncated)
    let test_str = "this is a very long string that exceeds 16 chars";
    let first_16: String = test_str.chars().take(16).collect();
    let embedding = generate_test_embedding(test_str);
    assert_eq!(embedding.len(), 16);
    assert_eq!(embedding[0], 't' as u8 as f64); // 116.0
    assert_eq!(
        embedding[15],
        first_16.chars().nth(15).unwrap() as u8 as f64
    ); // 16th char
}

#[test]
fn test_batcher_creation() {
    let b: Batcher<u32> = Batcher::new(Config::default());
    assert_eq!(b.batch_seqno(), 0);
    assert_eq!(b.config().soft_max_batch_size, 32);
    assert_eq!(b.embed_url(), "http://aubapr-inference:8080/embed");
}

#[test]
fn test_submit_empty_request() {
    let mut b: Batcher<u32> = Batcher::new(Config::default());
    match b.submit_request(vec![], 5) {
        SubmitOutcome::Immediate(sender) => assert_eq!(sender, 5),
        _ => panic!("an empty request is answered at once"),
    }
}

#[test]
fn test_successful_batch_processing() {
    let mut b = Batcher::new(config(10, 100));
    match b.submit_request(strings(&["text1", "text2"]), 1) {
        SubmitOutcome::Queued(TrayAction::SetTimer(seqno)) => assert_eq!(seqno, 0),
        _ => panic!("expected a timer request"),
    }
    let batch = b.handle_timer_timeout_event(0).expect("timer for the current batch");
    let reply = UpstreamReply::Embeddings(vec![vec![0.1, 0.2], vec![0.3, 0.4]]);
    let out = Batcher::complete_batch(batch, reply);
    assert_eq!(out.len(), 1);
    assert_eq!(out[0].sender, 1);
    let embeddings = ok_of(&out[0]);
    assert_eq!(embeddings.len(), 2);
    assert_eq!(embeddings[0], vec![0.1, 0.2]);
    assert_eq!(embeddings[1], vec![0.3, 0.4]);
}

#[test]
fn batcher_test_upstream_error_handling() {
    let mut b = Batcher::new(config(32, 100));
    b.submit_request(strings(&["text1"]), 1);
    let batch = b.handle_timer_timeout_event(0).unwrap();
    let body = r#"{"error":"Invalid input"}"#.to_string();
    let out: Vec<Delivery<u32, Vec<f64>>> =
        Batcher::complete_batch(batch, UpstreamReply::Failed(422, Some(body.clone())));
    assert_eq!(out.len(), 1);
    assert_eq!(status_of(&out[0]), 422);
    match &out[0].result {
        Err(BatchError::UpstreamError(_, msg)) => assert_eq!(*msg, body),
        _ => panic!("Expected UpstreamError"),
    }
}

#[test]
fn test_one_client_one_input() {
    let mut b = Batcher::new(config(0, 3_600_000));
    let batch = submit(&mut b, &["test string"], 1).expect("batch size 0 dispatches at once");
    let (texts, out) = process(batch);
    assert_eq!(texts, strings(&["test string"]));
    let expected_embedding = vec![
        116.0, 101.0, 115.0, 116.0, 32.0, 115.0, 116.0, 114.0, 105.0, 110.0, 103.0, 0.0, 0.0,
        0.0, 0.0, 0.0,
    ];
    assert_eq!(out.len(), 1);
    assert_eq!(ok_of(&out[0]), vec![expected_embedding]);
}

#[test]
fn test_one_client_multiple_inputs() {
    let mut b = Batcher::new(config(0, 3_600_000));
    let batch = submit(&mut b, &["hello", "world", "test"], 1).unwrap();
    let (texts, out) = process(batch);
    assert_eq!(texts, strings(&["hello", "world", "test"]));
    assert_eq!(out.len(), 1);
    assert_eq!(
        ok_of(&out[0]),
        vec![
            generate_test_embedding("hello"),
            generate_test_embedding("world"),
            generate_test_embedding("test")
        ]
    );
    assert_eq!(ok_of(&out[0])[0][0], 104.0);
}

#[test]
fn test_multiple_clients_multiple_inputs() {
    let mut b = Batcher::new(config(7, 3_600_000));
    assert!(submit(&mut b, &["hi", "bye"], 1).is_none());
    assert!(submit(&mut b, &["foo", "bar", "baz"], 2).is_none());
    let batch = submit(&mut b, &["x", "y"], 3).expect("7 items reach the batch size");
    let (texts, out) = process(batch);
    // One upstream call with all inputs, in order
    assert_eq!(texts, strings(&["hi", "bye", "foo", "bar", "baz", "x", "y"]));
    assert_eq!(out.len(), 3);
    assert_eq!(out[0].sender, 1);
    assert_eq!(ok_of(&out[0]), vec![generate_test_embedding("hi"), generate_test_embedding("bye")]);
    assert_eq!(out[1].sender, 2);
    assert_eq!(
        ok_of(&out[1]),
        vec![
            generate_test_embedding("foo"),
            generate_test_embedding("bar"),
            generate_test_embedding("baz")
        ]
    );
    assert_eq!(out[2].sender, 3);
    assert_eq!(ok_of(&out[2]), vec![generate_test_embedding("x"), generate_test_embedding("y")]);
    assert_eq!(ok_of(&out[2])[1][0], 121.0);
}

#[test]
fn test_multiple_batching_by_size() {
    let mut b = Batcher::new(config(3, 3_600_000));
    assert!(submit(&mut b, &["a", "b"], 1).is_none());
    let first = submit(&mut b, &["c", "d"], 2).expect("4 items reach the batch size 3");
    let (texts, out) = process(first);
    assert_eq!(texts, strings(&["a", "b", "c", "d"]));
    assert_eq!(ok_of(&out[0]), vec![generate_test_embedding("a"), generate_test_embedding("b")]);
    assert_eq!(ok_of(&out[1]), vec![generate_test_embedding("c"), generate_test_embedding("d")]);

    assert!(submit(&mut b, &["e"], 3).is_none());
    let second = submit(&mut b, &["f", "g", "h", "i"], 4).expect("5 items reach the batch size 3");
    let (texts, out) = process(second);
    assert_eq!(texts, strings(&["e", "f", "g", "h", "i"]));
    assert_eq!(out.len(), 2);
    assert_eq!(ok_of(&out[0]), vec![generate_test_embedding("e")]);
    assert_eq!(ok_of(&out[1]).len(), 4);
    assert_eq!(ok_of(&out[1])[3][0], 105.0);
    assert_eq!(b.batch_seqno(), 2);
}

#[test]
fn test_multiple_batching_by_wait() {
    let mut b = Batcher::new(config(1000, 200));
    match b.submit_request(strings(&["a", "b"]), 1) {
        SubmitOutcome::Queued(TrayAction::SetTimer(0)) => {}
        _ => panic!("expected a timer request"),
    }
    let (texts, out) = process(b.handle_timer_timeout_event(0).unwrap());
    assert_eq!(texts, strings(&["a", "b"]));
    assert_eq!(ok_of(&out[0]), vec![generate_test_embedding("a"), generate_test_embedding("b")]);

    match b.submit_request(strings(&["c"]), 2) {
        SubmitOutcome::Queued(TrayAction::SetTimer(1)) => {}
        _ => panic!("expected a timer request for the second batch"),
    }
    assert!(matches!(b.submit_request(strings(&["d", "e"]), 3), SubmitOutcome::Queued(TrayAction::Wait)));
    // A late timer of the first batch is ignored
    assert!(b.handle_timer_timeout_event(0).is_none());
    let (texts, out) = process(b.handle_timer_timeout_event(1).unwrap());
    assert_eq!(texts, strings(&["c", "d", "e"]));
    assert_eq!(ok_of(&out[0]), vec![generate_test_embedding("c")]);
    assert_eq!(ok_of(&out[1]), vec![generate_test_embedding("d"), generate_test_embedding("e")]);

    assert!(matches!(b.submit_request(strings(&["f"]), 4), SubmitOutcome::Queued(TrayAction::SetTimer(2))));
    let (texts, out) = process(b.handle_timer_timeout_event(2).unwrap());
    assert_eq!(texts, strings(&["f"]));
    assert_eq!(ok_of(&out[0]), vec![generate_test_embedding("f")]);
}

fn failing_batch(reply: UpstreamReply<Vec<f64>>) -> Vec<Delivery<u32, Vec<f64>>> {
    let items = make_batch_items(strings(&["test string"]), 1u32);
    Batcher::complete_batch(items, reply)
}

#[test]
fn main_test_upstream_error_handling() {
    let out = failing_batch(UpstreamReply::Failed(
        422,
        Some(r#"{"error":"Validation error"}"#.to_string()),
    ));
    assert_eq!(status_of(&out[0]), 422);
}

#[test]
fn test_upstream_non_json_error() {
    let out = failing_batch(UpstreamReply::Failed(422, Some("Invalid input format".to_string())));
    assert_eq!(status_of(&out[0]), 422);
    match &out[0].result {
        Err(e) => assert_eq!(e.to_message(), "Invalid input format"),
        Ok(_) => panic!("expected an error"),
    }
}

#[test]
fn test_upstream_500_error() {
    let out = failing_batch(UpstreamReply::Failed(500, None));
    assert_eq!(status_of(&out[0]), 500);
    match &out[0].result {
        Err(e) => assert_eq!(e.to_message(), "Unknown error"),
        Ok(_) => panic!("expected an error"),
    }
}

#[test]
fn test_upstream_malformed_response() {
    let out = failing_batch(UpstreamReply::Unparseable("expected value".to_string()));
    assert_eq!(status_of(&out[0]), 502);
    match &out[0].result {
        Err(e) => assert_eq!(e.to_message(), "Failed to parse response: expected value"),
        Ok(_) => panic!("expected an error"),
    }
}

#[test]
fn test_upstream_connection_error() {
    let out = failing_batch(UpstreamReply::ConnectionFailed("refused".to_string()));
    assert_eq!(status_of(&out[0]), 502);
    match &out[0].result {
        Err(e) => assert_eq!(e.to_message(), "Connection failed: refused"),
        Ok(_) => panic!("expected an error"),
    }
}

#[test]
fn test_make_batch_items_puts_sender_on_first() {
    let items = make_batch_items(strings(&["a", "b", "c"]), 9u32);
    assert_eq!(items.len(), 3);
    assert_eq!(items[0].sender, Some(9));
    assert_eq!(items[1].sender, None);
    assert_eq!(items[2].sender, None);
    assert_eq!(items[2].text, "c");
}

#[test]
fn test_distribute_results_orphans_join_first_request() {
    let batch = vec![
        BatchItem { text: "o".to_string(), sender: None },
        BatchItem { text: "a".to_string(), sender: Some(1u32) },
        BatchItem { text: "b".to_string(), sender: None },
        BatchItem { text: "c".to_string(), sender: Some(2u32) },
    ];
    let out = distribute_results(batch, vec![10u8, 11, 12, 13]);
    assert_eq!(out.len(), 2);
    assert_eq!(out[0].sender, 1);
    assert_eq!(out[0].result.as_ref().unwrap(), &vec![10u8, 11, 12]);
    assert_eq!(out[1].sender, 2);
    assert_eq!(out[1].result.as_ref().unwrap(), &vec![13u8]);
}

#[test]
fn test_distribute_results_without_sender_answers_nobody() {
    let batch = vec![BatchItem { text: "o".to_string(), sender: None::<u32> }];
    let out = distribute_results(batch, vec![1u8]);
    assert!(out.is_empty());
}

#[test]
fn test_distribute_results_size_mismatch() {
    let items = make_batch_items(strings(&["a", "b"]), 1u32);
    let out = distribute_results(items, vec![vec![1.0]]);
    assert_eq!(out.len(), 1);
    assert_eq!(status_of(&out[0]), 502);
    match &out[0].result {
        Err(e) => assert_eq!(e.to_message(), "Batch size mismatch with embeddings"),
        Ok(_) => panic!("expected an error"),
    }
}

#[test]
fn test_distribute_error_to_each_request() {
    let mut batch = make_batch_items(strings(&["a", "b"]), 1u32);
    batch.extend(make_batch_items(strings(&["c"]), 2u32));
    let out: Vec<Delivery<u32, ()>> =
        distribute_error(batch, &BatchError::UpstreamError(503, "busy".to_string()));
    assert_eq!(out.len(), 2);
    assert_eq!(out[0].sender, 1);
    assert_eq!(out[1].sender, 2);
    assert_eq!(status_of(&out[1]), 503);
}

#[test]
fn test_status_helpers() {
    assert!(is_success_status(200));
    assert!(is_success_status(299));
    assert!(!is_success_status(300));
    assert!(!is_success_status(199));
    assert_eq!(status_or_bad_gateway(422), 422);
    assert_eq!(status_or_bad_gateway(99), 502);
    assert_eq!(status_or_bad_gateway(1000), 502);
}
