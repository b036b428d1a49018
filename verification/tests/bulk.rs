use rocolatey_lib::roco::bulk::{BulkQuery, BulkStep};

fn fragments(ids: &[&str]) -> Vec<String> {
    ids.iter().map(|s| s.to_string()).collect()
}

#[test]
fn bulk_406_collapses_to_single_item_batches() {
    // a transport that answers 406 once must force batch size 1, and the
    // run must still consume every id exactly once, in order
    let frags = fragments(&["a", "b", "c"]);
    let mut q = BulkQuery::new(
        "https://example.org/q?ids=".to_string(),
        ",".to_string(),
        "".to_string(),
        frags,
        100,
    );
    let mut first = true;
    let mut consumed: Vec<(String, u32)> = Vec::new();
    while !q.done() {
        assert!(!q.exhausted());
        let (query, size) = q.next_batch().unwrap();
        if first {
            first = false;
            assert_eq!(size, 3);
            assert_eq!(query, "https://example.org/q?ids=a,b,c");
            assert_eq!(q.apply_response(406, false), BulkStep::Retry);
            assert_eq!(q.max_batch_size, 1);
            // a 406 is a client error too: the URL budget shrinks with it
            assert_eq!(q.max_url_len, 1023);
        } else {
            assert_eq!(size, 1);
            assert_eq!(q.apply_response(200, false), BulkStep::Consume);
            consumed.push((query, size));
        }
    }
    let queries: Vec<&str> = consumed.iter().map(|c| c.0.as_str()).collect();
    assert_eq!(
        queries,
        vec![
            "https://example.org/q?ids=a",
            "https://example.org/q?ids=b",
            "https://example.org/q?ids=c",
        ]
    );
}

#[test]
fn bulk_persistent_406_exhausts_instead_of_spinning() {
    // a server that answers 406 to every request, even single-item ones,
    // grinds the URL budget down until the query fails — it never loops
    // without progress
    let frags = fragments(&["a", "b"]);
    let mut q = BulkQuery::new(
        "https://example.org/q?ids=".to_string(),
        ",".to_string(),
        "".to_string(),
        frags,
        100,
    );
    let mut rounds = 0;
    while !q.done() && !q.exhausted() {
        let before = q.max_url_len + q.max_batch_size as usize;
        let _ = q.next_batch().unwrap();
        assert_eq!(q.apply_response(406, false), BulkStep::Retry);
        assert!(q.max_url_len + (q.max_batch_size as usize) < before);
        rounds += 1;
        assert!(rounds <= 8);
    }
    assert!(q.exhausted());
    assert!(!q.done());
}

#[test]
fn bulk_url_backoff_halves_until_failure() {
    // a transport that always answers a client error halves the URL budget
    // on every retry until it falls below 100 and the query fails
    let frags = fragments(&["a", "b"]);
    let mut q = BulkQuery::new(
        "https://example.org/q?ids=".to_string(),
        ",".to_string(),
        "".to_string(),
        frags,
        100,
    );
    let mut seen = Vec::new();
    while !q.done() && !q.exhausted() {
        seen.push(q.max_url_len);
        let _ = q.next_batch().unwrap();
        assert_eq!(q.apply_response(414, false), BulkStep::Retry);
    }
    assert!(q.exhausted());
    assert!(!q.done());
    assert_eq!(seen, vec![2047, 1023, 511, 255, 127]);
    assert_eq!(q.max_url_len, 63);
}

#[test]
fn bulk_empty_body_shrinks_batch() {
    let frags = fragments(&["a", "b"]);
    let mut q = BulkQuery::new(
        "https://example.org/q?ids=".to_string(),
        ",".to_string(),
        "".to_string(),
        frags,
        2,
    );
    let (_, size) = q.next_batch().unwrap();
    assert_eq!(size, 2);
    assert_eq!(q.apply_response(200, true), BulkStep::Retry);
    assert_eq!(q.max_batch_size, 1);
    let (_, size) = q.next_batch().unwrap();
    assert_eq!(size, 1);
    assert_eq!(q.apply_response(200, true), BulkStep::Retry);
    assert_eq!(q.max_batch_size, 0);
    assert!(q.exhausted());
}

#[test]
fn bulk_url_length_limits_batch() {
    // a fragment that blows the URL budget ends the batch at that fragment
    let long_a = "a".repeat(200);
    let long_b = "b".repeat(200);
    let frags = vec![long_a, long_b];
    let mut q = BulkQuery::new(
        "https://example.org/q?ids=".to_string(),
        ",".to_string(),
        "".to_string(),
        frags,
        100,
    );
    q.max_url_len = 150;
    let (query, size) = q.next_batch().unwrap();
    assert_eq!(size, 1);
    assert!(query.ends_with(&"a".repeat(200)));
}

#[test]
fn bulk_invalid_url_is_an_error() {
    let frags = fragments(&["a"]);
    let mut q = BulkQuery::new(
        "not a url ".to_string(),
        ",".to_string(),
        "".to_string(),
        frags,
        100,
    );
    let e = q.next_batch().unwrap_err();
    assert_eq!(e, "failed to execute bulk query, invalid query url.");
}

#[test]
fn bulk_5xx_body_is_consumed() {
    // a server error is not a client error: its body falls through to the
    // response parser
    let frags = fragments(&["a"]);
    let mut q = BulkQuery::new(
        "https://example.org/q?ids=".to_string(),
        ",".to_string(),
        "".to_string(),
        frags,
        100,
    );
    let _ = q.next_batch().unwrap();
    assert_eq!(q.apply_response(500, false), BulkStep::Consume);
    assert!(q.done());
}
