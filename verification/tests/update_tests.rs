use nsupdate_cloudflare::parser::NSUpdateActionAdd;
use nsupdate_cloudflare::parser::NSUpdateActionDelete;
use nsupdate_cloudflare::parser::NSUpdateQueue;
use nsupdate_cloudflare::update::CFCurrentRecords;
use nsupdate_cloudflare::update::CFError;
use nsupdate_cloudflare::update::CFListResponse;
use nsupdate_cloudflare::update::CFRecord;
use nsupdate_cloudflare::update::CFResultInfo;
use nsupdate_cloudflare::update::CFUpdateResponse;
use nsupdate_cloudflare::update::PlannedCall;
use nsupdate_cloudflare::update::RequestDataAdd;
use nsupdate_cloudflare::update::RequestDataDelete;
use nsupdate_cloudflare::update::RequestQueue;

fn record(id: &str, record_type: &str, name: &str, content: &str, ttl: usize) -> CFRecord {
    CFRecord {
        id: id.to_string(),
        record_type: record_type.to_string(),
        name: name.to_string(),
        content: content.to_string(),
        ttl,
    }
}

fn page_of(records: Vec<CFRecord>, total_pages: usize) -> CFListResponse {
    CFListResponse {
        success: true,
        errors: Vec::new(),
        result: records,
        result_info: CFResultInfo { total_pages },
    }
}

fn ok_response() -> Option<CFUpdateResponse> {
    Some(CFUpdateResponse { success: true, errors: Vec::new(), result: None })
}

#[test]
fn translator_round_trips_an_add() {
    let action = NSUpdateActionAdd {
        domain: "example.com.".to_string(),
        ttl: 300,
        record_type: "MX".to_string(),
        priority: Some(10),
        content: "mail.example.com.".to_string(),
    };
    let request = RequestDataAdd::from(action);
    assert_eq!(request.name, "example.com.");
    assert_eq!(request.ttl, 300);
    assert_eq!(request.record_type, "MX");
    assert_eq!(request.priority, Some(10));
    assert_eq!(request.content, "mail.example.com.");
    assert!(!request.proxied);
    let decoded = request.into_action();
    assert_eq!(decoded.domain, "example.com.");
    assert_eq!(decoded.ttl, 300);
    assert_eq!(decoded.record_type, "MX");
    assert_eq!(decoded.priority, Some(10));
    assert_eq!(decoded.content, "mail.example.com.");
}

#[test]
fn translator_keeps_delete_fields() {
    let action = NSUpdateActionDelete {
        domain: "example.com.".to_string(),
        record_type: "A".to_string(),
    };
    let request = RequestDataDelete::from(action);
    assert_eq!(request.name, "example.com.");
    assert_eq!(request.record_type, "A");
}

#[test]
fn request_queue_drops_send_markers() {
    let mut queue = NSUpdateQueue::new();
    queue
        .parse_text("add example.com. 300 A 203.0.113.5\ndelete example.com. TXT\nsend")
        .expect("well-formed text must parse");
    let requests = RequestQueue::from(queue);
    assert_eq!(requests.len(), 2);
}

#[test]
fn find_id_on_empty_cache_is_none() {
    let cache = CFCurrentRecords::new();
    assert!(cache.find_record_id("example.com.", "A").is_none());
}

#[test]
fn find_id_appends_trailing_dot_to_stored_names() {
    let mut cache = CFCurrentRecords::new();
    let page = page_of(vec![record("id-1", "A", "example.com", "203.0.113.5", 300)], 1);
    assert_eq!(cache.absorb_page(page).expect("page is successful"), 1);
    assert_eq!(cache.find_record_id("example.com.", "A"), Some("id-1"));
    // The stored name has no dot appended twice: the undotted query misses.
    assert!(cache.find_record_id("example.com", "A").is_none());
    // A type mismatch misses.
    assert!(cache.find_record_id("example.com.", "AAAA").is_none());
}

#[test]
fn find_id_takes_the_first_of_duplicates() {
    let mut cache = CFCurrentRecords::new();
    let page = page_of(
        vec![
            record("id-1", "A", "dup.example.com", "203.0.113.5", 300),
            record("id-2", "A", "dup.example.com", "203.0.113.6", 300),
        ],
        1,
    );
    cache.absorb_page(page).expect("page is successful");
    assert_eq!(cache.find_record_id("dup.example.com.", "A"), Some("id-1"));
}

#[test]
fn absorb_accumulates_pages() {
    let mut cache = CFCurrentRecords::new();
    let first = page_of(vec![record("id-1", "A", "one.example.com", "203.0.113.1", 60)], 2);
    assert_eq!(cache.absorb_page(first).expect("first page"), 2);
    let second = page_of(vec![record("id-2", "A", "two.example.com", "203.0.113.2", 60)], 2);
    assert_eq!(cache.absorb_page(second).expect("second page"), 2);
    assert_eq!(cache.find_record_id("one.example.com.", "A"), Some("id-1"));
    assert_eq!(cache.find_record_id("two.example.com.", "A"), Some("id-2"));
}

#[test]
fn failed_listing_surfaces_provider_errors() {
    let mut cache = CFCurrentRecords::new();
    let response = CFListResponse {
        success: false,
        errors: vec![CFError { code: 10000, message: "Authentication error".to_string() }],
        result: vec![record("id-9", "A", "ghost.example.com", "203.0.113.9", 60)],
        result_info: CFResultInfo { total_pages: 1 },
    };
    let err = cache.absorb_page(response).expect_err("success=false must fail");
    assert_eq!(err.errors.len(), 1);
    assert_eq!(err.errors[0].code, 10000);
    assert_eq!(err.errors[0].message, "Authentication error");
    // The failed page contributed nothing to the snapshot.
    assert!(cache.find_record_id("ghost.example.com.", "A").is_none());
}

#[test]
fn plan_resolves_delete_ids_and_skips_missing_ones() {
    let mut queue = NSUpdateQueue::new();
    queue
        .parse_text(
            "add new.example.com. 300 A 203.0.113.5\n\
             delete old.example.com. A\n\
             delete missing.example.com. A\n\
             send",
        )
        .expect("well-formed text must parse");
    let requests = RequestQueue::from(queue);
    let mut cache = CFCurrentRecords::new();
    cache
        .absorb_page(page_of(vec![record("id-7", "A", "old.example.com", "203.0.113.4", 60)], 1))
        .expect("page is successful");
    let calls = requests.plan(&cache);
    assert_eq!(calls.len(), 2);
    match &calls[0] {
        PlannedCall::Add(add) => assert_eq!(add.name, "new.example.com."),
        other => panic!("expected an add call, got {:?}", other),
    }
    match &calls[1] {
        PlannedCall::Delete { id, request } => {
            assert_eq!(id, "id-7");
            assert_eq!(request.name, "old.example.com.");
            assert_eq!(request.record_type, "A");
        }
        other => panic!("expected a delete call, got {:?}", other),
    }
}

#[test]
fn process_counts_a_missing_delete_as_processed_and_failed() {
    // One add and one delete of a record that does not exist: both processed,
    // the delete skipped as not-found and counted failed.
    let mut queue = NSUpdateQueue::new();
    queue
        .parse_text("add new.example.com. 300 A 203.0.113.5\ndelete missing.example.com. A\nsend")
        .expect("well-formed text must parse");
    let requests = RequestQueue::from(queue);
    let cache = CFCurrentRecords::new();
    let calls = requests.plan(&cache);
    assert_eq!(calls.len(), 1);
    let outcomes = vec![ok_response()];
    let (processed, failed) = requests.process(&cache, &outcomes);
    assert_eq!((processed, failed), (2, 1));
}

#[test]
fn process_counts_rejections_and_transport_failures() {
    let mut queue = NSUpdateQueue::new();
    queue
        .parse_text(
            "add a.example.com. 60 A 203.0.113.1\n\
             add b.example.com. 60 A 203.0.113.2\n\
             add c.example.com. 60 A 203.0.113.3\n\
             send",
        )
        .expect("well-formed text must parse");
    let requests = RequestQueue::from(queue);
    let cache = CFCurrentRecords::new();
    let outcomes = vec![
        ok_response(),
        Some(CFUpdateResponse {
            success: false,
            errors: vec![CFError { code: 81057, message: "Record already exists".to_string() }],
            result: None,
        }),
        None,
    ];
    let (processed, failed) = requests.process(&cache, &outcomes);
    assert_eq!((processed, failed), (3, 2));
}

#[test]
fn process_succeeds_cleanly_on_a_resolved_delete() {
    let mut queue = NSUpdateQueue::new();
    queue
        .parse_text("delete old.example.com. A\nsend")
        .expect("well-formed text must parse");
    let requests = RequestQueue::from(queue);
    let mut cache = CFCurrentRecords::new();
    cache
        .absorb_page(page_of(vec![record("id-3", "A", "old.example.com", "203.0.113.4", 60)], 1))
        .expect("page is successful");
    let outcomes = vec![ok_response()];
    let (processed, failed) = requests.process(&cache, &outcomes);
    assert_eq!((processed, failed), (1, 0));
}

#[test]
fn request_queue_from_preserves_order_and_shape() {
    let mut queue = NSUpdateQueue::new();
    queue
        .parse_text("delete z.example.com. TXT\nadd a.example.com. 120 A 203.0.113.8\nsend")
        .expect("well-formed text must parse");
    let requests = RequestQueue::from(queue);
    let cache = CFCurrentRecords::new();
    // Plan order follows request order: the delete (skipped: empty cache)
    // never reaches the plan, the add does.
    let calls = requests.plan(&cache);
    assert_eq!(calls.len(), 1);
    match &calls[0] {
        PlannedCall::Add(add) => {
            assert_eq!(add.name, "a.example.com.");
            assert_eq!(add.ttl, 120);
            assert!(!add.proxied);
        }
        other => panic!("expected an add call, got {:?}", other),
    }
}
