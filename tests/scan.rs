use redis_bigkeys::aggregate::AggregateState;
use redis_bigkeys::fetch::Reply;
use redis_bigkeys::key_type::KeyTypeCode;
use redis_bigkeys::scan::{progress_position, ScanAction, Scanner};

fn simple(s: &str) -> Reply {
    Reply::SimpleString(s.as_bytes().to_vec())
}

fn names(v: &[&str]) -> Vec<String> {
    v.iter().map(|s| s.to_string()).collect()
}

#[test]
fn two_pages_fold_into_string_and_hash() {
    let mut sc = Scanner::new(2, 10);
    assert_eq!(sc.next_action(), ScanAction::RequestPage(0));
    sc.on_page(7, names(&["k1", "k2"]));
    assert_eq!(sc.next_action(), ScanAction::FetchBatch(names(&["k1", "k2"])));
    sc.on_batch(Some(vec![Reply::Int(100), simple("string"), Reply::Int(300), simple("string")]));
    assert_eq!(sc.next_action(), ScanAction::RequestPage(7));
    sc.on_page(0, names(&["k3"]));
    assert_eq!(sc.next_action(), ScanAction::FetchBatch(names(&["k3"])));
    sc.on_batch(Some(vec![Reply::Int(50), simple("hash")]));
    assert_eq!(sc.next_action(), ScanAction::Finished);
    assert!(sc.is_finished());

    let st = sc.state();
    let s = st.get(KeyTypeCode::StringKey);
    assert_eq!(s.count(), 2);
    assert_eq!(s.total_mem(), 400);
    assert_eq!(
        s.sorted_top_desc(),
        vec![(300u64, "k2".to_string()), (100, "k1".to_string())]
    );
    let h = st.get(KeyTypeCode::HashKey);
    assert_eq!(h.count(), 1);
    assert_eq!(h.sorted_top_desc(), vec![(50u64, "k3".to_string())]);
    assert_eq!(st.scanned(), 3);
    assert_eq!(st.errors(), 0);
    assert_eq!(st.total_mem(), 450);
}

#[test]
fn misshapen_batch_counts_whole_chunk_as_errors() {
    let mut sc = Scanner::new(2, 10);
    sc.on_page(5, names(&["a", "b"]));
    sc.on_batch(Some(vec![Reply::Int(1), simple("string"), Reply::Int(2)]));
    assert_eq!(sc.state().errors(), 2);
    assert_eq!(sc.state().scanned(), 0);
    assert_eq!(sc.next_action(), ScanAction::RequestPage(5));
    sc.on_page(0, names(&["c"]));
    sc.on_batch(Some(vec![Reply::Int(9), simple("list")]));
    assert!(sc.is_finished());
    assert_eq!(sc.state().scanned(), 1);
    assert_eq!(sc.state().errors(), 2);
    assert_eq!(sc.state().get(KeyTypeCode::ListKey).total_mem(), 9);
}

#[test]
fn failed_round_trip_counts_chunk_as_errors() {
    let mut sc = Scanner::new(3, 10);
    sc.on_page(0, names(&["a", "b", "c", "d"]));
    assert_eq!(sc.next_action(), ScanAction::FetchBatch(names(&["a", "b", "c"])));
    sc.on_batch(None);
    assert_eq!(sc.next_action(), ScanAction::FetchBatch(names(&["d"])));
    sc.on_batch(Some(vec![Reply::Int(4), simple("set")]));
    assert_eq!(sc.next_action(), ScanAction::Finished);
    assert_eq!(sc.state().errors(), 3);
    assert_eq!(sc.state().scanned(), 1);
    assert_eq!(sc.seen(), 4);
}

#[test]
fn empty_page_with_cursor_continues() {
    let mut sc = Scanner::new(2, 10);
    sc.on_page(12, Vec::new());
    assert!(!sc.is_finished());
    assert_eq!(sc.next_action(), ScanAction::RequestPage(12));
    sc.on_page(0, Vec::new());
    assert_eq!(sc.next_action(), ScanAction::Finished);
    assert_eq!(sc.state().scanned() + sc.state().errors(), 0);
}

#[test]
fn absent_and_unknown_keys_are_errors() {
    let mut sc = Scanner::new(10, 10);
    sc.on_page(0, names(&["gone", "weird", "ok"]));
    sc.on_batch(Some(vec![
        Reply::Nil,
        simple("none"),
        Reply::Int(3),
        simple("vectorset"),
        Reply::BulkString(b"12".to_vec()),
        Reply::BulkString(b"zset".to_vec()),
    ]));
    assert!(sc.is_finished());
    assert_eq!(sc.state().errors(), 2);
    assert_eq!(sc.state().scanned(), 1);
    assert_eq!(sc.state().get(KeyTypeCode::ZSetKey).total_mem(), 12);
    assert_eq!(sc.state().scanned() + sc.state().errors(), sc.seen());
}

#[test]
fn size_overflowing_whole_store_total_is_an_error() {
    let mut st = AggregateState::new(10);
    st.record("big", (Some(u64::MAX), Some(KeyTypeCode::StringKey)));
    st.record("one", (Some(1), Some(KeyTypeCode::HashKey)));
    assert_eq!(st.scanned(), 1);
    assert_eq!(st.errors(), 1);
    assert_eq!(st.total_mem(), u64::MAX);
    st.record_failed(4);
    assert_eq!(st.errors(), 5);
}

#[test]
fn progress_positions() {
    assert_eq!(progress_position(49_999, 50_000, 1_000_000, 50_000), Some(50_000));
    assert_eq!(progress_position(50_000, 50_001, 1_000_000, 50_000), None);
    assert_eq!(progress_position(10, 120, 100, 50_000), Some(100));
    assert_eq!(progress_position(0, 0, 0, 50_000), None);
    assert_eq!(progress_position(0, 1, 0, 50_000), None);
    assert_eq!(progress_position(1, 2, 0, 50_000), None);
    assert_eq!(progress_position(99, 100, 100, 50_000), Some(100));
    assert_eq!(progress_position(100, 150_000, 100, 50_000), None);
}
