use vek_torrents::crawl::{page_count_from_label, parse_page_number, CrawlState};

#[test]
fn dispatch_hands_out_each_page_once() {
    let mut state = CrawlState::new();
    assert_eq!(state.dispatch(5), vec![1, 2, 3, 4, 5]);
    assert_eq!(state.high_water_mark(), 5);
    assert_eq!(state.dispatch(7), vec![6, 7]);
    assert_eq!(state.dispatch(7), Vec::<u32>::new());
    assert_eq!(state.dispatch(3), Vec::<u32>::new());
    assert_eq!(state.high_water_mark(), 7);
}

#[test]
fn start_crawl_records_total_and_dispatches() {
    let mut state = CrawlState::new();
    assert_eq!(state.start_crawl(3), vec![1, 2, 3]);
    assert_eq!(state.total_pages(), 3);
    assert_eq!(state.processed_pages(), 0);
    state.record_processed();
    state.record_processed();
    assert_eq!(state.processed_pages(), 2);
    assert_eq!(state.start_crawl(4), vec![4]);
    assert_eq!(state.total_pages(), 4);
    assert_eq!(state.processed_pages(), 2);
}

#[test]
fn zero_pages_dispatches_nothing() {
    let mut state = CrawlState::new();
    assert!(state.start_crawl(0).is_empty());
    assert_eq!(state.high_water_mark(), 0);
}

#[test]
fn page_numbers_parse_as_unsigned_decimals() {
    assert_eq!(parse_page_number("42"), Some(42));
    assert_eq!(parse_page_number("+7"), Some(7));
    assert_eq!(parse_page_number("007"), Some(7));
    assert_eq!(parse_page_number("4294967295"), Some(4294967295));
    assert_eq!(parse_page_number("4294967296"), None);
    assert_eq!(parse_page_number("99999999999999999999"), None);
    assert_eq!(parse_page_number(""), None);
    assert_eq!(parse_page_number("+"), None);
    assert_eq!(parse_page_number("-1"), None);
    assert_eq!(parse_page_number(" 4"), None);
    assert_eq!(parse_page_number("Last"), None);
}

#[test]
fn unreadable_page_count_degrades_to_one_page() {
    assert_eq!(page_count_from_label(None), 1);
    assert_eq!(page_count_from_label(Some("Last".to_string())), 1);
    assert_eq!(page_count_from_label(Some("12".to_string())), 12);
    let mut state = CrawlState::new();
    assert_eq!(state.start_crawl(page_count_from_label(None)), vec![1]);
}

use vek_torrents::crawl::PagePool;

#[test]
fn pool_limits_concurrent_fetches() {
    let mut state = CrawlState::new();
    let mut pool = PagePool::new(state.start_crawl(5), 2);
    assert_eq!(pool.next_page(), Some(1));
    assert_eq!(pool.next_page(), Some(2));
    assert_eq!(pool.next_page(), None);
    assert_eq!(pool.in_flight(), 2);
    pool.finish_page();
    assert_eq!(pool.next_page(), Some(3));
    pool.finish_page();
    pool.finish_page();
    assert_eq!(pool.next_page(), Some(4));
    assert_eq!(pool.next_page(), Some(5));
    assert_eq!(pool.next_page(), None);
    assert!(!pool.is_finished());
    pool.finish_page();
    pool.finish_page();
    assert!(pool.is_finished());
    assert_eq!(pool.next_page(), None);
}

#[test]
fn pool_issues_every_dispatched_page_once() {
    let mut state = CrawlState::new();
    let mut pool = PagePool::new(state.start_crawl(7), 3);
    let mut seen = Vec::new();
    while !pool.is_finished() {
        match pool.next_page() {
            Some(p) => seen.push(p),
            None => pool.finish_page(),
        }
    }
    assert_eq!(seen, vec![1, 2, 3, 4, 5, 6, 7]);
}

#[test]
fn empty_pool_is_finished_at_once() {
    let mut pool = PagePool::new(Vec::new(), 4);
    assert!(pool.is_finished());
    assert_eq!(pool.next_page(), None);
}
