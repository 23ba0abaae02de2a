use commune::scanner::{parse_claimable_community, parse_http_status, proxy_slot, Scanner};
use commune::types::{ProgressState, UiEvent};
use std::sync::mpsc::channel;

#[test]
fn http_status_of_ok_reply() {
    assert_eq!(parse_http_status("HTTP/1.1 200 OK\r\nContent-Type: application/json\r\n\r\n{}"), Some(200));
}

#[test]
fn http_status_variants() {
    assert_eq!(parse_http_status("HTTP/1.1 429 Too Many Requests\r\n"), Some(429));
    assert_eq!(parse_http_status("  HTTP/1.1   503  \r\n"), Some(503));
    assert_eq!(parse_http_status("HTTP/1.1 +200 OK"), Some(200));
    assert_eq!(parse_http_status("HTTP/1.1 0403 Forbidden"), Some(403));
}

#[test]
fn http_status_rejects_bad_lines() {
    assert_eq!(parse_http_status(""), None);
    assert_eq!(parse_http_status("HTTP/1.1\r\n200 OK"), None);
    assert_eq!(parse_http_status("HTTP/1.1 70000 Big"), None);
    assert_eq!(parse_http_status("HTTP/1.1 -1 Neg"), None);
    assert_eq!(parse_http_status("HTTP/1.1 2x0 Bad"), None);
    assert_eq!(parse_http_status("\nHTTP/1.1 200 OK"), None);
}

#[test]
fn claimable_community_compact_record() {
    let json = "{\"id\":7,\"owner\":null,\"memberCount\":42,\"publicEntryAllowed\":true,\"isLocked\":false}";
    assert_eq!(parse_claimable_community(json), Some(42));
}

#[test]
fn claimable_community_spaced_record() {
    let json = "{\"owner\": null, \"memberCount\":   1234, \"publicEntryAllowed\": true}";
    assert_eq!(parse_claimable_community(json), Some(1234));
}

#[test]
fn claimable_community_refusals() {
    let owned = "{\"owner\":{\"id\":1},\"memberCount\":42,\"publicEntryAllowed\":true}";
    assert_eq!(parse_claimable_community(owned), None);
    let closed = "{\"owner\":null,\"memberCount\":42,\"publicEntryAllowed\":false}";
    assert_eq!(parse_claimable_community(closed), None);
    let locked = "{\"owner\":null,\"memberCount\":42,\"publicEntryAllowed\":true,\"isLocked\":true}";
    assert_eq!(parse_claimable_community(locked), None);
    let empty = "{\"owner\":null,\"memberCount\":0,\"publicEntryAllowed\":true}";
    assert_eq!(parse_claimable_community(empty), None);
    let at_end = "{\"owner\":null,\"publicEntryAllowed\":true,\"memberCount\":42";
    assert_eq!(parse_claimable_community(at_end), None);
    let no_count = "{\"owner\":null,\"publicEntryAllowed\":true}";
    assert_eq!(parse_claimable_community(no_count), None);
    let huge = "{\"owner\":null,\"memberCount\":99999999999999999999,\"publicEntryAllowed\":true}";
    assert_eq!(parse_claimable_community(huge), None);
    let not_digits = "{\"owner\":null,\"memberCount\":\"5\",\"publicEntryAllowed\":true}";
    assert_eq!(parse_claimable_community(not_digits), None);
}

#[test]
fn request_text_for_a_community() {
    let expected = "GET http://groups.roblox.com/v1/groups/123456 HTTP/1.1\r\nHost: groups.roblox.com\r\nUser-Agent: Mozilla/5.0 (Windows NT 10.0; Win64; x64) AppleWebKit/537.36\r\nAccept: application/json\r\nConnection: close\r\n\r\n";
    assert_eq!(commune::scanner::build_request(123456), expected);
}

fn messages(events: &[UiEvent]) -> Vec<String> {
    events
        .iter()
        .filter_map(|e| match e {
            UiEvent::LogMessage(m) => Some(m.clone()),
            _ => None,
        })
        .collect()
}

#[test]
fn reply_events_for_claimable_community() {
    let reply = "HTTP/1.1 200 OK\r\n\r\n{\"owner\":null,\"memberCount\":15,\"publicEntryAllowed\":true}";
    let events = commune::scanner::reply_to_events(900, reply);
    assert_eq!(events.len(), 2);
    match &events[0] {
        UiEvent::CommunityDiscovered(g) => {
            assert_eq!(g.community_id, 900);
            assert_eq!(g.member_count, 15);
        }
        _ => panic!("expected a discovery"),
    }
    assert_eq!(messages(&events), vec!["[SUCCESS] Found claimable community: 900".to_string()]);
}

#[test]
fn reply_events_for_limits_and_blocks() {
    let limited = commune::scanner::reply_to_events(31, "HTTP/1.1 429 Too Many Requests\r\n\r\n");
    assert_eq!(messages(&limited), vec!["[429 Rate Limit] ID 31 rate limited".to_string()]);
    let blocked = commune::scanner::reply_to_events(7, "HTTP/1.1 403 Forbidden\r\n\r\n");
    assert_eq!(messages(&blocked), vec!["[403] Proxy blocked on ID 7".to_string()]);
    let unavailable = commune::scanner::reply_to_events(8, "HTTP/1.1 503 Unavailable\r\n\r\n");
    assert_eq!(messages(&unavailable), vec!["[503] Proxy blocked on ID 8".to_string()]);
    assert!(commune::scanner::reply_to_events(9, "HTTP/1.1 404 Not Found\r\n\r\n").is_empty());
    assert!(commune::scanner::reply_to_events(9, "").is_empty());
    let owned = "HTTP/1.1 200 OK\r\n\r\n{\"owner\":{},\"memberCount\":15,\"publicEntryAllowed\":true}";
    assert!(commune::scanner::reply_to_events(10, owned).is_empty());
}

#[test]
fn saved_progress_reads_back() {
    let text = Scanner::progress_text(5000000, 10000000);
    assert_eq!(text, "{\n\t\"last_scanned_id\": 5000000,\n\t\"ending_id\": 10000000\n}\n");
    assert_eq!(
        Scanner::parse_progress(&text),
        Some(ProgressState { last_scanned_id: 5000000, ending_id: 10000000 })
    );
    let extremes = Scanner::progress_text(0, u64::MAX);
    assert_eq!(
        Scanner::parse_progress(&extremes),
        Some(ProgressState { last_scanned_id: 0, ending_id: u64::MAX })
    );
}

#[test]
fn progress_file_variants() {
    let crlf = "{\r\n  \"last_scanned_id\" : 12 ,\r\n  \"ending_id\": 40\r\n}";
    assert_eq!(Scanner::parse_progress(crlf), Some(ProgressState { last_scanned_id: 12, ending_id: 40 }));
    assert_eq!(Scanner::parse_progress("\"ending_id\": 40"), None);
    assert_eq!(Scanner::parse_progress("last_scanned_id: 3\nending_id: 9\nlast_scanned_id: x"), None);
    assert_eq!(
        Scanner::parse_progress("last_scanned_id: 3\nending_id: 9\nother: 1"),
        Some(ProgressState { last_scanned_id: 3, ending_id: 9 })
    );
    assert_eq!(Scanner::parse_progress(""), None);
}

#[test]
fn progress_defaults_when_missing() {
    let defaults = ProgressState { last_scanned_id: 0, ending_id: 100_000_000 };
    assert_eq!(Scanner::progress_from(None, 0, 100_000_000), defaults);
    assert_eq!(Scanner::progress_from(Some("garbage"), 0, 100_000_000), defaults);
    assert_eq!(
        Scanner::progress_from(Some("last_scanned_id: 5\nending_id: 6"), 0, 100_000_000),
        ProgressState { last_scanned_id: 5, ending_id: 6 }
    );
}

#[test]
fn proxies_are_taken_in_turn() {
    let (sender, _receiver) = channel::<UiEvent>();
    let pool = vec!["1.1.1.1:80".to_string(), "2.2.2.2:80".to_string(), "3.3.3.3:80".to_string()];
    let scanner = Scanner::new(pool, sender);
    let picks: Vec<Option<usize>> = (0..5).map(|_| scanner.next_proxy_index()).collect();
    assert_eq!(picks, vec![Some(0), Some(1), Some(2), Some(0), Some(1)]);
    assert_eq!(proxy_slot(10, 3), 1);
    match scanner.status_event(77) {
        UiEvent::StatusUpdate { live_proxy_count, current_id } => {
            assert_eq!(live_proxy_count, 3);
            assert_eq!(current_id, 77);
        }
        _ => panic!("expected a status update"),
    }
}

#[test]
fn empty_pool_has_no_proxy() {
    let (sender, _receiver) = channel::<UiEvent>();
    let scanner = Scanner::new(Vec::new(), sender);
    assert_eq!(scanner.next_proxy_index(), None);
}

#[test]
fn follow_up_after_probes() {
    let first = Scanner::after_probe(1, 1000, 50);
    assert!(first.report.is_none());
    assert!(!first.save_progress);
    let fifth = Scanner::after_probe(5, 1000, 54);
    match fifth.report {
        Some(UiEvent::ScanProgressUpdate { completed_count, current_id }) => {
            assert_eq!(completed_count, 5);
            assert_eq!(current_id, 54);
        }
        _ => panic!("expected a progress report"),
    }
    assert!(!fifth.save_progress);
    let saved = Scanner::after_probe(200, 1000, 300);
    assert!(saved.report.is_some());
    assert!(saved.save_progress);
    let last = Scanner::after_probe(999, 999, 998);
    assert!(last.report.is_some());
    assert_eq!(Scanner::range_size(ProgressState { last_scanned_id: 10, ending_id: 25 }), 15);
}
