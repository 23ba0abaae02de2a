use commune::proxy::ProxyManager;

#[test]
fn entries_lose_whitespace_and_schemes() {
    assert_eq!(ProxyManager::normalize_entry("  http://1.2.3.4:8080  "), Some("1.2.3.4:8080".to_string()));
    assert_eq!(ProxyManager::normalize_entry("socks5://host:1080\r"), Some("host:1080".to_string()));
    assert_eq!(ProxyManager::normalize_entry("https://10.0.0.1:443"), Some("10.0.0.1:443".to_string()));
    assert_eq!(ProxyManager::normalize_entry("socks4://a:1"), Some("a:1".to_string()));
    assert_eq!(ProxyManager::normalize_entry("http://http://x:1"), Some("x:1".to_string()));
    assert_eq!(ProxyManager::normalize_entry("5.6.7.8:3128"), Some("5.6.7.8:3128".to_string()));
}

#[test]
fn entries_without_address_are_dropped() {
    assert_eq!(ProxyManager::normalize_entry(""), None);
    assert_eq!(ProxyManager::normalize_entry("   \t "), None);
    assert_eq!(ProxyManager::normalize_entry("localhost"), None);
    assert_eq!(ProxyManager::normalize_entry("https://"), None);
}

#[test]
fn pool_keeps_order_of_usable_lines() {
    let lines = vec![
        "http://1.1.1.1:80".to_string(),
        "# comment".to_string(),
        "".to_string(),
        " 2.2.2.2:8080 ".to_string(),
    ];
    assert_eq!(ProxyManager::build_pool(&lines), vec!["1.1.1.1:80".to_string(), "2.2.2.2:8080".to_string()]);
    assert!(ProxyManager::build_pool(&Vec::new()).is_empty());
}

#[test]
fn validation_plan_sizes() {
    assert_eq!(ProxyManager::validation_plan(100), (40, 3));
    assert_eq!(ProxyManager::validation_plan(5), (5, 1));
    assert_eq!(ProxyManager::validation_plan(41), (40, 2));
    assert_eq!(ProxyManager::validation_plan(1), (1, 1));
}

#[test]
fn worker_ranges_cover_each_index_once() {
    for total in 1..300usize {
        let (workers, chunk) = ProxyManager::validation_plan(total);
        let mut hits = vec![0usize; total];
        for worker in 0..workers {
            let (start, end) = ProxyManager::worker_range(worker, chunk, total);
            for index in start..end {
                hits[index] += 1;
            }
        }
        assert!(hits.iter().all(|&h| h == 1), "total {}", total);
    }
    assert_eq!(ProxyManager::worker_range(39, 2, 41), (78, 41));
}

#[test]
fn validation_progress_reporting() {
    assert!(ProxyManager::reports_progress(1, 10));
    assert!(ProxyManager::reports_progress(10, 10));
    assert!(!ProxyManager::reports_progress(1, 1000));
    assert!(ProxyManager::reports_progress(20, 1000));
    assert!(ProxyManager::reports_progress(1000, 1000));
    assert!(!ProxyManager::reports_progress(999, 1000));
}

#[test]
fn pool_file_text_joins_lines() {
    let pool = vec!["a:1".to_string(), "b:2".to_string(), "c:3".to_string()];
    let text = ProxyManager::pool_file_text(&pool);
    assert_eq!(text, "a:1\nb:2\nc:3");
    let reloaded: Vec<String> = text.lines().map(|l| l.to_string()).collect();
    assert_eq!(ProxyManager::build_pool(&reloaded), pool);
    assert_eq!(ProxyManager::pool_file_text(&Vec::new()), "");
    assert_eq!(ProxyManager::pool_file_text(&vec!["x:9".to_string()]), "x:9");
}
