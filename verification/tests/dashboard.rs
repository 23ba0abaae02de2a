use commune::console::{
    box_bottom_line, box_row_line, box_top_line, community_line, fit_to_width, format_uptime,
    key_event, key_events, matching_communities, member_filter_minimum, raw_console_modes,
    window_width, KeyRecord,
};
use commune::shared::Ansi;
use commune::types::{AppState, FoundCommunity, LoopAction, ProgressState, UiEvent, LOG_CAPACITY};
use std::time::Instant;

fn fresh_state() -> AppState {
    AppState::initial(ProgressState { last_scanned_id: 100, ending_id: 200 }, Instant::now())
}

#[test]
fn keys_map_to_events() {
    assert!(matches!(key_event(1, 1, 0x51, 0), Some(UiEvent::RequestExit)));
    assert!(matches!(key_event(1, 1, 0x1B, 0), Some(UiEvent::RequestExit)));
    assert!(matches!(key_event(1, 1, 0x43, 0x0008), Some(UiEvent::RequestExit)));
    assert!(matches!(key_event(1, 1, 0x43, 0x0004), Some(UiEvent::RequestExit)));
    assert!(matches!(key_event(1, 1, 0x43, 0x0010), Some(UiEvent::ClearDiscovered)));
    assert!(matches!(key_event(1, 1, 0x08, 0), Some(UiEvent::FilterBackspace)));
    assert!(matches!(key_event(1, 1, 0x30, 0), Some(UiEvent::FilterChar('0'))));
    assert!(matches!(key_event(1, 1, 0x35, 0), Some(UiEvent::FilterChar('5'))));
    assert!(matches!(key_event(1, 1, 0x39, 0x0010), Some(UiEvent::FilterChar('9'))));
    assert!(key_event(1, 1, 0x41, 0).is_none());
    assert!(key_event(1, 0, 0x51, 0).is_none());
    assert!(key_event(2, 1, 0x51, 0).is_none());
}

#[test]
fn shifted_digit_key_still_types_digit() {
    // Shift+1 (or a number-row key on another layout) is still the digit 1.
    assert!(matches!(key_event(1, 1, 0x31, 0x0010), Some(UiEvent::FilterChar('1'))));
}

#[test]
fn records_give_events_in_order() {
    let records = vec![
        KeyRecord { event_type: 1, key_down: 1, virtual_key_code: 0x34, control_key_state: 0 },
        KeyRecord { event_type: 1, key_down: 0, virtual_key_code: 0x34, control_key_state: 0 },
        KeyRecord { event_type: 2, key_down: 1, virtual_key_code: 0x51, control_key_state: 0 },
        KeyRecord { event_type: 1, key_down: 1, virtual_key_code: 0x32, control_key_state: 0 },
        KeyRecord { event_type: 1, key_down: 1, virtual_key_code: 0x43, control_key_state: 0 },
    ];
    let events = key_events(&records);
    assert_eq!(events.len(), 3);
    assert!(matches!(events[0], UiEvent::FilterChar('4')));
    assert!(matches!(events[1], UiEvent::FilterChar('2')));
    assert!(matches!(events[2], UiEvent::ClearDiscovered));
    assert!(key_events(&Vec::new()).is_empty());
}

#[test]
fn console_modes_for_dashboard() {
    assert_eq!(raw_console_modes(0x0003, 0x01F7), (0x0007, 0x01F0));
    assert_eq!(raw_console_modes(0, 0), (4, 0));
}

#[test]
fn console_width_rules() {
    assert_eq!(window_width(false, 0, 0), 80);
    assert_eq!(window_width(true, 0, 119), 120);
    assert_eq!(window_width(true, 0, 9), 50);
    assert_eq!(window_width(true, 5, 3), usize::MAX);
}

#[test]
fn uptime_is_zero_padded() {
    assert_eq!(format_uptime(0), "00:00:00");
    assert_eq!(format_uptime(3661), "01:01:01");
    assert_eq!(format_uptime(86399), "23:59:59");
    assert_eq!(format_uptime(360000), "100:00:00");
}

#[test]
fn text_fits_width() {
    assert_eq!(fit_to_width("abc", 5), "abc  ");
    assert_eq!(fit_to_width("abcdef", 4), "abcd");
    assert_eq!(fit_to_width("ab", 0), "");
    assert_eq!(fit_to_width("█░", 3), "█░ ");
}

#[test]
fn box_borders() {
    assert_eq!(box_top_line("Status", 20), "┌─ Status ─────────┐\x1B[K");
    assert_eq!(box_top_line("A very long title", 10), "┌─ A very long title ┐\x1B[K");
    assert_eq!(box_bottom_line(6), "└────┘\x1B[K");
    assert_eq!(box_bottom_line(1), "└┘\x1B[K");
    assert_eq!(box_row_line(&Ansi::Bold, "hi"), "│ \x1B[1mhi\x1B[0m │\x1B[K");
}

#[test]
fn member_filter_reading() {
    assert_eq!(member_filter_minimum(""), Some(0));
    assert_eq!(member_filter_minimum("250"), Some(250));
    assert_eq!(member_filter_minimum("+7"), Some(7));
    assert_eq!(member_filter_minimum("2x"), Some(0));
    assert_eq!(member_filter_minimum("18446744073709551615"), Some(u64::MAX));
    assert_eq!(member_filter_minimum("99999999999999999999"), None);
}

#[test]
fn filter_keeps_large_communities() {
    let found = vec![
        FoundCommunity { community_id: 1, member_count: 5 },
        FoundCommunity { community_id: 2, member_count: 50 },
        FoundCommunity { community_id: 3, member_count: 10 },
    ];
    let kept = matching_communities(&found, 10);
    assert_eq!(kept, vec![found[1], found[2]]);
    assert_eq!(matching_communities(&found, 0), found);
}

#[test]
fn community_row_text() {
    let g = FoundCommunity { community_id: 1234, member_count: 1500 };
    assert_eq!(community_line(&g), "MATCH https://www.roblox.com/groups/1234       [Members: 1,500]");
}

#[test]
fn initial_dashboard_state() {
    let state = fresh_state();
    assert_eq!(state.log_messages, vec!["Initializing...".to_string()]);
    assert!(state.discovered_communities.is_empty());
    assert_eq!(state.current_scanned_id, 100);
    assert_eq!(state.starting_id, 100);
    assert_eq!(state.ending_id, 200);
    assert!(state.is_validating_proxies);
    assert_eq!(state.member_filter_query, "");
}

#[test]
fn events_update_dashboard() {
    let mut state = fresh_state();
    assert_eq!(state.apply_event(UiEvent::StatusUpdate { live_proxy_count: 12, current_id: 150 }), LoopAction::Continue);
    assert_eq!(state.live_proxy_count, 12);
    assert_eq!(state.current_scanned_id, 150);
    state.apply_event(UiEvent::ScanProgressUpdate { completed_count: 9, current_id: 120 });
    assert_eq!(state.scanned_items_count, 9);
    assert_eq!(state.current_scanned_id, 150);
    state.apply_event(UiEvent::ProxyValidationProgress { tested_count: 3, total_count: 10 });
    state.apply_event(UiEvent::ProxyValidationProgress { tested_count: 4, total_count: 0 });
    assert_eq!(state.proxies_tested_count, 4);
    assert_eq!(state.proxies_total_count, 10);
    state.apply_event(UiEvent::ProxyValidationComplete);
    assert!(!state.is_validating_proxies);
    state.apply_event(UiEvent::CommunityDiscovered(FoundCommunity { community_id: 5, member_count: 9 }));
    assert_eq!(state.discovered_communities.len(), 1);
    state.apply_event(UiEvent::ClearDiscovered);
    assert!(state.discovered_communities.is_empty());
    state.apply_event(UiEvent::FilterChar('4'));
    state.apply_event(UiEvent::FilterChar('2'));
    assert_eq!(state.member_filter_query, "42");
    state.apply_event(UiEvent::FilterBackspace);
    assert_eq!(state.member_filter_query, "4");
    state.apply_event(UiEvent::FilterBackspace);
    state.apply_event(UiEvent::FilterBackspace);
    assert_eq!(state.member_filter_query, "");
    assert_eq!(state.apply_event(UiEvent::RequestExit), LoopAction::Exit);
}

#[test]
fn log_keeps_newest_messages() {
    let mut state = fresh_state();
    for i in 0..250 {
        state.apply_event(UiEvent::LogMessage(format!("message {}", i)));
    }
    assert_eq!(state.log_messages.len(), LOG_CAPACITY);
    assert_eq!(state.log_messages[0], "message 50");
    assert_eq!(state.log_messages.last().unwrap(), "message 249");
}

#[test]
fn stage_progress_counts() {
    let mut state = fresh_state();
    state.apply_event(UiEvent::ProxyValidationProgress { tested_count: 3, total_count: 10 });
    let stage = state.stage_progress();
    assert!(stage.validating);
    assert_eq!((stage.current_value, stage.total_value), (3, 10));
    state.apply_event(UiEvent::ProxyValidationComplete);
    state.apply_event(UiEvent::ScanProgressUpdate { completed_count: 25, current_id: 125 });
    let stage = state.stage_progress();
    assert!(!stage.validating);
    assert_eq!((stage.current_value, stage.total_value), (25, 100));
}

#[test]
fn rendered_dashboard_lines() {
    let mut state = fresh_state();
    state.apply_event(UiEvent::StatusUpdate { live_proxy_count: 1500, current_id: 123456 });
    state.apply_event(UiEvent::ProxyValidationComplete);
    state.apply_event(UiEvent::CommunityDiscovered(FoundCommunity { community_id: 77, member_count: 3 }));
    state.apply_event(UiEvent::LogMessage("hello".to_string()));
    let lines = state.render_lines(60, 3661, 5, "  5.00% (5/100)");
    assert_eq!(lines.len(), 12);
    assert_eq!(lines[0], format!("┌─ Status {}┐\x1B[K", "─".repeat(49)));
    assert_eq!(
        lines[1],
        format!(
            "│ \x1B[1m{}\x1B[0m │\x1B[K",
            &"LIVE 1,500 | Target: 123,456 | Uptime: 01:01:01 | Filter: >=0"[..56]
        )
    );
    assert_eq!(lines[3], format!("┌─ Stage 2 / 2: Range Scan {}┐\x1B[K", "─".repeat(32)));
    let bar = format!("{}{}", "█".repeat(5), "░".repeat(23));
    assert_eq!(lines[4], format!("│ \x1B[38;2;0;220;255m{:<56}\x1B[0m │\x1B[K", format!("{} {}", bar, "  5.00% (5/100)")));
    assert_eq!(lines[6], format!("┌─ Claimable Communities (1) {}┐\x1B[K", "─".repeat(30)));
    assert_eq!(
        lines[7],
        format!(
            "│ \x1B[48;2;40;160;80m\x1B[38;2;0;0;0m{}\x1B[0m │\x1B[K",
            &"MATCH https://www.roblox.com/groups/77         [Members: 3]"[..56]
        )
    );
    assert_eq!(lines[9], format!("┌─ Console {}┐\x1B[K", "─".repeat(48)));
    assert_eq!(lines[10], format!("│ \x1B[38;2;0;220;255m > {:<53}\x1B[0m │\x1B[K", "hello"));
    assert_eq!(lines[11], format!("└{}┘\x1B[K", "─".repeat(58)));
}

#[test]
fn rendered_dashboard_empty_filter_result() {
    let mut state = fresh_state();
    state.apply_event(UiEvent::CommunityDiscovered(FoundCommunity { community_id: 77, member_count: 3 }));
    state.apply_event(UiEvent::FilterChar('9'));
    let lines = state.render_lines(120, 0, 0, "  0.00% (0/0)");
    assert_eq!(lines.len(), 12);
    assert!(lines[3].contains("Stage 1 / 2: Proxy Validation"));
    assert!(lines[6].contains("Claimable Communities (0)"));
    assert!(lines[7].contains(" [!] No claimable communities found yet..."));
    assert!(lines[1].contains("Filter: >=9"));
}

#[test]
fn validation_stays_complete() {
    let mut state = fresh_state();
    state.apply_event(UiEvent::ProxyValidationComplete);
    state.apply_event(UiEvent::ProxyValidationProgress { tested_count: 1, total_count: 2 });
    state.apply_event(UiEvent::LogMessage("later".to_string()));
    assert!(!state.is_validating_proxies);
}

#[test]
fn backspace_after_char_restores_query() {
    let mut state = fresh_state();
    state.apply_event(UiEvent::FilterChar('7'));
    let before = state.member_filter_query.clone();
    state.apply_event(UiEvent::FilterChar('3'));
    state.apply_event(UiEvent::FilterBackspace);
    assert_eq!(state.member_filter_query, before);
}

#[test]
fn query_beyond_u64_shows_no_community() {
    let mut state = fresh_state();
    state.apply_event(UiEvent::ProxyValidationComplete);
    state.apply_event(UiEvent::CommunityDiscovered(FoundCommunity { community_id: 1, member_count: 5 }));
    state.apply_event(UiEvent::CommunityDiscovered(FoundCommunity { community_id: 2, member_count: u64::MAX }));
    for c in "99999999999999999999".chars() {
        state.apply_event(UiEvent::FilterChar(c));
    }
    let lines = state.render_lines(120, 0, 0, "  0.00% (0/0)");
    assert!(lines[6].contains("Claimable Communities (0)"));
    assert!(lines[7].contains(" [!] No claimable communities found yet..."));
}
