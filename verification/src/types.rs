//! Domain values, the dashboard state and the events that change it.

use std::time::Instant;
use vstd::prelude::*;

verus! {

#[verifier::external_type_specification]
#[verifier::external_body]
pub struct ExInstant(Instant);

/// A community that can be claimed, with its member count.
#[derive(Clone, Copy, Debug, PartialEq, Eq)]
pub struct FoundCommunity {
    pub community_id: u64,
    pub member_count: u64,
}

/// The range still to scan: the last identifier reached and the end of the range.
#[derive(Clone, Copy, Debug, PartialEq, Eq)]
pub struct ProgressState {
    pub last_scanned_id: u64,
    pub ending_id: u64,
}

/// A message to the dashboard.
pub enum UiEvent {
    LogMessage(String),
    StatusUpdate { live_proxy_count: usize, current_id: u64 },
    ScanProgressUpdate { completed_count: usize, current_id: u64 },
    ProxyValidationProgress { tested_count: usize, total_count: usize },
    ProxyValidationComplete,
    CommunityDiscovered(FoundCommunity),
    FilterChar(char),
    FilterBackspace,
    ClearDiscovered,
    RequestExit,
}

/// A `UiEvent` with its text taken as a character sequence.
pub enum UiEventView {
    LogMessage(Seq<char>),
    StatusUpdate { live_proxy_count: usize, current_id: u64 },
    ScanProgressUpdate { completed_count: usize, current_id: u64 },
    ProxyValidationProgress { tested_count: usize, total_count: usize },
    ProxyValidationComplete,
    CommunityDiscovered(FoundCommunity),
    FilterChar(char),
    FilterBackspace,
    ClearDiscovered,
    RequestExit,
}

impl View for UiEvent {
    type V = UiEventView;

    open spec fn view(&self) -> UiEventView {
        match self {
            UiEvent::LogMessage(m) => UiEventView::LogMessage(m@),
            UiEvent::StatusUpdate { live_proxy_count, current_id } => UiEventView::StatusUpdate {
                live_proxy_count: *live_proxy_count,
                current_id: *current_id,
            },
            UiEvent::ScanProgressUpdate { completed_count, current_id } =>
                UiEventView::ScanProgressUpdate {
                completed_count: *completed_count,
                current_id: *current_id,
            },
            UiEvent::ProxyValidationProgress { tested_count, total_count } =>
                UiEventView::ProxyValidationProgress {
                tested_count: *tested_count,
                total_count: *total_count,
            },
            UiEvent::ProxyValidationComplete => UiEventView::ProxyValidationComplete,
            UiEvent::CommunityDiscovered(g) => UiEventView::CommunityDiscovered(*g),
            UiEvent::FilterChar(c) => UiEventView::FilterChar(*c),
            UiEvent::FilterBackspace => UiEventView::FilterBackspace,
            UiEvent::ClearDiscovered => UiEventView::ClearDiscovered,
            UiEvent::RequestExit => UiEventView::RequestExit,
        }
    }
}

/// The views of a list of events.
pub open spec fn events_view(events: Seq<UiEvent>) -> Seq<UiEventView> {
    events.map_values(|e: UiEvent| e@)
}

/// The views of a list of strings.
pub open spec fn strings_view(strings: Seq<String>) -> Seq<Seq<char>> {
    strings.map_values(|s: String| s@)
}

/// How many log messages the dashboard keeps.
pub const LOG_CAPACITY: usize = 200;

/// Everything the dashboard shows.
pub struct AppState {
    pub log_messages: Vec<String>,
    pub discovered_communities: Vec<FoundCommunity>,
    pub live_proxy_count: usize,
    pub current_scanned_id: u64,
    pub starting_id: u64,
    pub ending_id: u64,
    pub scanned_items_count: usize,
    pub member_filter_query: String,
    pub is_validating_proxies: bool,
    pub proxies_tested_count: usize,
    pub proxies_total_count: usize,
    pub app_start_time: Instant,
}

/// The dashboard state as values (the start time aside).
pub struct AppView {
    pub log_messages: Seq<Seq<char>>,
    pub discovered_communities: Seq<FoundCommunity>,
    pub live_proxy_count: usize,
    pub current_scanned_id: u64,
    pub starting_id: u64,
    pub ending_id: u64,
    pub scanned_items_count: usize,
    pub member_filter_query: Seq<char>,
    pub is_validating_proxies: bool,
    pub proxies_tested_count: usize,
    pub proxies_total_count: usize,
}

impl View for AppState {
    type V = AppView;

    open spec fn view(&self) -> AppView {
        AppView {
            log_messages: strings_view(self.log_messages@),
            discovered_communities: self.discovered_communities@,
            live_proxy_count: self.live_proxy_count,
            current_scanned_id: self.current_scanned_id,
            starting_id: self.starting_id,
            ending_id: self.ending_id,
            scanned_items_count: self.scanned_items_count,
            member_filter_query: self.member_filter_query@,
            is_validating_proxies: self.is_validating_proxies,
            proxies_tested_count: self.proxies_tested_count,
            proxies_total_count: self.proxies_total_count,
        }
    }
}

/// What the dashboard loop does after an event.
#[derive(Clone, Copy, Debug, PartialEq, Eq)]
pub enum LoopAction {
    Continue,
    Exit,
}

pub open spec fn max_u64(a: u64, b: u64) -> u64 {
    if b > a {
        b
    } else {
        a
    }
}

/// The log after `m` is added: at most `LOG_CAPACITY` messages, the oldest dropped first.
pub open spec fn log_after(log: Seq<Seq<char>>, m: Seq<char>) -> Seq<Seq<char>> {
    let l = log.push(m);
    if l.len() > LOG_CAPACITY {
        l.drop_first()
    } else {
        l
    }
}

/// The dashboard state after one event.
pub open spec fn step(s: AppView, e: UiEventView) -> AppView {
    match e {
        UiEventView::LogMessage(m) => AppView { log_messages: log_after(s.log_messages, m), ..s },
        UiEventView::StatusUpdate { live_proxy_count, current_id } => AppView {
            live_proxy_count,
            current_scanned_id: max_u64(s.current_scanned_id, current_id),
            ..s
        },
        UiEventView::ScanProgressUpdate { completed_count, current_id } => AppView {
            scanned_items_count: completed_count,
            current_scanned_id: max_u64(s.current_scanned_id, current_id),
            ..s
        },
        UiEventView::ProxyValidationProgress { tested_count, total_count } => AppView {
            proxies_tested_count: tested_count,
            proxies_total_count: if total_count > 0 {
                total_count
            } else {
                s.proxies_total_count
            },
            ..s
        },
        UiEventView::ProxyValidationComplete => AppView { is_validating_proxies: false, ..s },
        UiEventView::CommunityDiscovered(g) => AppView {
            discovered_communities: s.discovered_communities.push(g),
            ..s
        },
        UiEventView::FilterChar(c) => AppView {
            member_filter_query: s.member_filter_query.push(c),
            ..s
        },
        UiEventView::FilterBackspace => AppView {
            member_filter_query: if s.member_filter_query.len() > 0 {
                s.member_filter_query.drop_last()
            } else {
                s.member_filter_query
            },
            ..s
        },
        UiEventView::ClearDiscovered => AppView { discovered_communities: seq![], ..s },
        UiEventView::RequestExit => s,
    }
}

/// What the loop does after an event: it stops on an exit request.
pub open spec fn action_for(e: UiEventView) -> LoopAction {
    if e is RequestExit {
        LoopAction::Exit
    } else {
        LoopAction::Continue
    }
}

/// The dashboard state after a run of events, applied in order.
pub open spec fn run(s: AppView, es: Seq<UiEventView>) -> AppView
    decreases es.len(),
{
    if es.len() == 0 {
        s
    } else {
        run(step(s, es[0]), es.drop_first())
    }
}

impl AppState {
    /// The dashboard at start-up, for the range that `progress` describes.
    pub fn initial(progress: ProgressState, app_start_time: Instant) -> (r: AppState)
        ensures
            r@.log_messages == seq![
                "Initializing..."@],
            r@.discovered_communities == Seq::<FoundCommunity>::empty(),
            r@.live_proxy_count == 0,
            r@.current_scanned_id == progress.last_scanned_id,
            r@.starting_id == progress.last_scanned_id,
            r@.ending_id == progress.ending_id,
            r@.scanned_items_count == 0,
            r@.member_filter_query == Seq::<char>::empty(),
            r@.is_validating_proxies,
            r@.proxies_tested_count == 0,
            r@.proxies_total_count == 0,
            r.app_start_time == app_start_time,
    {
        let mut log_messages: Vec<String> = Vec::new();
        log_messages.push(String::from_str("Initializing..."));
        proof {
            assert(strings_view(log_messages@) =~= seq!["Initializing..."@]);
        }
        AppState {
            log_messages,
            discovered_communities: Vec::new(),
            live_proxy_count: 0,
            current_scanned_id: progress.last_scanned_id,
            starting_id: progress.last_scanned_id,
            ending_id: progress.ending_id,
            scanned_items_count: 0,
            member_filter_query: String::new(),
            is_validating_proxies: true,
            proxies_tested_count: 0,
            proxies_total_count: 0,
            app_start_time,
        }
    }

    /// Applies one event to the dashboard state and says whether the loop goes on.
    pub fn apply_event(&mut self, event: UiEvent) -> (a: LoopAction)
        ensures
            final(self)@ == step(old(self)@, event@),
            final(self).app_start_time == old(self).app_start_time,
            a == action_for(event@),
    {
        let ghost e = event@;
        match event {
            UiEvent::LogMessage(msg) => {
                let ghost before = self.log_messages@;
                let ghost m = msg@;
                self.log_messages.push(msg);
                proof {
                    assert(strings_view(self.log_messages@) =~= strings_view(before).push(m));
                }
                if self.log_messages.len() > LOG_CAPACITY {
                    let ghost full = self.log_messages@;
                    self.log_messages.remove(0);
                    proof {
                        assert(strings_view(self.log_messages@) =~= strings_view(full).drop_first());
                    }
                }
                LoopAction::Continue
            },
            UiEvent::StatusUpdate { live_proxy_count, current_id } => {
                self.live_proxy_count = live_proxy_count;
                if current_id > self.current_scanned_id {
                    self.current_scanned_id = current_id;
                }
                LoopAction::Continue
            },
            UiEvent::ScanProgressUpdate { completed_count, current_id } => {
                self.scanned_items_count = completed_count;
                if current_id > self.current_scanned_id {
                    self.current_scanned_id = current_id;
                }
                LoopAction::Continue
            },
            UiEvent::ProxyValidationProgress { tested_count, total_count } => {
                self.proxies_tested_count = tested_count;
                if total_count > 0 {
                    self.proxies_total_count = total_count;
                }
                LoopAction::Continue
            },
            UiEvent::ProxyValidationComplete => {
                self.is_validating_proxies = false;
                LoopAction::Continue
            },
            UiEvent::CommunityDiscovered(group) => {
                self.discovered_communities.push(group);
                LoopAction::Continue
            },
            UiEvent::FilterChar(character) => {
                self.member_filter_query.push(character);
                LoopAction::Continue
            },
            UiEvent::FilterBackspace => {
                self.member_filter_query.pop();
                LoopAction::Continue
            },
            UiEvent::ClearDiscovered => {
                self.discovered_communities.clear();
                LoopAction::Continue
            },
            UiEvent::RequestExit => LoopAction::Exit,
        }
    }
}


/// The dashboard never holds more than `LOG_CAPACITY` log messages: an event keeps a
/// log within that bound within it.
pub proof fn law_log_stays_bounded(s: AppView, e: UiEventView)
    requires
        s.log_messages.len() <= LOG_CAPACITY,
    ensures
        step(s, e).log_messages.len() <= LOG_CAPACITY,
{
}

/// Over any run of events, a log that starts within `LOG_CAPACITY` stays within it.
pub proof fn law_run_keeps_log_bounded(s: AppView, es: Seq<UiEventView>)
    requires
        s.log_messages.len() <= LOG_CAPACITY,
    ensures
        run(s, es).log_messages.len() <= LOG_CAPACITY,
    decreases es.len(),
{
    if es.len() > 0 {
        law_log_stays_bounded(s, es[0]);
        law_run_keeps_log_bounded(step(s, es[0]), es.drop_first());
    }
}

/// A log message becomes the newest entry; below capacity the older ones all stay, at
/// capacity only the oldest one leaves.
pub proof fn law_log_message_is_newest(s: AppView, m: Seq<char>)
    requires
        s.log_messages.len() <= LOG_CAPACITY,
    ensures
        step(s, UiEventView::LogMessage(m)).log_messages.last() == m,
        s.log_messages.len() < LOG_CAPACITY ==> step(s, UiEventView::LogMessage(m)).log_messages
            == s.log_messages.push(m),
        s.log_messages.len() == LOG_CAPACITY ==> step(s, UiEventView::LogMessage(m)).log_messages
            == s.log_messages.drop_first().push(m),
{
    let l = s.log_messages.push(m);
    if l.len() > LOG_CAPACITY {
        assert(l.drop_first() =~= s.log_messages.drop_first().push(m));
    }
}

/// The highest identifier reached never goes down, whatever the event.
pub proof fn law_scanned_id_never_decreases(s: AppView, e: UiEventView)
    ensures
        step(s, e).current_scanned_id >= s.current_scanned_id,
{
}

/// Over any run of events the highest identifier reached never goes down.
pub proof fn law_run_scanned_id_never_decreases(s: AppView, es: Seq<UiEventView>)
    ensures
        run(s, es).current_scanned_id >= s.current_scanned_id,
    decreases es.len(),
{
    if es.len() > 0 {
        law_run_scanned_id_never_decreases(step(s, es[0]), es.drop_first());
    }
}

/// A backspace undoes the filter character typed just before it.
pub proof fn law_backspace_undoes_filter_char(s: AppView, c: char)
    ensures
        step(step(s, UiEventView::FilterChar(c)), UiEventView::FilterBackspace) == s,
{
    assert(s.member_filter_query.push(c).drop_last() =~= s.member_filter_query);
}

/// An exit request stops the loop and changes nothing.
pub proof fn law_exit_request_stops(s: AppView)
    ensures
        step(s, UiEventView::RequestExit) == s,
        action_for(UiEventView::RequestExit) == LoopAction::Exit,
{
}

/// Every other event lets the loop go on.
pub proof fn law_other_events_continue(e: UiEventView)
    requires
        !(e is RequestExit),
    ensures
        action_for(e) == LoopAction::Continue,
{
}

/// Once proxy validation is complete, no event makes it start again.
pub proof fn law_validation_complete_is_final(s: AppView, es: Seq<UiEventView>)
    requires
        !s.is_validating_proxies,
    ensures
        !run(s, es).is_validating_proxies,
    decreases es.len(),
{
    if es.len() > 0 {
        law_validation_complete_is_final(step(s, es[0]), es.drop_first());
    }
}

/// Clearing empties the list of discoveries; a discovery after it is the only entry.
pub proof fn law_clear_then_discover(s: AppView, g: FoundCommunity)
    ensures
        step(s, UiEventView::ClearDiscovered).discovered_communities.len() == 0,
        step(step(s, UiEventView::ClearDiscovered), UiEventView::CommunityDiscovered(g)).discovered_communities
            == seq![g],
{
    assert(Seq::<FoundCommunity>::empty().push(g) =~= seq![g]);
}


/// A discovery is added after the earlier ones, which all stay, in order; nothing else
/// in the dashboard changes.
pub proof fn law_discovery_appends(s: AppView, g: FoundCommunity)
    ensures
        ({
            let t = step(s, UiEventView::CommunityDiscovered(g));
            &&& t.discovered_communities.len() == s.discovered_communities.len() + 1
            &&& forall|i: int|
                0 <= i < s.discovered_communities.len() ==> t.discovered_communities[i]
                    == s.discovered_communities[i]
            &&& t.discovered_communities[s.discovered_communities.len() as int] == g
            &&& t.log_messages == s.log_messages
            &&& t.member_filter_query == s.member_filter_query
            &&& t.current_scanned_id == s.current_scanned_id
        }),
{
}

/// Over a run of discovery events, the list grows by exactly those discoveries, in
/// order, after the ones there before.
pub proof fn law_discoveries_accumulate(s: AppView, gs: Seq<FoundCommunity>)
    ensures
        run(s, gs.map_values(|g: FoundCommunity| UiEventView::CommunityDiscovered(g))).discovered_communities
            == s.discovered_communities + gs,
    decreases gs.len(),
{
    let es = gs.map_values(|g: FoundCommunity| UiEventView::CommunityDiscovered(g));
    if gs.len() == 0 {
        assert(s.discovered_communities + gs =~= s.discovered_communities);
    } else {
        let t = step(s, es[0]);
        assert(es.drop_first() =~= gs.drop_first().map_values(
            |g: FoundCommunity| UiEventView::CommunityDiscovered(g),
        ));
        law_discoveries_accumulate(t, gs.drop_first());
        assert(t.discovered_communities == s.discovered_communities.push(gs[0]));
        assert(s.discovered_communities.push(gs[0]) + gs.drop_first() =~= s.discovered_communities
            + gs);
    }
}


/// What each event does to the dashboard, field by field: status and scan reports set
/// their count and raise the highest identifier to the one reported when it is higher;
/// validation reports set the tested count and, when not zero, the total; completion
/// ends validation; a filter character is typed at the end of the query; a backspace
/// removes the query's last character.
pub proof fn law_event_effects(s: AppView, e: UiEventView)
    ensures
        e matches UiEventView::StatusUpdate { live_proxy_count, current_id } ==> {
            let t = step(s, e);
            &&& t.live_proxy_count == live_proxy_count
            &&& t.current_scanned_id >= current_id
            &&& t.current_scanned_id >= s.current_scanned_id
            &&& (t.current_scanned_id == current_id || t.current_scanned_id == s.current_scanned_id)
            &&& t.discovered_communities == s.discovered_communities
            &&& t.log_messages == s.log_messages
        },
        e matches UiEventView::ScanProgressUpdate { completed_count, current_id } ==> {
            let t = step(s, e);
            &&& t.scanned_items_count == completed_count
            &&& t.current_scanned_id >= current_id
            &&& t.current_scanned_id >= s.current_scanned_id
            &&& (t.current_scanned_id == current_id || t.current_scanned_id == s.current_scanned_id)
            &&& t.live_proxy_count == s.live_proxy_count
        },
        e matches UiEventView::ProxyValidationProgress { tested_count, total_count } ==> {
            let t = step(s, e);
            &&& t.proxies_tested_count == tested_count
            &&& total_count > 0 ==> t.proxies_total_count == total_count
            &&& total_count == 0 ==> t.proxies_total_count == s.proxies_total_count
            &&& t.is_validating_proxies == s.is_validating_proxies
        },
        e is ProxyValidationComplete ==> !step(s, e).is_validating_proxies,
        e matches UiEventView::FilterChar(c) ==> step(s, e).member_filter_query.len()
            == s.member_filter_query.len() + 1 && step(s, e).member_filter_query.last() == c
            && step(s, e).member_filter_query.drop_last() == s.member_filter_query,
        e is FilterBackspace && s.member_filter_query.len() > 0 ==> step(s, e).member_filter_query
            + seq![s.member_filter_query.last()] == s.member_filter_query,
        e is FilterBackspace && s.member_filter_query.len() == 0 ==> step(
            s,
            e,
        ).member_filter_query.len() == 0,
        !(e is LogMessage) ==> step(s, e).log_messages == s.log_messages,
        !(e is CommunityDiscovered) && !(e is ClearDiscovered) ==> step(
            s,
            e,
        ).discovered_communities == s.discovered_communities,
{
    if e is FilterChar {
        assert(s.member_filter_query.push(e->FilterChar_0).drop_last() =~= s.member_filter_query);
    }
    if e is FilterBackspace && s.member_filter_query.len() > 0 {
        assert(s.member_filter_query.drop_last() + seq![s.member_filter_query.last()]
            =~= s.member_filter_query);
    }
}

} // verus!
