//! The console front end's decisions: which key does what, how wide the window is, and
//! the text of every line of the dashboard.

use crate::shared::{ansi_text, format_number, formatted_number, Ansi};
use crate::text::{
    all_digits, chars_of, decimal, digit_char, digit_char_of, digit_end, digit_value, digits_value,
    is_digit, lemma_digit_char_value,
    lemma_digit_run, parse_unsigned_in, push_chars, push_decimal, push_repeat,
    repeat_char,
};
use crate::types::{events_view, strings_view, AppState, AppView, FoundCommunity, UiEvent, UiEventView};
use vstd::utf8::encode_utf8;
use vstd::prelude::*;

verus! {

/// The digit character of a number-row key (`0x30` is `0`, ..., `0x39` is `9`).
pub open spec fn digit_key_char(virtual_key_code: u16) -> char {
    digit_char((virtual_key_code - 0x30) as nat)
}

/// What a console input record means for the dashboard: key presses only; `Q`, `Esc`
/// and `Ctrl+C` ask to exit, `C` clears the discoveries, `Backspace` edits the member
/// filter, and the number-row keys `0` to `9` type their digit into it.
pub open spec fn key_action(
    event_type: u16,
    key_down: i32,
    virtual_key_code: u16,
    control_key_state: u32,
) -> Option<UiEventView> {
    if event_type != 1 || key_down == 0 {
        None
    } else if virtual_key_code == 0x51 || virtual_key_code == 0x1B {
        Some(UiEventView::RequestExit)
    } else if virtual_key_code == 0x43 && (control_key_state & (0x0008u32 | 0x0004u32)) != 0 {
        Some(UiEventView::RequestExit)
    } else if virtual_key_code == 0x43 {
        Some(UiEventView::ClearDiscovered)
    } else if virtual_key_code == 0x08 {
        Some(UiEventView::FilterBackspace)
    } else if 0x30 <= virtual_key_code <= 0x39 {
        Some(UiEventView::FilterChar(digit_key_char(virtual_key_code)))
    } else {
        None
    }
}

/// The dashboard event for one console input record, if it has one.
pub fn key_event(event_type: u16, key_down: i32, virtual_key_code: u16, control_key_state: u32) -> (r:
    Option<UiEvent>)
    ensures
        r matches Some(e) ==> key_action(event_type, key_down, virtual_key_code, control_key_state)
            == Some(e@),
        r is None ==> key_action(event_type, key_down, virtual_key_code, control_key_state) is None,
{
    if event_type != 1 || key_down == 0 {
        return None;
    }
    let control_pressed = (control_key_state & (0x0008u32 | 0x0004u32)) != 0;
    if virtual_key_code == 0x51 || virtual_key_code == 0x1B {
        Some(UiEvent::RequestExit)
    } else if virtual_key_code == 0x43 && control_pressed {
        Some(UiEvent::RequestExit)
    } else if virtual_key_code == 0x43 {
        Some(UiEvent::ClearDiscovered)
    } else if virtual_key_code == 0x08 {
        Some(UiEvent::FilterBackspace)
    } else if 0x30 <= virtual_key_code && virtual_key_code <= 0x39 {
        Some(UiEvent::FilterChar(digit_char_of((virtual_key_code - 0x30) as u64)))
    } else {
        None
    }
}

/// The fields of a console input record that decide its event.
#[derive(Clone, Copy, Debug, PartialEq, Eq)]
pub struct KeyRecord {
    pub event_type: u16,
    pub key_down: i32,
    pub virtual_key_code: u16,
    pub control_key_state: u32,
}

/// The event of one record, as a sequence of none or one event.
pub open spec fn record_events(k: KeyRecord) -> Seq<UiEventView> {
    match key_action(k.event_type, k.key_down, k.virtual_key_code, k.control_key_state) {
        Some(e) => seq![e],
        None => seq![],
    }
}

/// The events of records read in order: each record's event, in the order read.
pub open spec fn records_events(records: Seq<KeyRecord>) -> Seq<UiEventView>
    decreases records.len(),
{
    if records.len() == 0 {
        seq![]
    } else {
        records_events(records.drop_last()) + record_events(records.last())
    }
}

/// The events for the records of one console read, in order.
pub fn key_events(records: &Vec<KeyRecord>) -> (r: Vec<UiEvent>)
    ensures
        events_view(r@) == records_events(records@),
{
    let mut events: Vec<UiEvent> = Vec::new();
    let mut i: usize = 0;
    while i < records.len()
        invariant
            i <= records@.len(),
            events_view(events@) == records_events(records@.take(i as int)),
        decreases records@.len() - i,
    {
        let k = records[i];
        let ghost before = events@;
        proof {
            assert(records@.take(i + 1).drop_last() =~= records@.take(i as int));
        }
        match key_event(k.event_type, k.key_down, k.virtual_key_code, k.control_key_state) {
            Some(e) => {
                events.push(e);
                proof {
                    assert(events_view(events@) =~= events_view(before) + record_events(k));
                }
            },
            None => {
                proof {
                    assert(events_view(before) + record_events(k) =~= events_view(before));
                }
            },
        }
        i = i + 1;
    }
    proof {
        assert(records@.take(records@.len() as int) =~= records@);
    }
    events
}

/// Records read in two parts give the events of the first part, then those of the
/// second: nothing is lost, added or reordered between reads.
pub proof fn law_records_events_in_order(a: Seq<KeyRecord>, b: Seq<KeyRecord>)
    ensures
        records_events(a + b) == records_events(a) + records_events(b),
    decreases b.len(),
{
    if b.len() == 0 {
        assert(a + b =~= a);
        assert(records_events(b) =~= Seq::<UiEventView>::empty());
        assert(records_events(a) + records_events(b) =~= records_events(a));
    } else {
        assert((a + b).drop_last() =~= a + b.drop_last());
        law_records_events_in_order(a, b.drop_last());
        assert(records_events(a) + records_events(b.drop_last()) + record_events(b.last())
            =~= records_events(a) + (records_events(b.drop_last()) + record_events(b.last())));
    }
}

/// The console modes for the dashboard: virtual-terminal output turned on
/// (`ENABLE_VIRTUAL_TERMINAL_PROCESSING`, 4), and line input, echo and processed input
/// turned off (`ENABLE_LINE_INPUT` 2, `ENABLE_ECHO_INPUT` 4, `ENABLE_PROCESSED_INPUT` 1).
pub fn raw_console_modes(output_mode: u32, input_mode: u32) -> (r: (u32, u32))
    ensures
        r.0 == output_mode | 4u32,
        r.1 == input_mode & !(2u32 | 4u32 | 1u32),
{
    (output_mode | 4u32, input_mode & !(2u32 | 4u32 | 1u32))
}

/// The console width in columns: from the window rectangle where it could be read, at
/// least 50 (a negative width wraps around as a cast to `usize` does); 80 otherwise.
pub open spec fn window_columns(info_ok: bool, left: i16, right: i16) -> int {
    let w = right - left + 1;
    if !info_ok {
        80
    } else if w < 0 {
        usize::MAX + 1 + w
    } else if w < 50 {
        50
    } else {
        w
    }
}

/// The console width from the result of reading the screen buffer information.
pub fn window_width(info_ok: bool, left: i16, right: i16) -> (r: usize)
    requires
        info_ok ==> i16::MIN <= right - left <= i16::MAX,
        info_ok ==> i16::MIN <= right - left + 1 <= i16::MAX,
    ensures
        r == window_columns(info_ok, left, right),
{
    if !info_ok {
        return 80;
    }
    let w: i16 = right - left + 1;
    // A negative width wraps around, as the sign-extending cast of `i16` to `usize` does.
    let width: usize = if w < 0 {
        usize::MAX - ((-1 - w) as usize)
    } else {
        w as usize
    };
    if width < 50 {
        50
    } else {
        width
    }
}


/// `s` cut or padded with spaces to exactly `width` characters (`{:<width$}` followed by
/// taking the first `width` characters).
pub open spec fn fit_width(s: Seq<char>, width: nat) -> Seq<char> {
    if s.len() >= width {
        s.take(width as int)
    } else {
        s + repeat_char(' ', (width - s.len()) as nat)
    }
}

/// `s` padded with spaces on the right to at least `width` characters (`{:<width$}`).
pub open spec fn pad_right(s: Seq<char>, width: nat) -> Seq<char> {
    if s.len() >= width {
        s
    } else {
        s + repeat_char(' ', (width - s.len()) as nat)
    }
}

/// `s` padded with zeros on the left to at least two characters (`{:02}`).
pub open spec fn zero_pad2(s: Seq<char>) -> Seq<char> {
    if s.len() >= 2 {
        s
    } else {
        repeat_char('0', (2 - s.len()) as nat) + s
    }
}

/// Appends `v[0..]` cut or padded to `width` characters.
fn push_fit(out: &mut String, v: &Vec<char>, width: usize)
    ensures
        final(out)@ == old(out)@ + fit_width(v@, width as nat),
{
    let ghost start = out@;
    if v.len() >= width {
        push_chars(out, v, 0, width);
        proof {
            assert(v@.subrange(0, width as int) =~= v@.take(width as int));
        }
    } else {
        push_chars(out, v, 0, v.len());
        push_repeat(out, ' ', width - v.len());
        proof {
            assert(v@.subrange(0, v@.len() as int) =~= v@);
            assert(out@ =~= start + fit_width(v@, width as nat));
        }
    }
}

/// Appends `v[0..]` padded to at least `width` characters.
fn push_padded(out: &mut String, v: &Vec<char>, width: usize)
    ensures
        final(out)@ == old(out)@ + pad_right(v@, width as nat),
{
    let ghost start = out@;
    push_chars(out, v, 0, v.len());
    proof {
        assert(v@.subrange(0, v@.len() as int) =~= v@);
    }
    if v.len() < width {
        push_repeat(out, ' ', width - v.len());
    }
    proof {
        assert(out@ =~= start + pad_right(v@, width as nat));
    }
}

/// `text` cut or padded with spaces to exactly `width` characters.
pub fn fit_to_width(text: &str, width: usize) -> (r: String)
    ensures
        r@ == fit_width(text@, width as nat),
{
    let v = chars_of(text);
    let mut r = String::new();
    push_fit(&mut r, &v, width);
    proof {
        assert(r@ =~= fit_width(text@, width as nat));
    }
    r
}

/// Appends `n` written with at least two digits.
fn push_two_digits(out: &mut String, n: u64)
    ensures
        final(out)@ == old(out)@ + zero_pad2(decimal(n as nat)),
{
    let ghost start = out@;
    let digits = crate::text::decimal_chars(n);
    if digits.len() < 2 {
        push_repeat(out, '0', 2 - digits.len());
    }
    push_chars(out, &digits, 0, digits.len());
    proof {
        assert(digits@.subrange(0, digits@.len() as int) =~= digits@);
        assert(out@ =~= start + zero_pad2(decimal(n as nat)));
    }
}

/// The running time as `HH:MM:SS` (hours may take more than two digits).
pub open spec fn uptime_text(elapsed_seconds: u64) -> Seq<char> {
    zero_pad2(decimal((elapsed_seconds / 3600) as nat)) + seq![':'] + zero_pad2(
        decimal(((elapsed_seconds % 3600) / 60) as nat),
    ) + seq![':'] + zero_pad2(decimal((elapsed_seconds % 60) as nat))
}

/// Formats a running time in seconds as `HH:MM:SS`.
pub fn format_uptime(elapsed_seconds: u64) -> (r: String)
    ensures
        r@ == uptime_text(elapsed_seconds),
{
    let mut r = String::new();
    push_two_digits(&mut r, elapsed_seconds / 3_600);
    r.push(':');
    push_two_digits(&mut r, (elapsed_seconds % 3_600) / 60);
    r.push(':');
    push_two_digits(&mut r, elapsed_seconds % 60);
    proof {
        assert(r@ =~= uptime_text(elapsed_seconds));
    }
    r
}

/// The top border of a box titled `title` (`title_bytes` long in UTF-8) across
/// `total_width` columns.
pub open spec fn box_top_text(title: Seq<char>, title_bytes: nat, total_width: nat) -> Seq<
    char,
> {
    let border = if total_width > title_bytes + 5 {
        (total_width - title_bytes - 5) as nat
    } else {
        0
    };
    "┌─ "@ + title + " "@ + repeat_char('─', border) + "┐"@ + "\x1B[K"@
}

/// The bottom border of a box across `total_width` columns.
pub open spec fn box_bottom_text(total_width: nat) -> Seq<char> {
    let border = if total_width > 2 {
        (total_width - 2) as nat
    } else {
        0
    };
    "└"@ + repeat_char('─', border) + "┘"@ + "\x1B[K"@
}

/// A row of a box: the body in the given style between the side borders.
pub open spec fn box_row_text(style: Seq<char>, body: Seq<char>) -> Seq<char> {
    "│ "@ + style + body + "\x1B[0m"@ + " │"@ + "\x1B[K"@
}

/// The top border line of a box.
pub fn box_top_line(title: &str, total_width: usize) -> (r: String)
    ensures
        r@ == box_top_text(title@, title.len() as nat, total_width as nat),
{
    let mut r = String::from_str("┌─ ");
    r.append(title);
    r.append(" ");
    let border_len = total_width.saturating_sub(title.len()).saturating_sub(5);
    push_repeat(&mut r, '─', border_len);
    r.append("┐");
    r.append("\x1B[K");
    r
}

/// The bottom border line of a box.
pub fn box_bottom_line(total_width: usize) -> (r: String)
    ensures
        r@ == box_bottom_text(total_width as nat),
{
    let mut r = String::from_str("└");
    push_repeat(&mut r, '─', total_width.saturating_sub(2));
    r.append("┘");
    r.append("\x1B[K");
    r
}

/// A row of a box with `body` in `style`.
pub fn box_row_line(style: &Ansi, body: &str) -> (r: String)
    ensures
        r@ == box_row_text(ansi_text(*style), body@),
{
    let mut r = String::from_str("│ ");
    let code = style.as_text();
    r.append(code.as_str());
    r.append(body);
    r.append("\x1B[0m");
    r.append(" │");
    r.append("\x1B[K");
    r
}


/// `a - b`, or 0 where `b` is larger.
pub open spec fn sat_sub(a: nat, b: nat) -> nat {
    if a > b {
        (a - b) as nat
    } else {
        0
    }
}

/// The member count that the filter query asks for: the number that the query writes
/// (an optional `+`, then decimal digits), however large; 0 where it writes no number.
pub open spec fn member_threshold(query: Seq<char>) -> nat {
    let body = if query.len() > 0 && query[0] == '+' {
        query.drop_first()
    } else {
        query
    };
    if body.len() > 0 && all_digits(body) {
        digits_value(body)
    } else {
        0
    }
}

/// Reads the member filter query: `Some` of the count it asks for where that fits in a
/// `u64`, `None` where it is larger than any `u64` (and so than any member count).
pub fn member_filter_minimum(query: &str) -> (r: Option<u64>)
    ensures
        r matches Some(m) ==> member_threshold(query@) == m as nat,
        r is None ==> member_threshold(query@) > u64::MAX,
{
    let v = chars_of(query);
    let n = v.len();
    proof {
        assert(v@.subrange(0, n as int) =~= query@);
    }
    let mut start: usize = 0;
    if n > 0 && v[0] == '+' {
        start = 1;
    }
    let ghost body = v@.subrange(start as int, n as int);
    proof {
        if n > 0 && v@[0] == '+' {
            assert(body =~= query@.drop_first());
        } else {
            assert(body =~= query@);
        }
    }
    if start == n {
        return Some(0);
    }
    let d = digit_end(&v, start, n);
    proof {
        lemma_digit_run(body);
    }
    if d != n {
        proof {
            assert(!all_digits(body)) by {
                assert(!is_digit(body[(d - start) as int]));
            }
        }
        return Some(0);
    }
    proof {
        assert(body.take(body.len() as int) =~= body);
    }
    match parse_unsigned_in(&v, 0, n, u64::MAX) {
        Some(m) => Some(m),
        None => None,
    }
}

/// The discoveries with at least `minimum` members, in order.
pub open spec fn matching_of(found: Seq<FoundCommunity>, minimum: nat) -> Seq<FoundCommunity>
    decreases found.len(),
{
    if found.len() == 0 {
        seq![]
    } else {
        let m = matching_of(found.drop_last(), minimum);
        if found.last().member_count >= minimum {
            m.push(found.last())
        } else {
            m
        }
    }
}

/// No discovery has more members than any `u64`.
proof fn lemma_matching_beyond_u64(found: Seq<FoundCommunity>, minimum: nat)
    requires
        minimum > u64::MAX,
    ensures
        matching_of(found, minimum).len() == 0,
    decreases found.len(),
{
    if found.len() > 0 {
        lemma_matching_beyond_u64(found.drop_last(), minimum);
    }
}

/// The member filter shows exactly the discoveries with at least `minimum` members:
/// every one it shows has that many, and every one that has that many is shown.
pub proof fn law_filter_shows_large_enough(found: Seq<FoundCommunity>, minimum: nat)
    ensures
        forall|i: int|
            0 <= i < matching_of(found, minimum).len() ==> (#[trigger] matching_of(
                found,
                minimum,
            )[i]).member_count >= minimum,
        forall|j: int|
            0 <= j < found.len() && found[j].member_count >= minimum ==> matching_of(
                found,
                minimum,
            ).contains(#[trigger] found[j]),
        matching_of(found, minimum).len() <= found.len(),
    decreases found.len(),
{
    if found.len() > 0 {
        let rest = found.drop_last();
        law_filter_shows_large_enough(rest, minimum);
        let m = matching_of(rest, minimum);
        assert forall|j: int|
            0 <= j < found.len() && found[j].member_count >= minimum implies matching_of(
                found,
                minimum,
            ).contains(#[trigger] found[j]) by {
            if j < found.len() - 1 {
                assert(found[j] == rest[j]);
                let k = choose|k: int| 0 <= k < m.len() && m[k] == rest[j];
                if found.last().member_count >= minimum {
                    assert(m.push(found.last())[k] == found[j]);
                }
            } else {
                assert(m.push(found.last())[m.len() as int] == found[j]);
            }
        }
    }
}

/// The filter keeps, in order, exactly the discoveries with at least `minimum` members
/// (`Seq::filter` by that test); an empty query's 0 keeps them all.
pub proof fn law_filter_is_seq_filter(found: Seq<FoundCommunity>, minimum: nat)
    ensures
        matching_of(found, minimum) == found.filter(
            |g: FoundCommunity| g.member_count >= minimum,
        ),
        matching_of(found, 0) == found,
    decreases found.len(),
{
    reveal(Seq::filter);
    if found.len() > 0 {
        law_filter_is_seq_filter(found.drop_last(), minimum);
        assert(found.drop_last().push(found.last()) =~= found);
    }
}

/// The discoveries that pass the member filter, in order.
pub fn matching_communities(found: &Vec<FoundCommunity>, minimum: u64) -> (r: Vec<FoundCommunity>)
    ensures
        r@ == matching_of(found@, minimum as nat),
{
    let mut r: Vec<FoundCommunity> = Vec::new();
    let mut i: usize = 0;
    while i < found.len()
        invariant
            i <= found@.len(),
            r@ == matching_of(found@.take(i as int), minimum as nat),
        decreases found@.len() - i,
    {
        proof {
            assert(found@.take(i + 1).drop_last() =~= found@.take(i as int));
        }
        let g = found[i];
        if g.member_count >= minimum {
            r.push(g);
        }
        i = i + 1;
    }
    proof {
        assert(found@.take(found@.len() as int) =~= found@);
    }
    r
}

/// The text of the status row.
pub open spec fn status_text(s: AppView, uptime: Seq<char>) -> Seq<char> {
    "LIVE "@ + formatted_number(s.live_proxy_count as nat) + " | Target: "@ + formatted_number(
        (s.current_scanned_id as usize) as nat,
    ) + " | Uptime: "@ + uptime + " | Filter: >="@ + (if s.member_filter_query.len() == 0 {
        "0"@
    } else {
        s.member_filter_query
    })
}

/// The text of the row of one discovered community.
pub open spec fn community_text(g: FoundCommunity) -> Seq<char> {
    "MATCH https://www.roblox.com/groups/"@ + pad_right(decimal(g.community_id as nat), 10)
        + " [Members: "@ + formatted_number((g.member_count as usize) as nat) + "]"@
}

/// The row text for one discovered community.
pub fn community_line(g: &FoundCommunity) -> (r: String)
    ensures
        r@ == community_text(*g),
{
    let mut r = String::from_str("MATCH https://www.roblox.com/groups/");
    let id = crate::text::decimal_chars(g.community_id);
    push_padded(&mut r, &id, 10);
    r.append(" [Members: ");
    let members = format_number(g.member_count as usize);
    r.append(members.as_str());
    r.append("]");
    r
}

/// The title of the box of discoveries.
pub open spec fn communities_title(count: nat) -> Seq<char> {
    "Claimable Communities ("@ + decimal(count) + ")"@
}

/// Which stage the dashboard shows, and the two counts of its progress.
pub struct StageProgress {
    pub validating: bool,
    pub current_value: usize,
    pub total_value: usize,
}

/// Proxy validation while it runs (proxies tested of all); the range scan after it
/// (identifiers scanned of the range, whose size is taken as a `usize`).
pub open spec fn stage_of(s: AppView) -> StageProgress {
    if s.is_validating_proxies {
        StageProgress {
            validating: true,
            current_value: s.proxies_tested_count,
            total_value: s.proxies_total_count,
        }
    } else {
        StageProgress {
            validating: false,
            current_value: s.scanned_items_count,
            total_value: (if s.ending_id > s.starting_id {
                (s.ending_id - s.starting_id) as u64
            } else {
                0u64
            }) as usize,
        }
    }
}

/// The title of the progress box.
pub open spec fn stage_label(validating: bool) -> Seq<char> {
    if validating {
        "Stage 1 / 2: Proxy Validation"@
    } else {
        "Stage 2 / 2: Range Scan"@
    }
}

/// A progress bar of `width` cells with the first `filled` of them full.
pub open spec fn progress_bar_text(filled: nat, width: nat) -> Seq<char> {
    repeat_char('█', filled) + repeat_char('░', sat_sub(width, filled))
}

/// The number of cells of the progress bar for a box of `inner_width` columns.
pub open spec fn bar_width(inner_width: nat) -> nat {
    if inner_width / 2 > 10 {
        inner_width / 2
    } else {
        10
    }
}

/// The newest log message, or nothing.
pub open spec fn last_log(s: AppView) -> Seq<char> {
    if s.log_messages.len() > 0 {
        s.log_messages.last()
    } else {
        seq![]
    }
}

impl AppState {
    /// The stage and counts that the progress box shows.
    pub fn stage_progress(&self) -> (r: StageProgress)
        ensures
            r == stage_of(self@),
    {
        if self.is_validating_proxies {
            StageProgress {
                validating: true,
                current_value: self.proxies_tested_count,
                total_value: self.proxies_total_count,
            }
        } else {
            let total_tasks = self.ending_id.saturating_sub(self.starting_id) as usize;
            StageProgress {
                validating: false,
                current_value: self.scanned_items_count,
                total_value: total_tasks,
            }
        }
    }
}


/// The length in bytes of the UTF-8 encoding of `s`, as `str::len` gives it.
pub open spec fn utf8_len(s: Seq<char>) -> nat {
    (encode_utf8(s).len() as usize) as nat
}

/// The message shown while no discovery passes the filter.
pub open spec fn nothing_found_text() -> Seq<char> {
    " [!] No claimable communities found yet..."@
}

/// The box of the status row and the box of the progress bar.
pub open spec fn status_and_progress_lines(
    s: AppView,
    term_width: nat,
    elapsed_seconds: u64,
    bar_filled: nat,
    progress_text: Seq<char>,
) -> Seq<Seq<char>> {
    let inner = sat_sub(term_width, 4);
    let label = stage_label(stage_of(s).validating);
    let bar = progress_bar_text(bar_filled, bar_width(inner));
    seq![
        box_top_text("Status"@, utf8_len("Status"@), term_width),
        box_row_text(ansi_text(Ansi::Bold), fit_width(status_text(s, uptime_text(elapsed_seconds)), inner)),
        box_bottom_text(term_width),
        box_top_text(label, utf8_len(label), term_width),
        box_row_text(ansi_text(Ansi::FgCyan), fit_width(bar + " "@ + progress_text, inner)),
        box_bottom_text(term_width),
    ]
}

/// The rows of the box of discoveries: the first three that pass the filter, or a
/// message that there are none.
pub open spec fn community_rows(matching: Seq<FoundCommunity>, inner: nat) -> Seq<Seq<char>> {
    if matching.len() == 0 {
        seq![box_row_text(ansi_text(Ansi::FgGray), fit_width(nothing_found_text(), inner))]
    } else {
        let k = if matching.len() < 3 {
            matching.len()
        } else {
            3
        };
        Seq::new(
            k,
            |i: int| box_row_text(ansi_text(Ansi::BgGreen), fit_width(community_text(matching[i]), inner)),
        )
    }
}

/// The box of discoveries that pass the member filter.
pub open spec fn communities_lines(s: AppView, term_width: nat) -> Seq<Seq<char>> {
    let inner = sat_sub(term_width, 4);
    let matching = matching_of(s.discovered_communities, member_threshold(s.member_filter_query));
    let title = communities_title(matching.len());
    seq![box_top_text(title, utf8_len(title), term_width)] + community_rows(matching, inner) + seq![
        box_bottom_text(term_width),
    ]
}

/// The box of the newest log message.
pub open spec fn console_lines(s: AppView, term_width: nat) -> Seq<Seq<char>> {
    let inner = sat_sub(term_width, 4);
    seq![
        box_top_text("Console"@, utf8_len("Console"@), term_width),
        box_row_text(ansi_text(Ansi::FgCyan), " > "@ + fit_width(last_log(s), sat_sub(inner, 3))),
        box_bottom_text(term_width),
    ]
}

/// Every line of the dashboard, top to bottom, for a console `term_width` columns wide,
/// `elapsed_seconds` after start, with `bar_filled` cells of the bar full and
/// `progress_text` beside the bar.
pub open spec fn dashboard_lines(
    s: AppView,
    term_width: nat,
    elapsed_seconds: u64,
    bar_filled: nat,
    progress_text: Seq<char>,
) -> Seq<Seq<char>> {
    status_and_progress_lines(s, term_width, elapsed_seconds, bar_filled, progress_text)
        + communities_lines(s, term_width) + console_lines(s, term_width)
}

impl AppState {
    fn status_line_text(&self, elapsed_seconds: u64) -> (r: String)
        ensures
            r@ == status_text(self@, uptime_text(elapsed_seconds)),
    {
        let mut status = String::from_str("LIVE ");
        let live = format_number(self.live_proxy_count);
        status.append(live.as_str());
        status.append(" | Target: ");
        let target = format_number(self.current_scanned_id as usize);
        status.append(target.as_str());
        status.append(" | Uptime: ");
        let uptime = format_uptime(elapsed_seconds);
        status.append(uptime.as_str());
        status.append(" | Filter: >=");
        if self.member_filter_query.as_str().is_empty() {
            status.append("0");
        } else {
            status.append(self.member_filter_query.as_str());
        }
        status
    }

    fn status_and_progress(
        &self,
        term_width: usize,
        elapsed_seconds: u64,
        bar_filled: usize,
        progress_text: &str,
    ) -> (r: Vec<String>)
        ensures
            strings_view(r@) == status_and_progress_lines(
                self@,
                term_width as nat,
                elapsed_seconds,
                bar_filled as nat,
                progress_text@,
            ),
    {
        let inner_width = term_width.saturating_sub(4);
        let mut lines: Vec<String> = Vec::new();
        lines.push(box_top_line("Status", term_width));
        let status = self.status_line_text(elapsed_seconds);
        let fitted = fit_to_width(status.as_str(), inner_width);
        lines.push(box_row_line(&Ansi::Bold, fitted.as_str()));
        lines.push(box_bottom_line(term_width));
        let stage = self.stage_progress();
        let label = if stage.validating {
            "Stage 1 / 2: Proxy Validation"
        } else {
            "Stage 2 / 2: Range Scan"
        };
        lines.push(box_top_line(label, term_width));
        let half = inner_width / 2;
        let bar_cells = if half > 10 {
            half
        } else {
            10
        };
        let mut combined = String::new();
        push_repeat(&mut combined, '█', bar_filled);
        push_repeat(&mut combined, '░', bar_cells.saturating_sub(bar_filled));
        combined.append(" ");
        combined.append(progress_text);
        let fitted_bar = fit_to_width(combined.as_str(), inner_width);
        lines.push(box_row_line(&Ansi::FgCyan, fitted_bar.as_str()));
        lines.push(box_bottom_line(term_width));
        proof {
            assert(combined@ =~= progress_bar_text(bar_filled as nat, bar_width(inner_width as nat))
                + " "@ + progress_text@);
            assert(strings_view(lines@) =~= status_and_progress_lines(
                self@,
                term_width as nat,
                elapsed_seconds,
                bar_filled as nat,
                progress_text@,
            ));
        }
        lines
    }

    fn communities_box(&self, term_width: usize) -> (r: Vec<String>)
        ensures
            strings_view(r@) == communities_lines(self@, term_width as nat),
    {
        let inner_width = term_width.saturating_sub(4);
        let matching = match member_filter_minimum(self.member_filter_query.as_str()) {
            Some(minimum) => matching_communities(&self.discovered_communities, minimum),
            None => {
                proof {
                    lemma_matching_beyond_u64(
                        self.discovered_communities@,
                        member_threshold(self.member_filter_query@),
                    );
                }
                Vec::new()
            },
        };
        proof {
            assert(matching@ =~= matching_of(
                self.discovered_communities@,
                member_threshold(self.member_filter_query@),
            ));
        }
        let mut title = String::from_str("Claimable Communities (");
        push_decimal(&mut title, matching.len() as u64);
        title.append(")");
        let mut lines: Vec<String> = Vec::new();
        lines.push(box_top_line(title.as_str(), term_width));
        let ghost head = strings_view(lines@);
        let ghost rows = community_rows(matching@, inner_width as nat);
        if matching.len() == 0 {
            let empty = fit_to_width(" [!] No claimable communities found yet...", inner_width);
            lines.push(box_row_line(&Ansi::FgGray, empty.as_str()));
            proof {
                assert(strings_view(lines@) =~= head + rows);
            }
        } else {
            let shown = if matching.len() < 3 {
                matching.len()
            } else {
                3
            };
            let mut i: usize = 0;
            while i < shown
                invariant
                    i <= shown <= matching@.len(),
                    shown == rows.len(),
                    matching@.len() > 0,
                    head.len() == 1,
                    rows == community_rows(matching@, inner_width as nat),
                    inner_width == term_width.saturating_sub(4),
                    strings_view(lines@) == head + rows.take(i as int),
                decreases shown - i,
            {
                let text = community_line(&matching[i]);
                let fitted = fit_to_width(text.as_str(), inner_width);
                let ghost before = lines@;
                lines.push(box_row_line(&Ansi::BgGreen, fitted.as_str()));
                proof {
                    assert(rows[i as int] == box_row_text(
                        ansi_text(Ansi::BgGreen),
                        fit_width(community_text(matching@[i as int]), inner_width as nat),
                    ));
                    assert(strings_view(lines@) =~= strings_view(before).push(lines@.last()@));
                    assert(rows.take(i + 1) =~= rows.take(i as int).push(rows[i as int]));
                }
                i = i + 1;
            }
            proof {
                assert(rows.take(shown as int) =~= rows);
            }
        }
        let ghost mid = strings_view(lines@);
        lines.push(box_bottom_line(term_width));
        proof {
            assert(strings_view(lines@) =~= mid.push(box_bottom_text(term_width as nat)));
            assert(strings_view(lines@) =~= communities_lines(self@, term_width as nat));
        }
        lines
    }

    fn console_box(&self, term_width: usize) -> (r: Vec<String>)
        ensures
            strings_view(r@) == console_lines(self@, term_width as nat),
    {
        let inner_width = term_width.saturating_sub(4);
        let mut lines: Vec<String> = Vec::new();
        lines.push(box_top_line("Console", term_width));
        let mut body = String::from_str(" > ");
        let available = inner_width.saturating_sub(3);
        let n = self.log_messages.len();
        if n > 0 {
            let last = fit_to_width(self.log_messages[n - 1].as_str(), available);
            body.append(last.as_str());
        } else {
            let last = fit_to_width("", available);
            body.append(last.as_str());
        }
        proof {
            reveal_strlit("");
            assert(""@ =~= Seq::<char>::empty());
        }
        lines.push(box_row_line(&Ansi::FgCyan, body.as_str()));
        lines.push(box_bottom_line(term_width));
        proof {
            assert(strings_view(lines@) =~= console_lines(self@, term_width as nat));
        }
        lines
    }

    /// Every line of the dashboard, as `dashboard_lines` describes them.
    pub fn render_lines(
        &self,
        term_width: usize,
        elapsed_seconds: u64,
        bar_filled: usize,
        progress_text: &str,
    ) -> (r: Vec<String>)
        ensures
            strings_view(r@) == dashboard_lines(
                self@,
                term_width as nat,
                elapsed_seconds,
                bar_filled as nat,
                progress_text@,
            ),
    {
        let mut lines = self.status_and_progress(term_width, elapsed_seconds, bar_filled, progress_text);
        let mut middle = self.communities_box(term_width);
        let mut last = self.console_box(term_width);
        let ghost a = lines@;
        let ghost b = middle@;
        let ghost c = last@;
        lines.append(&mut middle);
        lines.append(&mut last);
        proof {
            assert(lines@ == a + b + c);
            assert(strings_view(a + b + c) =~= strings_view(a) + strings_view(b) + strings_view(c));
        }
        lines
    }
}


/// The box of discoveries: its title counts all the discoveries that pass the member
/// filter; below it come one row for each of the first three of them (fewer where fewer
/// pass), in order, or one row saying that none passes; then the bottom border.
pub proof fn law_communities_box(s: AppView, term_width: nat)
    ensures
        ({
            let m = matching_of(s.discovered_communities, member_threshold(s.member_filter_query));
            let n = m.len();
            let inner = sat_sub(term_width, 4);
            let title = "Claimable Communities ("@ + decimal(n) + ")"@;
            let ls = communities_lines(s, term_width);
            &&& ls[0] == box_top_text(title, utf8_len(title), term_width)
            &&& ls.last() == box_bottom_text(term_width)
            &&& n == 0 ==> ls.len() == 3 && ls[1] == box_row_text(
                ansi_text(Ansi::FgGray),
                fit_width(nothing_found_text(), inner),
            )
            &&& 0 < n <= 3 ==> ls.len() == n + 2
            &&& n > 3 ==> ls.len() == 5
            &&& n > 0 ==> forall|i: int|
                0 <= i < n && i < 3 ==> #[trigger] ls[i + 1] == box_row_text(
                    ansi_text(Ansi::BgGreen),
                    fit_width(community_text(m[i]), inner),
                )
        }),
{
    let m = matching_of(s.discovered_communities, member_threshold(s.member_filter_query));
    let inner = sat_sub(term_width, 4);
    let title = communities_title(m.len());
    let rows = community_rows(m, inner);
    let ls = communities_lines(s, term_width);
    assert(ls == seq![box_top_text(title, utf8_len(title), term_width)] + rows + seq![
        box_bottom_text(term_width),
    ]);
    assert forall|i: int| 0 <= i < rows.len() implies #[trigger] ls[i + 1] == rows[i] by {}
}

/// The dashboard is the status and progress boxes (six lines), the box of discoveries,
/// and the console box (three lines), in that order.
pub proof fn law_dashboard_layout(
    s: AppView,
    term_width: nat,
    elapsed_seconds: u64,
    bar_filled: nat,
    progress_text: Seq<char>,
)
    ensures
        ({
            let d = dashboard_lines(s, term_width, elapsed_seconds, bar_filled, progress_text);
            let c = communities_lines(s, term_width);
            &&& d.len() == 9 + c.len()
            &&& d.subrange(6, 6 + c.len() as int) == c
            &&& d.subrange(6 + c.len() as int, d.len() as int) == console_lines(s, term_width)
        }),
{
    let d = dashboard_lines(s, term_width, elapsed_seconds, bar_filled, progress_text);
    let a = status_and_progress_lines(s, term_width, elapsed_seconds, bar_filled, progress_text);
    let c = communities_lines(s, term_width);
    let e = console_lines(s, term_width);
    assert(d.subrange(6, 6 + c.len() as int) =~= c);
    assert(d.subrange(6 + c.len() as int, d.len() as int) =~= e);
}


/// Only key presses count: a record that is not a key-down event never gives an event;
/// each number-row key types the digit whose value is its offset from `0x30`, with or
/// without modifiers; `Q` and `Esc` always ask to exit; `C` asks to exit exactly when a
/// Ctrl key is held, and clears the discoveries otherwise.
pub proof fn law_key_meanings(event_type: u16, key_down: i32, vk: u16, control_key_state: u32)
    ensures
        (event_type != 1 || key_down == 0) ==> key_action(event_type, key_down, vk, control_key_state)
            is None,
        event_type == 1 && key_down != 0 && 0x30 <= vk <= 0x39 ==> (key_action(
            event_type,
            key_down,
            vk,
            control_key_state,
        ) matches Some(UiEventView::FilterChar(c)) && is_digit(c) && digit_value(c) == vk - 0x30),
        event_type == 1 && key_down != 0 && (vk == 0x51 || vk == 0x1B) ==> key_action(
            event_type,
            key_down,
            vk,
            control_key_state,
        ) == Some(UiEventView::RequestExit),
        event_type == 1 && key_down != 0 && vk == 0x43 ==> (key_action(
            event_type,
            key_down,
            vk,
            control_key_state,
        ) == Some(UiEventView::RequestExit) <==> (control_key_state & 12u32) != 0),
        event_type == 1 && key_down != 0 && vk == 0x43 ==> key_action(
            event_type,
            key_down,
            vk,
            control_key_state,
        ) is Some,
        event_type == 1 && key_down != 0 && vk == 0x08 ==> key_action(
            event_type,
            key_down,
            vk,
            control_key_state,
        ) == Some(UiEventView::FilterBackspace),
{
    assert(0x0008u32 | 0x0004u32 == 12u32) by (bit_vector);
    if 0x30 <= vk <= 0x39 {
        lemma_digit_char_value((vk - 0x30) as nat);
    }
}


/// The running time shows hours, minutes and seconds that add up to the elapsed time,
/// with minutes and seconds below 60, each at least two digits wide.
pub proof fn law_uptime_adds_up(elapsed_seconds: u64)
    ensures
        exists|h: nat, m: nat, sec: nat|
            #![trigger decimal(h), decimal(m), decimal(sec)]
            h * 3600 + m * 60 + sec == elapsed_seconds && m < 60 && sec < 60 && uptime_text(
                elapsed_seconds,
            ) == zero_pad2(decimal(h)) + seq![':'] + zero_pad2(decimal(m)) + seq![':'] + zero_pad2(
                decimal(sec),
            ),
{
    let h = (elapsed_seconds / 3600) as nat;
    let m = ((elapsed_seconds % 3600) / 60) as nat;
    let sec = (elapsed_seconds % 60) as nat;
    assert(h * 3600 + m * 60 + sec == elapsed_seconds) by (nonlinear_arith)
        requires
            h == elapsed_seconds / 3600,
            m == (elapsed_seconds % 3600) / 60,
            sec == elapsed_seconds % 60,
    ;
    assert(decimal(h) == decimal(h) && decimal(m) == decimal(m) && decimal(sec) == decimal(sec));
}

/// A fitted text is exactly `width` characters: the text's own characters first, as many
/// as fit, then spaces.
pub proof fn law_fit_width(s: Seq<char>, width: nat)
    ensures
        fit_width(s, width).len() == width,
        forall|i: int| 0 <= i < width && i < s.len() ==> #[trigger] fit_width(s, width)[i] == s[i],
        forall|i: int| s.len() <= i < width ==> #[trigger] fit_width(s, width)[i] == ' ',
{
}

/// The bottom border spans the console width (at least its two corners), then clears
/// the rest of the line.
pub proof fn law_box_bottom_width(total_width: nat)
    ensures
        box_bottom_text(total_width).len() == (if total_width > 2 {
            total_width
        } else {
            2
        }) + 3,
{
    reveal_strlit("└");
    reveal_strlit("┘");
    reveal_strlit("\x1B[K");
}

/// A readable console width is kept where it is at least 50 columns, raised to 50
/// where it is narrower; an unreadable one counts as 80.
pub proof fn law_window_width_floor(info_ok: bool, left: i16, right: i16)
    ensures
        !info_ok ==> window_columns(info_ok, left, right) == 80,
        info_ok && 0 <= right - left + 1 ==> window_columns(info_ok, left, right) >= 50,
        info_ok && 50 <= right - left + 1 ==> window_columns(info_ok, left, right) == right - left
            + 1,
{
}

} // verus!
