//! The scanner's decisions: which proxy a probe goes through, the request it sends,
//! what a reply means, and how scan progress is written down and read back.

use crate::text::{
    all_digits, digits_value, is_digit, lemma_decimal, lemma_digit_run, lemma_words_first,
    lemma_words_skip_space, lemma_lines_concat, chars_of, contains, contains_str, decimal, digit_end, digit_run, equals_in, find, find_in,
    first_word, in_class, index_or_end, index_or_len, is_space, lemma_decimal_plain,
    lemma_find_first, lemma_index_or_len_concat, lemma_lines_split, lemma_trim_by_fixed, lines,
    next_line, parse_unsigned, parse_unsigned_in, push_decimal, strip_cr, trim, trim_bounds,
    trim_by, trim_end_by, trim_start, trim_start_bound, trim_start_by, words, CharClass,
};
use crate::types::{events_view, FoundCommunity, ProgressState, UiEvent, UiEventView};
use std::sync::atomic::AtomicUsize;
use std::sync::atomic::Ordering;
use std::sync::mpsc::Sender;
use vstd::prelude::*;

verus! {

#[verifier::external_type_specification]
#[verifier::external_body]
#[verifier::reject_recursive_types(T)]
pub struct ExSender<T>(Sender<T>);

/// Probes community identifiers through a pool of proxies and reports to the dashboard.
pub struct Scanner {
    pub proxies: Vec<String>,
    pub interface_text: Sender<UiEvent>,
    pub rng_counter: AtomicUsize,
}

/// The proxy slot that a ticket of the round-robin counter selects.
pub fn proxy_slot(ticket: usize, pool_size: usize) -> (r: usize)
    requires
        pool_size > 0,
    ensures
        r == ticket % pool_size,
        r < pool_size,
{
    ticket % pool_size
}

impl Scanner {
    /// A scanner over `proxies` that reports through `interface_text`.
    pub fn new(proxies: Vec<String>, interface_text: Sender<UiEvent>) -> (r: Scanner)
        ensures
            r.proxies == proxies,
            r.interface_text == interface_text,
    {
        Scanner { proxies, interface_text, rng_counter: AtomicUsize::new(0) }
    }

    /// The index of the proxy for the next probe: `None` when the pool is empty, else
    /// the slot of the next ticket of the shared round-robin counter. Which ticket comes
    /// back depends on the other threads that draw from the counter.
    pub fn next_proxy_index(&self) -> (r: Option<usize>)
        ensures
            r is None <==> self.proxies@.len() == 0,
            r matches Some(i) ==> i < self.proxies@.len(),
    {
        if self.proxies.len() == 0 {
            return None;
        }
        let ticket = self.rng_counter.fetch_add(1, Ordering::Relaxed);
        Some(proxy_slot(ticket, self.proxies.len()))
    }

    /// The status report sent after each probe of `community_id`.
    pub fn status_event(&self, community_id: u64) -> (r: UiEvent)
        ensures
            r@ == (UiEventView::StatusUpdate {
                live_proxy_count: self.proxies@.len() as usize,
                current_id: community_id,
            }),
    {
        UiEvent::StatusUpdate { live_proxy_count: self.proxies.len(), current_id: community_id }
    }
}


/// The status code of an HTTP reply: the second whitespace-separated word of its first
/// line, read as a `u16`.
pub open spec fn http_status(response: Seq<char>) -> Option<nat> {
    let ls = lines(response);
    if ls.len() == 0 {
        None
    } else {
        let ws = words(ls[0]);
        if ws.len() < 2 {
            None
        } else {
            parse_unsigned(ws[1], 65535)
        }
    }
}

/// Reads the status code of an HTTP reply from its status line.
pub fn parse_http_status(response: &str) -> (r: Option<u16>)
    ensures
        r matches Some(code) ==> http_status(response@) == Some(code as nat),
        r is None ==> http_status(response@) is None,
{
    let v = chars_of(response);
    let n = v.len();
    proof {
        assert(v@.subrange(0, n as int) =~= response@);
    }
    if n == 0 {
        return None;
    }
    let (line_end, _rest) = next_line(&v, 0, n);
    let first = first_word(&v, 0, line_end);
    match first {
        None => None,
        Some((_a, b)) => {
            let second = first_word(&v, b, line_end);
            match second {
                None => None,
                Some((c, d)) => {
                    let code = parse_unsigned_in(&v, c, d, 65535);
                    match code {
                        Some(x) => Some(x as u16),
                        None => None,
                    }
                },
            }
        },
    }
}


/// The key before a community's member count in its JSON record.
pub open spec fn member_count_key() -> Seq<char> {
    "\"memberCount\":"@
}

/// Whether the record says, in either spacing, that the community has no owner.
pub open spec fn owner_is_null(json: Seq<char>) -> bool {
    contains(json, "\"owner\":null"@) || contains(json, "\"owner\": null"@)
}

/// Whether the record says, in either spacing, that anyone may join.
pub open spec fn public_entry_allowed(json: Seq<char>) -> bool {
    contains(json, "\"publicEntryAllowed\":true"@) || contains(json, "\"publicEntryAllowed\": true"@)
}

/// Whether the record says, in either spacing, that the community is locked.
pub open spec fn is_locked(json: Seq<char>) -> bool {
    contains(json, "\"isLocked\":true"@) || contains(json, "\"isLocked\": true"@)
}

/// The member count of a claimable community: the record has no owner, allows public
/// entry and is not locked; the digits after the first member-count key (and any
/// whitespace) are followed by some other character, read as a `u64`, and not zero.
pub open spec fn claimable_member_count(json: Seq<char>) -> Option<nat> {
    if !owner_is_null(json) || !public_entry_allowed(json) || is_locked(json) {
        None
    } else {
        match find(json, member_count_key()) {
            None => None,
            Some(i) => {
                let rest = trim_start(json.skip(i + member_count_key().len()));
                let d = digit_run(rest);
                if d == rest.len() {
                    None
                } else {
                    match parse_unsigned(rest.take(d as int), u64::MAX as nat) {
                        Some(m) => if m > 0 {
                            Some(m)
                        } else {
                            None
                        },
                        None => None,
                    }
                }
            },
        }
    }
}

/// Reads the member count of a community that can be claimed from its JSON record.
pub fn parse_claimable_community(json: &str) -> (r: Option<u64>)
    ensures
        r matches Some(m) ==> claimable_member_count(json@) == Some(m as nat),
        r is None ==> claimable_member_count(json@) is None,
{
    let v = chars_of(json);
    let is_owner_null = contains_str(&v, "\"owner\":null") || contains_str(&v, "\"owner\": null");
    let public_entry = contains_str(&v, "\"publicEntryAllowed\":true") || contains_str(
        &v,
        "\"publicEntryAllowed\": true",
    );
    let locked = contains_str(&v, "\"isLocked\":true") || contains_str(&v, "\"isLocked\": true");
    if !is_owner_null || !public_entry || locked {
        return None;
    }
    let key = chars_of("\"memberCount\":");
    let n = v.len();
    proof {
        assert(v@.subrange(0, n as int) =~= json@);
    }
    let found = find_in(&v, 0, n, &key);
    match found {
        None => None,
        Some(i) => {
            proof {
                lemma_find_first(json@, key@);
            }
            let start = i + key.len();
            proof {
                assert(json@.skip(start as int) =~= v@.subrange(start as int, n as int));
            }
            let a = trim_start_bound(&v, start, n, CharClass::Space);
            let d = digit_end(&v, a, n);
            if d == n {
                return None;
            }
            proof {
                let rest = v@.subrange(a as int, n as int);
                assert(rest.take(d - a) =~= v@.subrange(a as int, d as int));
            }
            match parse_unsigned_in(&v, a, d, u64::MAX) {
                Some(m) => if m > 0 {
                    Some(m)
                } else {
                    None
                },
                None => None,
            }
        },
    }
}


/// The headers that follow the request line of a probe.
pub open spec fn request_tail() -> Seq<char> {
    " HTTP/1.1\r\nHost: groups.roblox.com\r\nUser-Agent: Mozilla/5.0 (Windows NT 10.0; Win64; x64) AppleWebKit/537.36\r\nAccept: application/json\r\nConnection: close\r\n\r\n"@
}

/// The HTTP request that asks the groups service, through a proxy, for one community.
pub open spec fn request_text(community_id: u64) -> Seq<char> {
    "GET http://groups.roblox.com/v1/groups/"@ + decimal(community_id as nat) + request_tail()
}

/// Builds the probe request for `community_id`.
pub fn build_request(community_id: u64) -> (r: String)
    ensures
        r@ == request_text(community_id),
{
    let mut r = String::from_str("GET http://groups.roblox.com/v1/groups/");
    push_decimal(&mut r, community_id);
    r.append(
        " HTTP/1.1\r\nHost: groups.roblox.com\r\nUser-Agent: Mozilla/5.0 (Windows NT 10.0; Win64; x64) AppleWebKit/537.36\r\nAccept: application/json\r\nConnection: close\r\n\r\n",
    );
    r
}

pub open spec fn success_message(community_id: u64) -> Seq<char> {
    "[SUCCESS] Found claimable community: "@ + decimal(community_id as nat)
}

pub open spec fn rate_limit_message(community_id: u64) -> Seq<char> {
    "[429 Rate Limit] ID "@ + decimal(community_id as nat) + " rate limited"@
}

pub open spec fn blocked_message(status_code: nat, community_id: u64) -> Seq<char> {
    "["@ + decimal(status_code) + "] Proxy blocked on ID "@ + decimal(community_id as nat)
}

/// What the dashboard is told about the reply to a probe of `community_id`: a claimable
/// community on 200, a rate-limit notice on 429, a blocked-proxy notice on 403 and 503,
/// and nothing otherwise.
pub open spec fn reply_events(community_id: u64, response: Seq<char>) -> Seq<UiEventView> {
    match http_status(response) {
        None => seq![],
        Some(code) => if code == 200 {
            match claimable_member_count(response) {
                Some(m) => seq![
                    UiEventView::CommunityDiscovered(
                        FoundCommunity { community_id, member_count: m as u64 },
                    ),
                    UiEventView::LogMessage(success_message(community_id)),
                ],
                None => seq![],
            }
        } else if code == 429 {
            seq![UiEventView::LogMessage(rate_limit_message(community_id))]
        } else if code == 503 || code == 403 {
            seq![UiEventView::LogMessage(blocked_message(code, community_id))]
        } else {
            seq![]
        },
    }
}

/// The events to send, in order, for the reply `response` to a probe of `community_id`.
pub fn reply_to_events(community_id: u64, response: &str) -> (r: Vec<UiEvent>)
    ensures
        events_view(r@) == reply_events(community_id, response@),
{
    let mut events: Vec<UiEvent> = Vec::new();
    match parse_http_status(response) {
        None => {},
        Some(status_code) => {
            if status_code == 200 {
                match parse_claimable_community(response) {
                    Some(member_count) => {
                        events.push(
                            UiEvent::CommunityDiscovered(FoundCommunity { community_id, member_count }),
                        );
                        let mut m = String::from_str("[SUCCESS] Found claimable community: ");
                        push_decimal(&mut m, community_id);
                        events.push(UiEvent::LogMessage(m));
                    },
                    None => {},
                }
            } else if status_code == 429 {
                let mut m = String::from_str("[429 Rate Limit] ID ");
                push_decimal(&mut m, community_id);
                m.append(" rate limited");
                events.push(UiEvent::LogMessage(m));
            } else if status_code == 503 || status_code == 403 {
                let mut m = String::from_str("[");
                push_decimal(&mut m, status_code as u64);
                m.append("] Proxy blocked on ID ");
                push_decimal(&mut m, community_id);
                events.push(UiEvent::LogMessage(m));
            }
        },
    }
    proof {
        assert(events_view(events@) =~= reply_events(community_id, response@));
    }
    events
}


/// The saved-progress file's text for the given bounds.
pub open spec fn progress_json(current_id: u64, ending_id: u64) -> Seq<char> {
    "{\n\t\"last_scanned_id\": "@ + decimal(current_id as nat) + ",\n\t\"ending_id\": "@ + decimal(
        ending_id as nat,
    ) + "\n}\n"@
}

/// The two fields found so far while reading a progress file.
pub struct ProgressFields {
    pub last_scanned_id: Option<u64>,
    pub ending_id: Option<u64>,
}

pub open spec fn as_u64(x: Option<nat>) -> Option<u64> {
    match x {
        Some(n) => Some(n as u64),
        None => None,
    }
}

/// The key of a `key: value` line: trimmed, then without surrounding quotes.
pub open spec fn progress_key(part: Seq<char>) -> Seq<char> {
    trim_by(trim(part), CharClass::Exactly('"'))
}

/// The value of a `key: value` line: trimmed, without surrounding commas, trimmed again.
pub open spec fn progress_value(part: Seq<char>) -> Seq<char> {
    trim(trim_by(trim(part), CharClass::Exactly(',')))
}

/// The fields after one more line: a line with a `:` whose key is one of the two names
/// sets that field to its value read as a `u64` (or to nothing, where it is not one).
pub open spec fn progress_line(acc: ProgressFields, line: Seq<char>) -> ProgressFields {
    let colon = index_or_len(line, ':');
    if colon == line.len() {
        acc
    } else {
        let key = progress_key(line.take(colon as int));
        let value = as_u64(parse_unsigned(progress_value(line.skip(colon + 1 as int)), u64::MAX as nat));
        if key == "last_scanned_id"@ {
            ProgressFields { last_scanned_id: value, ..acc }
        } else if key == "ending_id"@ {
            ProgressFields { ending_id: value, ..acc }
        } else {
            acc
        }
    }
}

/// The fields after reading the lines `ls` in order.
pub open spec fn progress_lines(acc: ProgressFields, ls: Seq<Seq<char>>) -> ProgressFields
    decreases ls.len(),
{
    if ls.len() == 0 {
        acc
    } else {
        progress_lines(progress_line(acc, ls[0]), ls.drop_first())
    }
}

/// The progress that a saved-progress text records: both fields, where both are there.
pub open spec fn parse_progress_text(content: Seq<char>) -> Option<ProgressState> {
    let f = progress_lines(ProgressFields { last_scanned_id: None, ending_id: None }, lines(content));
    match (f.last_scanned_id, f.ending_id) {
        (Some(last), Some(end)) => Some(ProgressState { last_scanned_id: last, ending_id: end }),
        _ => None,
    }
}

fn read_progress_line(v: &Vec<char>, lo: usize, hi: usize, acc: ProgressFields) -> (r:
    ProgressFields)
    requires
        lo <= hi <= v@.len(),
    ensures
        r == progress_line(acc, v@.subrange(lo as int, hi as int)),
{
    let ghost line = v@.subrange(lo as int, hi as int);
    let colon = index_or_end(v, lo, hi, ':');
    if colon == hi {
        return acc;
    }
    proof {
        assert(line.take(colon - lo) =~= v@.subrange(lo as int, colon as int));
        assert(line.skip(colon - lo + 1) =~= v@.subrange(colon + 1, hi as int));
    }
    let (k1, k2) = trim_bounds(v, lo, colon, CharClass::Space);
    let (k3, k4) = trim_bounds(v, k1, k2, CharClass::Exactly('"'));
    let (v1, v2) = trim_bounds(v, colon + 1, hi, CharClass::Space);
    let (v3, v4) = trim_bounds(v, v1, v2, CharClass::Exactly(','));
    let (v5, v6) = trim_bounds(v, v3, v4, CharClass::Space);
    let value = parse_unsigned_in(v, v5, v6, u64::MAX);
    let last_key = chars_of("last_scanned_id");
    let end_key = chars_of("ending_id");
    if equals_in(v, k3, k4, &last_key) {
        ProgressFields { last_scanned_id: value, ending_id: acc.ending_id }
    } else if equals_in(v, k3, k4, &end_key) {
        ProgressFields { last_scanned_id: acc.last_scanned_id, ending_id: value }
    } else {
        acc
    }
}

impl Scanner {
    /// Reads saved progress from the text of a progress file.
    pub fn parse_progress(content: &str) -> (r: Option<ProgressState>)
        ensures
            r == parse_progress_text(content@),
    {
        let v = chars_of(content);
        let n = v.len();
        proof {
            assert(v@.subrange(0, n as int) =~= content@);
        }
        let mut acc = ProgressFields { last_scanned_id: None, ending_id: None };
        let mut pos: usize = 0;
        while pos < n
            invariant
                pos <= n == v@.len(),
                progress_lines(ProgressFields { last_scanned_id: None, ending_id: None }, lines(content@))
                    == progress_lines(acc, lines(v@.subrange(pos as int, n as int))),
            decreases n - pos,
        {
            let (line_end, next) = next_line(&v, pos, n);
            let ghost ls = lines(v@.subrange(pos as int, n as int));
            acc = read_progress_line(&v, pos, line_end, acc);
            proof {
                assert(ls.drop_first() =~= lines(v@.subrange(next as int, n as int)));
            }
            pos = next;
        }
        proof {
            assert(lines(v@.subrange(n as int, n as int)) =~= Seq::<Seq<char>>::empty());
        }
        match (acc.last_scanned_id, acc.ending_id) {
            (Some(last), Some(end)) => Some(ProgressState { last_scanned_id: last, ending_id: end }),
            _ => None,
        }
    }

    /// The progress to resume from: what the saved text records, where it was read and
    /// records both bounds; the given defaults otherwise.
    pub fn progress_from(content: Option<&str>, default_start_id: u64, default_ending_id: u64) -> (r:
        ProgressState)
        ensures
            r == (match content {
                Some(c) => match parse_progress_text(c@) {
                    Some(p) => p,
                    None => ProgressState {
                        last_scanned_id: default_start_id,
                        ending_id: default_ending_id,
                    },
                },
                None => ProgressState { last_scanned_id: default_start_id, ending_id: default_ending_id },
            }),
    {
        if let Some(c) = content {
            if let Some(p) = Scanner::parse_progress(c) {
                return p;
            }
        }
        ProgressState { last_scanned_id: default_start_id, ending_id: default_ending_id }
    }

    /// The text that records progress at `current_id` in a range ending at `ending_id`.
    pub fn progress_text(current_id: u64, ending_id: u64) -> (r: String)
        ensures
            r@ == progress_json(current_id, ending_id),
    {
        let mut r = String::from_str("{\n\t\"last_scanned_id\": ");
        push_decimal(&mut r, current_id);
        r.append(",\n\t\"ending_id\": ");
        push_decimal(&mut r, ending_id);
        r.append("\n}\n");
        r
    }
}


proof fn lemma_value_part(d: Seq<char>, tail: Seq<char>)
    requires
        d.len() > 0,
        forall|i: int| 0 <= i < d.len() ==> !is_space(#[trigger] d[i]) && d[i] != ',',
        tail == seq![','] || tail.len() == 0,
    ensures
        progress_value(seq![' '] + d + tail) == d,
{
    let v = seq![' '] + d + tail;
    assert(v.drop_first() =~= d + tail);
    assert(!is_space((d + tail)[0]));
    assert(trim_start_by(d + tail, CharClass::Space) == d + tail);
    assert(is_space(v[0]));
    assert(trim_start_by(v, CharClass::Space) == trim_start_by(v.drop_first(), CharClass::Space));
    assert(trim_start_by(v, CharClass::Space) == d + tail);
    assert(!is_space((d + tail).last()));
    assert(trim(v) == d + tail);
    assert(!in_class((d + tail)[0], CharClass::Exactly(',')));
    if tail.len() == 0 {
        assert(d + tail =~= d);
        lemma_trim_by_fixed(d, CharClass::Exactly(','));
    } else {
        assert((d + tail).drop_last() =~= d);
        assert(trim_end_by(d, CharClass::Exactly(',')) == d);
        assert(trim_by(d + tail, CharClass::Exactly(',')) == d);
    }
    lemma_trim_by_fixed(d, CharClass::Space);
}

proof fn lemma_key_part(name: Seq<char>)
    requires
        name.len() > 0,
        forall|i: int| 0 <= i < name.len() ==> !is_space(#[trigger] name[i]) && name[i] != '"',
    ensures
        progress_key(seq!['\t', '"'] + name + seq!['"']) == name,
{
    let k = seq!['\t', '"'] + name + seq!['"'];
    let k1 = seq!['"'] + name + seq!['"'];
    assert(k.drop_first() =~= k1);
    assert(trim_start_by(k1, CharClass::Space) == k1);
    assert(is_space(k[0]));
    assert(trim_start_by(k, CharClass::Space) == trim_start_by(k.drop_first(), CharClass::Space));
    assert(trim_start_by(k, CharClass::Space) == k1);
    assert(trim(k) == k1);
    assert(k1.drop_first() =~= name + seq!['"']);
    assert((name + seq!['"'])[0] == name[0]);
    assert(trim_start_by(name + seq!['"'], CharClass::Exactly('"')) == name + seq!['"']);
    assert(trim_start_by(k1, CharClass::Exactly('"')) == trim_start_by(
        k1.drop_first(),
        CharClass::Exactly('"'),
    ));
    assert(trim_start_by(k1, CharClass::Exactly('"')) == name + seq!['"']);
    assert((name + seq!['"']).drop_last() =~= name);
    assert(trim_end_by(name, CharClass::Exactly('"')) == name);
    assert(trim_end_by(name + seq!['"'], CharClass::Exactly('"')) == name);
}

proof fn lemma_line_fields(name: Seq<char>, d: Seq<char>, tail: Seq<char>)
    requires
        name.len() > 0,
        forall|i: int| 0 <= i < name.len() ==> !is_space(#[trigger] name[i]) && name[i] != '"'
            && name[i] != ':',
        d.len() > 0,
        forall|i: int| 0 <= i < d.len() ==> !is_space(#[trigger] d[i]) && d[i] != ',',
        tail == seq![','] || tail.len() == 0,
    ensures
        ({
            let line = progress_line_of(name, d, tail);
            let colon = index_or_len(line, ':');
            &&& colon < line.len()
            &&& progress_key(line.take(colon as int)) == name
            &&& progress_value(line.skip(colon + 1 as int)) == d
        }),
{
    let k = seq!['\t', '"'] + name + seq!['"'];
    let v = seq![' '] + d + tail;
    let line = k + seq![':'] + v;
    assert(line =~= k + (seq![':'] + v));
    assert forall|i: int| 0 <= i < k.len() implies k[i] != ':' by {
        if 2 <= i < k.len() - 1 {
            assert(k[i] == name[i - 2]);
        }
    }
    lemma_index_or_len_concat(k, seq![':'] + v, ':');
    assert(index_or_len(seq![':'] + v, ':') == 0);
    assert(line.take(k.len() as int) =~= k);
    assert(line.skip(k.len() + 1 as int) =~= v);
    lemma_key_part(name);
    lemma_value_part(d, tail);
}

pub open spec fn progress_line_of(name: Seq<char>, value: Seq<char>, tail: Seq<char>) -> Seq<
    char,
> {
    seq!['\t', '"'] + name + seq!['"'] + seq![':'] + (seq![' '] + value + tail)
}

proof fn lemma_progress_json_lines(current_id: u64, ending_id: u64)
    ensures
        lines(progress_json(current_id, ending_id)) == seq![
            seq!['{'],
            progress_line_of("last_scanned_id"@, decimal(current_id as nat), seq![',']),
            progress_line_of("ending_id"@, decimal(ending_id as nat), Seq::<char>::empty()),
            seq!['}'],
        ],
{
    let d = decimal(current_id as nat);
    let e = decimal(ending_id as nat);
    lemma_decimal_plain(current_id as nat);
    lemma_decimal_plain(ending_id as nat);
    reveal_strlit("{\n\t\"last_scanned_id\": ");
    reveal_strlit(",\n\t\"ending_id\": ");
    reveal_strlit("\n}\n");
    reveal_strlit("last_scanned_id");
    reveal_strlit("ending_id");
    let line0 = seq!['{'];
    let line1 = progress_line_of("last_scanned_id"@, d, seq![',']);
    let line2 = progress_line_of("ending_id"@, e, Seq::<char>::empty());
    let line3 = seq!['}'];
    let nl = seq!['\n'];
    let r3 = line3 + nl + Seq::<char>::empty();
    let r2 = line2 + nl + r3;
    let r1 = line1 + nl + r2;
    let json = progress_json(current_id, ending_id);
    assert(json =~= line0 + nl + r1);
    assert forall|i: int| 0 <= i < line1.len() implies line1[i] != '\n' by {
        if 20 <= i < 20 + d.len() {
            assert(line1[i] == d[i - 20]);
        }
    }
    assert forall|i: int| 0 <= i < line2.len() implies line2[i] != '\n' by {
        if 14 <= i < 14 + e.len() {
            assert(line2[i] == e[i - 14]);
        }
    }
    lemma_lines_split(line0, r1);
    lemma_lines_split(line1, r2);
    lemma_lines_split(line2, r3);
    lemma_lines_split(line3, Seq::<char>::empty());
    assert(lines(Seq::<char>::empty()) =~= Seq::<Seq<char>>::empty());
    assert(strip_cr(line0) == line0);
    assert(strip_cr(line1) == line1);
    assert(line2.last() == e.last());
    assert(strip_cr(line2) == line2);
    assert(strip_cr(line3) == line3);
    assert(lines(json) =~= seq![line0, line1, line2, line3]);
}

/// Progress written by `progress_text` reads back as the same two bounds.
pub proof fn law_progress_round_trip(current_id: u64, ending_id: u64)
    ensures
        parse_progress_text(progress_json(current_id, ending_id)) == Some(
            ProgressState { last_scanned_id: current_id, ending_id },
        ),
{
    let d = decimal(current_id as nat);
    let e = decimal(ending_id as nat);
    lemma_decimal_plain(current_id as nat);
    lemma_decimal_plain(ending_id as nat);
    reveal_strlit("last_scanned_id");
    reveal_strlit("ending_id");
    let n1 = "last_scanned_id"@;
    let n2 = "ending_id"@;
    let line0 = seq!['{'];
    let line1 = progress_line_of(n1, d, seq![',']);
    let line2 = progress_line_of(n2, e, Seq::<char>::empty());
    let line3 = seq!['}'];
    lemma_progress_json_lines(current_id, ending_id);
    let ls = lines(progress_json(current_id, ending_id));
    lemma_line_fields(n1, d, seq![',']);
    lemma_line_fields(n2, e, Seq::<char>::empty());
    let f0 = ProgressFields { last_scanned_id: None, ending_id: None };
    assert(line0.drop_first() =~= Seq::<char>::empty());
    assert(index_or_len(Seq::<char>::empty(), ':') == 0);
    assert(index_or_len(line0, ':') == 1);
    assert(progress_line(f0, line0) == f0);
    let f2 = ProgressFields { last_scanned_id: Some(current_id), ending_id: None };
    assert(progress_line(f0, line1) == f2);
    let f3 = ProgressFields { last_scanned_id: Some(current_id), ending_id: Some(ending_id) };
    assert(n2.len() != n1.len());
    assert(progress_line(f2, line2) == f3);
    assert(line3.drop_first() =~= Seq::<char>::empty());
    assert(index_or_len(line3, ':') == 1);
    assert(progress_line(f3, line3) == f3);
    let t1 = seq![line1, line2, line3];
    let t2 = seq![line2, line3];
    let t3 = seq![line3];
    assert(ls.drop_first() =~= t1);
    assert(t1.drop_first() =~= t2);
    assert(t2.drop_first() =~= t3);
    assert(t3.drop_first() =~= Seq::<Seq<char>>::empty());
    assert(progress_lines(f3, Seq::<Seq<char>>::empty()) == f3);
    assert(progress_lines(f3, t3) == f3);
    assert(progress_lines(f2, t2) == f3);
    assert(progress_lines(f0, t1) == f3);
    assert(progress_lines(f0, ls) == f3);
}


/// What a scan worker does after its `done`-th probe of a range of `total` identifiers.
pub struct ProbeFollowUp {
    /// The progress report to send, if one is due.
    pub report: Option<UiEvent>,
    /// Whether the progress is saved now.
    pub save_progress: bool,
}

/// A progress report is due every fifth probe and at the last one.
pub open spec fn report_due(done: nat, total: nat) -> bool {
    done % 5 == 0 || done == total
}

/// Progress is saved every two hundredth probe.
pub open spec fn save_due(done: nat) -> bool {
    done % 200 == 0
}

impl Scanner {
    /// The number of identifiers in the range that `progress` leaves to scan.
    pub fn range_size(progress: ProgressState) -> (r: usize)
        requires
            progress.last_scanned_id <= progress.ending_id,
        ensures
            r == ((progress.ending_id - progress.last_scanned_id) as u64) as usize,
    {
        (progress.ending_id - progress.last_scanned_id) as usize
    }

    /// What follows the `done`-th probe, of `target_id`, in a range of `total`.
    pub fn after_probe(done: usize, total: usize, target_id: u64) -> (r: ProbeFollowUp)
        ensures
            r.report is Some <==> report_due(done as nat, total as nat),
            r.report matches Some(e) ==> e@ == (UiEventView::ScanProgressUpdate {
                completed_count: done,
                current_id: target_id,
            }),
            r.save_progress == save_due(done as nat),
    {
        let report = if done % 5 == 0 || done == total {
            Some(UiEvent::ScanProgressUpdate { completed_count: done, current_id: target_id })
        } else {
            None
        };
        ProbeFollowUp { report, save_progress: done % 200 == 0 }
    }
}

/// Progress is only saved at a probe whose progress is also reported, and the last
/// probe of the range is always reported.
pub proof fn law_saves_are_reported(done: nat, total: nat)
    ensures
        save_due(done) ==> report_due(done, total),
        report_due(total, total),
{
}


/// A record is only claimable when it says, in either spelling, that the community has
/// no owner and allows public entry; a record that says, in either spelling, that the
/// community is locked never is; and the count read is never zero.
pub proof fn law_claimable_requirements(json: Seq<char>)
    ensures
        contains(json, "\"isLocked\":true"@) ==> claimable_member_count(json) is None,
        contains(json, "\"isLocked\": true"@) ==> claimable_member_count(json) is None,
        !contains(json, "\"owner\":null"@) && !contains(json, "\"owner\": null"@)
            ==> claimable_member_count(json) is None,
        !contains(json, "\"publicEntryAllowed\":true"@) && !contains(
            json,
            "\"publicEntryAllowed\": true"@,
        ) ==> claimable_member_count(json) is None,
        !contains(json, "\"memberCount\":"@) ==> claimable_member_count(json) is None,
        claimable_member_count(json) matches Some(m) ==> 0 < m <= u64::MAX,
{
}

/// The member count of a claimable record is the number written by the digits that
/// follow its first member-count key (after any whitespace), which some other character
/// ends.
pub proof fn law_claimable_count_is_written_count(json: Seq<char>)
    ensures
        claimable_member_count(json) matches Some(m) ==> find(json, "\"memberCount\":"@) matches Some(
            i,
        ) && ({
            let rest = trim_start(json.skip(i + "\"memberCount\":"@.len()));
            let d = digit_run(rest);
            &&& 0 < d < rest.len()
            &&& all_digits(rest.take(d as int))
            &&& digits_value(rest.take(d as int)) == m
        }),
{
    if claimable_member_count(json) is Some {
        let i = find(json, member_count_key())->0;
        let rest = trim_start(json.skip(i + member_count_key().len()));
        let d = digit_run(rest);
        lemma_digit_run(rest);
        let t = rest.take(d as int);
        assert(t.len() == d);
        if t.len() > 0 {
            assert(is_digit(t[0]));
        }
    }
}

/// A reply brings events only with status 200, 429, 403 or 503: a discovery and a
/// success notice for a claimable record on 200 (nothing on 200 otherwise), a
/// rate-limit notice on 429, and a blocked-proxy notice on 403 and 503.
pub proof fn law_reply_events(community_id: u64, response: Seq<char>)
    ensures
        http_status(response) is None ==> reply_events(community_id, response).len() == 0,
        http_status(response) matches Some(c) ==> (c != 200 && c != 429 && c != 403 && c != 503
            ==> reply_events(community_id, response).len() == 0),
        http_status(response) == Some(200nat) ==> (claimable_member_count(response) matches Some(m)
            ==> reply_events(community_id, response) == seq![
            UiEventView::CommunityDiscovered(
                FoundCommunity { community_id, member_count: m as u64 },
            ),
            UiEventView::LogMessage(
                "[SUCCESS] Found claimable community: "@ + decimal(community_id as nat),
            ),
        ]),
        http_status(response) == Some(200nat) && claimable_member_count(response) is None
            ==> reply_events(community_id, response).len() == 0,
        http_status(response) == Some(429nat) ==> reply_events(community_id, response) == seq![
            UiEventView::LogMessage(
                "[429 Rate Limit] ID "@ + decimal(community_id as nat) + " rate limited"@,
            ),
        ],
        http_status(response) == Some(403nat) ==> reply_events(community_id, response) == seq![
            UiEventView::LogMessage(
                "["@ + decimal(403) + "] Proxy blocked on ID "@ + decimal(community_id as nat),
            ),
        ],
        http_status(response) == Some(503nat) ==> reply_events(community_id, response) == seq![
            UiEventView::LogMessage(
                "["@ + decimal(503) + "] Proxy blocked on ID "@ + decimal(community_id as nat),
            ),
        ],
{
}


/// The status code comes from the first line alone: whatever follows the first line
/// break, the code is the same; and it is never above 65535.
pub proof fn law_status_from_first_line(first: Seq<char>, rest1: Seq<char>, rest2: Seq<char>)
    requires
        forall|i: int| 0 <= i < first.len() ==> first[i] != '\n',
    ensures
        http_status(first + seq!['\n'] + rest1) == http_status(first + seq!['\n'] + rest2),
        http_status(first + seq!['\n'] + rest1) matches Some(c) ==> c <= 65535,
{
    lemma_lines_split(first, rest1);
    lemma_lines_split(first, rest2);
}

/// A status line `VERSION CODE REASON` (or `VERSION CODE`) ended by CRLF gives the code,
/// for every code up to 65535, whatever the reply holds after that line.
pub proof fn law_status_line_code(version: Seq<char>, code: nat, reason: Seq<char>, rest: Seq<char>)
    requires
        code <= 65535,
        version.len() > 0,
        forall|i: int| 0 <= i < version.len() ==> !is_space(version[i]) && version[i] != '\n',
        reason.len() == 0 || is_space(reason[0]),
        forall|i: int| 0 <= i < reason.len() ==> reason[i] != '\n',
    ensures
        http_status(version + seq![' '] + decimal(code) + reason + "\r\n"@ + rest) == Some(code),
{
    reveal_strlit("\r\n");
    let d = decimal(code);
    lemma_decimal(code);
    lemma_decimal_plain(code);
    let line = version + seq![' '] + d + reason;
    assert(version + seq![' '] + d + reason + "\r\n"@ + rest =~= (line + seq!['\r']) + seq!['\n']
        + rest);
    assert forall|i: int| 0 <= i < line.len() + 1 implies (line + seq!['\r'])[i] != '\n' by {
        if i < version.len() {
        } else if i == version.len() {
        } else if i < version.len() + 1 + d.len() {
            assert((line + seq!['\r'])[i] == d[i - version.len() - 1]);
        } else if i < line.len() {
            assert((line + seq!['\r'])[i] == reason[i - version.len() - 1 - d.len()]);
        }
    }
    lemma_lines_split(line + seq!['\r'], rest);
    assert((line + seq!['\r']).drop_last() =~= line);
    let ls = lines(version + seq![' '] + d + reason + "\r\n"@ + rest);
    assert(ls[0] == line);
    let tail = seq![' '] + d + reason;
    assert(line =~= version + tail);
    lemma_words_first(version, tail);
    lemma_words_skip_space(tail);
    assert(tail.drop_first() =~= d + reason);
    lemma_words_first(d, reason);
    assert(words(line)[1] == d);
    assert(d[0] != '+');
}


proof fn lemma_progress_lines_concat(acc: ProgressFields, a: Seq<Seq<char>>, b: Seq<Seq<char>>)
    ensures
        progress_lines(acc, a + b) == progress_lines(progress_lines(acc, a), b),
    decreases a.len(),
{
    if a.len() == 0 {
        assert(a + b =~= b);
    } else {
        assert((a + b).drop_first() =~= a.drop_first() + b);
        assert((a + b)[0] == a[0]);
        lemma_progress_lines_concat(progress_line(acc, a[0]), a.drop_first(), b);
    }
}

/// In a progress text a later line for a field wins: saved progress followed by another
/// `last_scanned_id` line resumes from that line's identifier, with the same end.
pub proof fn law_later_progress_line_wins(current_id: u64, ending_id: u64, later_id: u64)
    ensures
        parse_progress_text(progress_json(current_id, ending_id) + progress_line_of(
            "last_scanned_id"@,
            decimal(later_id as nat),
            seq![','],
        ) + seq!['\n']) == Some(ProgressState { last_scanned_id: later_id, ending_id }),
{
    let json = progress_json(current_id, ending_id);
    let d = decimal(later_id as nat);
    let line = progress_line_of("last_scanned_id"@, d, seq![',']);
    reveal_strlit("\n}\n");
    reveal_strlit("last_scanned_id");
    lemma_decimal_plain(later_id as nat);
    assert(json.last() == '\n');
    lemma_lines_concat(json, line + seq!['\n']);
    assert forall|i: int| 0 <= i < line.len() implies line[i] != '\n' by {
        if 20 <= i < 20 + d.len() {
            assert(line[i] == d[i - 20]);
        }
    }
    lemma_lines_split(line, Seq::<char>::empty());
    assert(line + seq!['\n'] + Seq::<char>::empty() =~= line + seq!['\n']);
    assert(lines(Seq::<char>::empty()) =~= Seq::<Seq<char>>::empty());
    assert(strip_cr(line) == line);
    assert(lines(line + seq!['\n']) =~= seq![line]);
    law_progress_round_trip(current_id, ending_id);
    let f0 = ProgressFields { last_scanned_id: None, ending_id: None };
    let f3 = progress_lines(f0, lines(json));
    assert(f3.last_scanned_id == Some(current_id) && f3.ending_id == Some(ending_id));
    lemma_progress_lines_concat(f0, lines(json), seq![line]);
    lemma_line_fields("last_scanned_id"@, d, seq![',']);
    let one = seq![line];
    assert(one.drop_first() =~= Seq::<Seq<char>>::empty());
    assert(one[0] == line);
    let f4 = progress_line(f3, line);
    assert(progress_lines(f4, Seq::<Seq<char>>::empty()) == f4);
    assert(progress_lines(f3, one) == progress_lines(f4, one.drop_first()));
    assert(progress_lines(f3, one) == f4);
    assert(progress_line(f3, line) == ProgressFields {
        last_scanned_id: Some(later_id),
        ending_id: Some(ending_id),
    });
    assert(json + line + seq!['\n'] =~= json + (line + seq!['\n']));
}

} // verus!
