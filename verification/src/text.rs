//! Character-sequence toolkit: the views of strings are `Seq<char>`, and every
//! helper here is stated over those views.

use vstd::prelude::*;
use vstd::std_specs::iter::IteratorSpec;

verus! {

/// The Unicode `White_Space` property, which `char::is_whitespace` tests.
pub open spec fn is_space(c: char) -> bool {
    let u = c as u32;
    ||| 0x9 <= u <= 0xd
    ||| u == 0x20
    ||| u == 0x85
    ||| u == 0xa0
    ||| u == 0x1680
    ||| 0x2000 <= u <= 0x200a
    ||| u == 0x2028
    ||| u == 0x2029
    ||| u == 0x202f
    ||| u == 0x205f
    ||| u == 0x3000
}

pub fn is_space_char(c: char) -> (b: bool)
    ensures
        b == is_space(c),
{
    let u = c as u32;
    (0x9 <= u && u <= 0xd) || u == 0x20 || u == 0x85 || u == 0xa0 || u == 0x1680 || (0x2000 <= u
        && u <= 0x200a) || u == 0x2028 || u == 0x2029 || u == 0x202f || u == 0x205f || u == 0x3000
}

/// The characters of a string slice, in order.
pub fn chars_of(s: &str) -> (v: Vec<char>)
    ensures
        v@ == s@,
{
    broadcast use vstd::string::group_string_axioms;
    let mut v: Vec<char> = Vec::new();
    let mut it = s.chars();
    loop
        invariant
            v@ + it.remaining() == s@,
            it.obeys_prophetic_iter_laws(),
            it.decrease() is Some,
        ensures
            v@ == s@,
        decreases it.decrease()->0,
    {
        match it.next() {
            Some(c) => {
                v.push(c);
            },
            None => {
                break;
            },
        }
    }
    v
}


/// `String::push` appends one character to the string.
pub assume_specification[ String::push ](s: &mut String, ch: char)
    ensures
        final(s)@ == old(s)@.push(ch),
;

/// `String::pop` removes and returns the last character, or returns `None` and leaves
/// an empty string as it is.
pub assume_specification[ String::pop ](s: &mut String) -> (r: Option<char>)
    ensures
        old(s)@.len() == 0 ==> r is None && final(s)@ == old(s)@,
        old(s)@.len() > 0 ==> r == Some(old(s)@.last()) && final(s)@ == old(s)@.drop_last(),
;

/// The string whose characters are `v[lo..hi]`.
pub fn string_of(v: &Vec<char>, lo: usize, hi: usize) -> (s: String)
    requires
        lo <= hi <= v@.len(),
    ensures
        s@ == v@.subrange(lo as int, hi as int),
{
    let mut s = String::new();
    let mut i = lo;
    while i < hi
        invariant
            lo <= i <= hi <= v@.len(),
            s@ == v@.subrange(lo as int, i as int),
        decreases hi - i,
    {
        s.push(v[i]);
        proof {
            assert(v@.subrange(lo as int, i + 1) =~= v@.subrange(lo as int, i as int).push(v@[i as int]));
        }
        i = i + 1;
    }
    s
}

/// Appends the characters `v[lo..hi]` to `s`.
pub fn push_chars(s: &mut String, v: &Vec<char>, lo: usize, hi: usize)
    requires
        lo <= hi <= v@.len(),
    ensures
        final(s)@ == old(s)@ + v@.subrange(lo as int, hi as int),
{
    let ghost start = s@;
    let mut i = lo;
    while i < hi
        invariant
            lo <= i <= hi <= v@.len(),
            s@ == start + v@.subrange(lo as int, i as int),
        decreases hi - i,
    {
        s.push(v[i]);
        proof {
            assert(v@.subrange(lo as int, i + 1) =~= v@.subrange(lo as int, i as int).push(v@[i as int]));
        }
        i = i + 1;
    }
    proof {
        assert(s@ =~= start + v@.subrange(lo as int, hi as int));
    }
}

/// `n` copies of the character `c`.
pub open spec fn repeat_char(c: char, n: nat) -> Seq<char> {
    Seq::new(n, |i: int| c)
}

/// Appends `n` copies of `c` to `s`.
pub fn push_repeat(s: &mut String, c: char, n: usize)
    ensures
        final(s)@ == old(s)@ + repeat_char(c, n as nat),
{
    let ghost start = s@;
    let mut i: usize = 0;
    while i < n
        invariant
            i <= n,
            s@ == start + repeat_char(c, i as nat),
        decreases n - i,
    {
        s.push(c);
        proof {
            assert(repeat_char(c, (i + 1) as nat) =~= repeat_char(c, i as nat).push(c));
        }
        i = i + 1;
    }
}

/// Which characters a trim removes: whitespace, or one given character.
#[derive(Clone, Copy)]
pub enum CharClass {
    Space,
    Exactly(char),
}

pub open spec fn in_class(c: char, k: CharClass) -> bool {
    match k {
        CharClass::Space => is_space(c),
        CharClass::Exactly(x) => c == x,
    }
}

fn in_class_exec(c: char, k: CharClass) -> (b: bool)
    ensures
        b == in_class(c, k),
{
    match k {
        CharClass::Space => is_space_char(c),
        CharClass::Exactly(x) => c == x,
    }
}

/// `s` without its leading characters of class `k` (`trim_start_matches`).
pub open spec fn trim_start_by(s: Seq<char>, k: CharClass) -> Seq<char>
    decreases s.len(),
{
    if s.len() > 0 && in_class(s[0], k) {
        trim_start_by(s.drop_first(), k)
    } else {
        s
    }
}

/// `s` without its trailing characters of class `k` (`trim_end_matches`).
pub open spec fn trim_end_by(s: Seq<char>, k: CharClass) -> Seq<char>
    decreases s.len(),
{
    if s.len() > 0 && in_class(s.last(), k) {
        trim_end_by(s.drop_last(), k)
    } else {
        s
    }
}

/// `s` without its leading and trailing characters of class `k` (`trim_matches`).
pub open spec fn trim_by(s: Seq<char>, k: CharClass) -> Seq<char> {
    trim_end_by(trim_start_by(s, k), k)
}

/// `str::trim`: without leading and trailing whitespace.
pub open spec fn trim(s: Seq<char>) -> Seq<char> {
    trim_by(s, CharClass::Space)
}

/// `str::trim_start`: without leading whitespace.
pub open spec fn trim_start(s: Seq<char>) -> Seq<char> {
    trim_start_by(s, CharClass::Space)
}

/// Bounds of `trim_start_by(v[lo..hi], k)` within `v`.
pub fn trim_start_bound(v: &Vec<char>, lo: usize, hi: usize, k: CharClass) -> (r: usize)
    requires
        lo <= hi <= v@.len(),
    ensures
        lo <= r <= hi,
        v@.subrange(r as int, hi as int) == trim_start_by(v@.subrange(lo as int, hi as int), k),
{
    let mut i = lo;
    while i < hi && in_class_exec(v[i], k)
        invariant
            lo <= i <= hi <= v@.len(),
            trim_start_by(v@.subrange(i as int, hi as int), k) == trim_start_by(
                v@.subrange(lo as int, hi as int),
                k,
            ),
        decreases hi - i,
    {
        proof {
            assert(v@.subrange(i as int, hi as int).drop_first() =~= v@.subrange(i + 1, hi as int));
        }
        i = i + 1;
    }
    i
}

/// Bound `r` with `v[lo..r] == trim_end_by(v[lo..hi], k)`.
pub fn trim_end_bound(v: &Vec<char>, lo: usize, hi: usize, k: CharClass) -> (r: usize)
    requires
        lo <= hi <= v@.len(),
    ensures
        lo <= r <= hi,
        v@.subrange(lo as int, r as int) == trim_end_by(v@.subrange(lo as int, hi as int), k),
{
    let mut j = hi;
    while j > lo && in_class_exec(v[j - 1], k)
        invariant
            lo <= j <= hi <= v@.len(),
            trim_end_by(v@.subrange(lo as int, j as int), k) == trim_end_by(
                v@.subrange(lo as int, hi as int),
                k,
            ),
        decreases j - lo,
    {
        proof {
            assert(v@.subrange(lo as int, j as int).drop_last() =~= v@.subrange(lo as int, j - 1));
        }
        j = j - 1;
    }
    j
}

/// Bounds of `trim_by(v[lo..hi], k)` within `v`.
pub fn trim_bounds(v: &Vec<char>, lo: usize, hi: usize, k: CharClass) -> (r: (usize, usize))
    requires
        lo <= hi <= v@.len(),
    ensures
        lo <= r.0 <= r.1 <= hi,
        v@.subrange(r.0 as int, r.1 as int) == trim_by(v@.subrange(lo as int, hi as int), k),
{
    let a = trim_start_bound(v, lo, hi, k);
    let b = trim_end_bound(v, a, hi, k);
    (a, b)
}


/// `pat` occurs in `s` at position `i`.
pub open spec fn matches_at(s: Seq<char>, pat: Seq<char>, i: int) -> bool {
    0 <= i && i + pat.len() <= s.len() && s.subrange(i, i + pat.len()) == pat
}

/// The first position at or after `i` where `pat` occurs in `s`.
pub open spec fn find_from(s: Seq<char>, pat: Seq<char>, i: int) -> Option<int>
    decreases s.len() + 1 - i,
{
    if i < 0 || i + pat.len() > s.len() {
        None
    } else if matches_at(s, pat, i) {
        Some(i)
    } else {
        find_from(s, pat, i + 1)
    }
}

/// `str::find` with a string pattern: the first position where `pat` occurs.
pub open spec fn find(s: Seq<char>, pat: Seq<char>) -> Option<int> {
    find_from(s, pat, 0)
}

/// `str::contains` with a string pattern.
pub open spec fn contains(s: Seq<char>, pat: Seq<char>) -> bool {
    find(s, pat) is Some
}

proof fn lemma_find_from_shape(s: Seq<char>, pat: Seq<char>, i: int)
    requires
        0 <= i,
    ensures
        find_from(s, pat, i) matches Some(j) ==> i <= j && matches_at(s, pat, j) && forall|k: int|
            i <= k < j ==> !matches_at(s, pat, k),
        find_from(s, pat, i) is None ==> forall|k: int| i <= k ==> !matches_at(s, pat, k),
    decreases s.len() + 1 - i,
{
    if i + pat.len() <= s.len() {
        if !matches_at(s, pat, i) {
            lemma_find_from_shape(s, pat, i + 1);
        }
    }
}

/// `find(s, pat)` is the least position where `pat` occurs in `s`.
pub proof fn lemma_find_first(s: Seq<char>, pat: Seq<char>)
    ensures
        find(s, pat) matches Some(j) ==> matches_at(s, pat, j) && forall|k: int|
            0 <= k < j ==> !matches_at(s, pat, k),
        find(s, pat) is None ==> forall|k: int| !matches_at(s, pat, k),
{
    lemma_find_from_shape(s, pat, 0);
}

fn matches_at_exec(v: &Vec<char>, lo: usize, hi: usize, pat: &Vec<char>, i: usize) -> (b: bool)
    requires
        lo <= i,
        i + pat@.len() <= hi <= v@.len(),
    ensures
        b == matches_at(v@.subrange(lo as int, hi as int), pat@, i - lo),
{
    let ghost s = v@.subrange(lo as int, hi as int);
    let mut k: usize = 0;
    while k < pat.len()
        invariant
            lo <= i,
            i + pat@.len() <= hi <= v@.len(),
            s == v@.subrange(lo as int, hi as int),
            k <= pat@.len(),
            forall|m: int| 0 <= m < k ==> v@[i + m] == pat@[m],
        decreases pat@.len() - k,
    {
        if v[i + k] != pat[k] {
            proof {
                assert(s.subrange(i - lo, i - lo + pat@.len())[k as int] != pat@[k as int]);
            }
            return false;
        }
        k = k + 1;
    }
    proof {
        assert(s.subrange(i - lo, i - lo + pat@.len()) =~= pat@);
    }
    true
}

/// Position (relative to `lo`) of the first occurrence of `pat` in `v[lo..hi]`.
pub fn find_in(v: &Vec<char>, lo: usize, hi: usize, pat: &Vec<char>) -> (r: Option<usize>)
    requires
        lo <= hi <= v@.len(),
    ensures
        r matches Some(j) ==> find(v@.subrange(lo as int, hi as int), pat@) == Some(j as int),
        r is None ==> find(v@.subrange(lo as int, hi as int), pat@) is None,
{
    let ghost s = v@.subrange(lo as int, hi as int);
    if pat.len() == 0 {
        proof {
            assert(s.subrange(0, 0) =~= pat@);
        }
        return Some(0);
    }
    if pat.len() > hi - lo {
        return None;
    }
    let last = hi - pat.len();
    let mut i = lo;
    while i <= last
        invariant
            lo <= i,
            lo <= hi <= v@.len(),
            0 < pat@.len() <= hi - lo,
            last == hi - pat@.len(),
            i <= last + 1,
            s == v@.subrange(lo as int, hi as int),
            find(s, pat@) == find_from(s, pat@, i - lo),
        decreases last + 1 - i,
    {
        if matches_at_exec(v, lo, hi, pat, i) {
            return Some(i - lo);
        }
        i = i + 1;
    }
    None
}

/// The character that writes the decimal digit `d`.
pub open spec fn digit_char(d: nat) -> char {
    ((d + 48) as u32) as char
}

/// The digit character of `d` is a digit, and its value is `d`.
pub proof fn lemma_digit_char_value(d: nat)
    requires
        d < 10,
    ensures
        is_digit(digit_char(d)),
        digit_value(digit_char(d)) == d,
{
    lemma_digit_char(d);
}

proof fn lemma_digit_char(d: nat)
    requires
        d < 10,
    ensures
        is_digit(digit_char(d)),
        digit_value(digit_char(d)) == d,
        digit_char(d) != '+',
{
    assert(((d + 48) as u32) as char as u32 == (d + 48) as u32);
}

/// The decimal numeral of `n`, most significant digit first, without leading zeros.
pub open spec fn decimal(n: nat) -> Seq<char>
    decreases n,
{
    if n < 10 {
        seq![digit_char(n)]
    } else {
        decimal(n / 10).push(digit_char(n % 10))
    }
}

pub open spec fn is_digit(c: char) -> bool {
    48 <= c as u32 <= 57
}

pub open spec fn digit_value(c: char) -> nat {
    (c as u32 - 48) as nat
}

pub open spec fn all_digits(s: Seq<char>) -> bool {
    forall|i: int| 0 <= i < s.len() ==> is_digit(#[trigger] s[i])
}

/// The number that the decimal digits `s` write.
pub open spec fn digits_value(s: Seq<char>) -> nat
    decreases s.len(),
{
    if s.len() == 0 {
        0
    } else {
        digits_value(s.drop_last()) * 10 + digit_value(s.last())
    }
}

/// What `str::parse` gives for an unsigned integer type whose largest value is `max`:
/// an optional `+`, then at least one ASCII digit and nothing else, and a value that fits.
pub open spec fn parse_unsigned(s: Seq<char>, max: nat) -> Option<nat> {
    let body = if s.len() > 0 && s[0] == '+' {
        s.drop_first()
    } else {
        s
    };
    if body.len() > 0 && all_digits(body) && digits_value(body) <= max {
        Some(digits_value(body))
    } else {
        None
    }
}

/// The decimal numeral of `n` is made of digits, and writes `n`.
pub proof fn lemma_decimal(n: nat)
    ensures
        decimal(n).len() > 0,
        all_digits(decimal(n)),
        digits_value(decimal(n)) == n,
    decreases n,
{
    lemma_digit_char(n % 10);
    if n < 10 {
        assert(decimal(n).drop_last() =~= Seq::<char>::empty());
        assert(digits_value(Seq::<char>::empty()) == 0);
    } else {
        lemma_decimal(n / 10);
        let d = decimal(n);
        assert(d.drop_last() =~= decimal(n / 10));
        assert(d.last() == digit_char(n % 10));
        assert(n / 10 * 10 + n % 10 == n);
        assert forall|i: int| 0 <= i < d.len() implies is_digit(#[trigger] d[i]) by {
            if i < d.len() - 1 {
                assert(d[i] == decimal(n / 10)[i]);
            }
        }
    }
}

proof fn lemma_digits_value_prefix(s: Seq<char>, i: int)
    requires
        0 <= i <= s.len(),
    ensures
        digits_value(s.take(i)) <= digits_value(s),
    decreases s.len() - i,
{
    if i < s.len() {
        lemma_digits_value_prefix(s, i + 1);
        assert(s.take(i + 1).drop_last() =~= s.take(i));
    } else {
        assert(s.take(i) =~= s);
    }
}

/// Parses `v[lo..hi]` as `str::parse` does for an unsigned type whose largest value is `max`.
pub fn parse_unsigned_in(v: &Vec<char>, lo: usize, hi: usize, max: u64) -> (r: Option<u64>)
    requires
        lo <= hi <= v@.len(),
    ensures
        r matches Some(x) ==> parse_unsigned(v@.subrange(lo as int, hi as int), max as nat) == Some(
            x as nat,
        ),
        r is None ==> parse_unsigned(v@.subrange(lo as int, hi as int), max as nat) is None,
{
    let ghost s = v@.subrange(lo as int, hi as int);
    let mut start = lo;
    if lo < hi && v[lo] == '+' {
        start = lo + 1;
    }
    let ghost body = v@.subrange(start as int, hi as int);
    proof {
        if lo < hi && v@[lo as int] == '+' {
            assert(body =~= s.drop_first());
        } else {
            assert(body =~= s);
        }
    }
    if start == hi {
        return None;
    }
    proof {
        assert(parse_unsigned(s, max as nat) == (if body.len() > 0 && all_digits(body)
            && digits_value(body) <= max {
            Some(digits_value(body))
        } else {
            None::<nat>
        }));
    }
    let mut value: u64 = 0;
    let mut i = start;
    while i < hi
        invariant
            lo <= start <= i <= hi <= v@.len(),
            start < hi,
            body == v@.subrange(start as int, hi as int),
            s == v@.subrange(lo as int, hi as int),
            parse_unsigned(s, max as nat) == (if body.len() > 0 && all_digits(body) && digits_value(
                body,
            ) <= max {
                Some(digits_value(body))
            } else {
                None::<nat>
            }),
            all_digits(v@.subrange(start as int, i as int)),
            value as nat == digits_value(v@.subrange(start as int, i as int)),
            value <= max,
        decreases hi - i,
    {
        let c = v[i];
        let ghost pre = v@.subrange(start as int, i as int);
        let ghost next = v@.subrange(start as int, i + 1);
        proof {
            assert(next.drop_last() =~= pre);
            assert(next =~= body.take(i + 1 - start));
        }
        let u = c as u32;
        if !(48 <= u && u <= 57) {
            proof {
                assert(body[i - start] == c);
            }
            return None;
        }
        let d = (u - 48) as u64;
        if d > max || value > (max - d) / 10 {
            proof {
                assert(value * 10 + d > max) by (nonlinear_arith)
                    requires
                        d > max || value > (max - d) / 10,
                ;
                lemma_digits_value_prefix(body, i + 1 - start);
            }
            return None;
        }
        proof {
            assert(value * 10 + d <= max) by (nonlinear_arith)
                requires
                    value <= (max - d) / 10,
                    d <= max,
            ;
            assert forall|m: int| 0 <= m < next.len() implies is_digit(#[trigger] next[m]) by {
                if m < next.len() - 1 {
                    assert(next[m] == pre[m]);
                }
            }
        }
        value = value * 10 + d;
        i = i + 1;
    }
    Some(value)
}


/// The character of the decimal digit `d`.
pub fn digit_char_of(d: u64) -> (c: char)
    requires
        d < 10,
    ensures
        c == digit_char(d as nat),
{
    let b: u8 = 48 + d as u8;
    b as char
}

/// The decimal numeral of `n`, as characters.
pub fn decimal_chars(n: u64) -> (v: Vec<char>)
    ensures
        v@ == decimal(n as nat),
{
    let mut tail: Vec<char> = Vec::new();
    let mut m = n;
    while m >= 10
        invariant
            decimal(n as nat) == decimal(m as nat) + tail@,
        decreases m,
    {
        let c = digit_char_of(m % 10);
        tail.insert(0, c);
        proof {
            assert(decimal(m as nat) == decimal((m / 10) as nat).push(c));
            assert(decimal(n as nat) =~= decimal((m / 10) as nat) + tail@);
        }
        m = m / 10;
    }
    tail.insert(0, digit_char_of(m));
    proof {
        assert(tail@ =~= decimal(n as nat));
    }
    tail
}

/// Appends the decimal numeral of `n` to `s`.
pub fn push_decimal(s: &mut String, n: u64)
    ensures
        final(s)@ == old(s)@ + decimal(n as nat),
{
    let digits = decimal_chars(n);
    push_chars(s, &digits, 0, digits.len());
    proof {
        assert(digits@.subrange(0, digits@.len() as int) =~= digits@);
    }
}

/// `trim_start_by` removes a prefix of `s`, and what it leaves does not start in class `k`.
pub proof fn lemma_trim_start_by_suffix(s: Seq<char>, k: CharClass)
    ensures
        trim_start_by(s, k).len() <= s.len(),
        trim_start_by(s, k) == s.skip(s.len() - trim_start_by(s, k).len()),
        trim_start_by(s, k).len() > 0 ==> !in_class(trim_start_by(s, k)[0], k),
    decreases s.len(),
{
    if s.len() > 0 && in_class(s[0], k) {
        lemma_trim_start_by_suffix(s.drop_first(), k);
        let t = trim_start_by(s, k);
        assert(s.drop_first().skip(s.drop_first().len() - t.len()) =~= s.skip(s.len() - t.len()));
    } else {
        assert(s.skip(0) =~= s);
    }
}

/// Length of the run of characters of `s` before its first `c` (all of `s` without one).
pub open spec fn index_or_len(s: Seq<char>, c: char) -> nat
    decreases s.len(),
{
    if s.len() == 0 || s[0] == c {
        0
    } else {
        1 + index_or_len(s.drop_first(), c)
    }
}

pub proof fn lemma_index_or_len(s: Seq<char>, c: char)
    ensures
        index_or_len(s, c) <= s.len(),
        index_or_len(s, c) < s.len() ==> s[index_or_len(s, c) as int] == c,
        forall|j: int| 0 <= j < index_or_len(s, c) ==> s[j] != c,
    decreases s.len(),
{
    if s.len() > 0 && s[0] != c {
        lemma_index_or_len(s.drop_first(), c);
        assert forall|j: int| 0 <= j < index_or_len(s, c) implies s[j] != c by {
            if j > 0 {
                assert(s[j] == s.drop_first()[j - 1]);
            }
        }
    }
}

/// Position of the first `c` in `v[lo..hi]`, or `hi` where there is none.
pub fn index_or_end(v: &Vec<char>, lo: usize, hi: usize, c: char) -> (r: usize)
    requires
        lo <= hi <= v@.len(),
    ensures
        lo <= r <= hi,
        r - lo == index_or_len(v@.subrange(lo as int, hi as int), c),
{
    let mut i = lo;
    while i < hi && v[i] != c
        invariant
            lo <= i <= hi <= v@.len(),
            index_or_len(v@.subrange(lo as int, hi as int), c) == (i - lo) + index_or_len(
                v@.subrange(i as int, hi as int),
                c,
            ),
        decreases hi - i,
    {
        proof {
            assert(v@.subrange(i as int, hi as int).drop_first() =~= v@.subrange(i + 1, hi as int));
        }
        i = i + 1;
    }
    i
}

/// `t` without one trailing carriage return.
pub open spec fn strip_cr(t: Seq<char>) -> Seq<char> {
    if t.len() > 0 && t.last() == '\r' {
        t.drop_last()
    } else {
        t
    }
}

/// `str::lines`: pieces split after each `\n`; a piece that ended in `\n` loses it and
/// then one `\r` before it; a last piece without `\n` is kept as it is.
pub open spec fn lines(s: Seq<char>) -> Seq<Seq<char>>
    decreases s.len(),
{
    if s.len() == 0 {
        seq![]
    } else {
        let e = index_or_len(s, '\n');
        if e < s.len() {
            seq![strip_cr(s.take(e as int))] + lines(s.skip(e + 1 as int))
        } else {
            seq![s]
        }
    }
}

/// The first line of `v[lo..hi]` (with `lo < hi`) is `v[lo..r.0]`, and the lines after
/// it are those of `v[r.1..hi]`.
pub fn next_line(v: &Vec<char>, lo: usize, hi: usize) -> (r: (usize, usize))
    requires
        lo < hi <= v@.len(),
    ensures
        lo <= r.0 <= r.1 <= hi,
        r.1 > lo,
        lines(v@.subrange(lo as int, hi as int)) == seq![v@.subrange(lo as int, r.0 as int)] + lines(
            v@.subrange(r.1 as int, hi as int),
        ),
{
    let ghost s = v@.subrange(lo as int, hi as int);
    let e = index_or_end(v, lo, hi, '\n');
    proof {
        lemma_index_or_len(s, '\n');
    }
    if e == hi {
        proof {
            assert(v@.subrange(hi as int, hi as int) =~= Seq::<char>::empty());
            assert(lines(Seq::<char>::empty()) =~= Seq::<Seq<char>>::empty());
            assert(seq![s] + Seq::<Seq<char>>::empty() =~= seq![s]);
        }
        return (hi, hi);
    }
    let mut end = e;
    if e > lo && v[e - 1] == '\r' {
        end = e - 1;
    }
    proof {
        assert(s.skip(e - lo + 1) =~= v@.subrange(e + 1, hi as int));
        assert(strip_cr(s.take(e - lo)) =~= v@.subrange(lo as int, end as int));
    }
    (end, e + 1)
}


/// Length of the run of non-whitespace characters at the start of `s`.
pub open spec fn word_len(s: Seq<char>) -> nat
    decreases s.len(),
{
    if s.len() == 0 || is_space(s[0]) {
        0
    } else {
        1 + word_len(s.drop_first())
    }
}

pub proof fn lemma_word_len(s: Seq<char>)
    ensures
        word_len(s) <= s.len(),
    decreases s.len(),
{
    if s.len() > 0 && !is_space(s[0]) {
        lemma_word_len(s.drop_first());
    }
}

/// `str::split_whitespace`: the maximal runs of non-whitespace characters, in order.
pub open spec fn words(s: Seq<char>) -> Seq<Seq<char>>
    decreases s.len(),
{
    let t = trim_start(s);
    if t.len() == 0 {
        seq![]
    } else {
        proof {
            lemma_trim_start_by_suffix(s, CharClass::Space);
            lemma_word_len(t);
        }
        let w = word_len(t);
        seq![t.take(w as int)] + words(t.skip(w as int))
    }
}

/// Where `p` holds no whitespace, the first word of `p + q` runs on into that of `q`.
pub proof fn lemma_word_len_concat(p: Seq<char>, q: Seq<char>)
    requires
        forall|i: int| 0 <= i < p.len() ==> !is_space(p[i]),
    ensures
        word_len(p + q) == p.len() + word_len(q),
    decreases p.len(),
{
    if p.len() > 0 {
        assert((p + q).drop_first() =~= p.drop_first() + q);
        lemma_word_len_concat(p.drop_first(), q);
    } else {
        assert(p + q =~= q);
    }
}

/// A word without whitespace, then one space or the end, starts the words of a line.
pub proof fn lemma_words_first(w: Seq<char>, rest: Seq<char>)
    requires
        w.len() > 0,
        forall|i: int| 0 <= i < w.len() ==> !is_space(w[i]),
        rest.len() == 0 || is_space(rest[0]),
    ensures
        words(w + rest) == seq![w] + words(rest),
{
    let s = w + rest;
    assert(trim_start(s) == s);
    lemma_word_len_concat(w, rest);
    assert(word_len(rest) == 0);
    assert(s.take(w.len() as int) =~= w);
    assert(s.skip(w.len() as int) =~= rest);
}

/// Leading whitespace does not change the words.
pub proof fn lemma_words_skip_space(rest: Seq<char>)
    requires
        rest.len() > 0,
        is_space(rest[0]),
    ensures
        words(rest) == words(rest.drop_first()),
{
    assert(trim_start(rest) == trim_start(rest.drop_first()));
}

/// End of the run of non-whitespace characters of `v[lo..hi]` that starts at `lo`.
pub fn word_end(v: &Vec<char>, lo: usize, hi: usize) -> (r: usize)
    requires
        lo <= hi <= v@.len(),
    ensures
        lo <= r <= hi,
        r - lo == word_len(v@.subrange(lo as int, hi as int)),
{
    let mut i = lo;
    while i < hi && !is_space_char(v[i])
        invariant
            lo <= i <= hi <= v@.len(),
            word_len(v@.subrange(lo as int, hi as int)) == (i - lo) + word_len(
                v@.subrange(i as int, hi as int),
            ),
        decreases hi - i,
    {
        proof {
            assert(v@.subrange(i as int, hi as int).drop_first() =~= v@.subrange(i + 1, hi as int));
        }
        i = i + 1;
    }
    i
}

/// The first word of `v[lo..hi]` is `v[r.0..r.1]`, and the words after it are those of
/// `v[r.1..hi]`; `None` where there is no word.
pub fn first_word(v: &Vec<char>, lo: usize, hi: usize) -> (r: Option<(usize, usize)>)
    requires
        lo <= hi <= v@.len(),
    ensures
        r is None ==> words(v@.subrange(lo as int, hi as int)).len() == 0,
        r matches Some((a, b)) ==> lo <= a < b <= hi && words(v@.subrange(lo as int, hi as int))
            == seq![v@.subrange(a as int, b as int)] + words(v@.subrange(b as int, hi as int)),
{
    let ghost s = v@.subrange(lo as int, hi as int);
    let a = trim_start_bound(v, lo, hi, CharClass::Space);
    if a == hi {
        return None;
    }
    let b = word_end(v, a, hi);
    proof {
        let t = v@.subrange(a as int, hi as int);
        lemma_trim_start_by_suffix(s, CharClass::Space);
        assert(t[0] == v@[a as int]);
        assert(word_len(t) > 0);
        assert(t.take(b - a) =~= v@.subrange(a as int, b as int));
        assert(t.skip(b - a) =~= v@.subrange(b as int, hi as int));
    }
    Some((a, b))
}


/// Length of the run of ASCII digits at the start of `s`.
pub open spec fn digit_run(s: Seq<char>) -> nat
    decreases s.len(),
{
    if s.len() == 0 || !is_digit(s[0]) {
        0
    } else {
        1 + digit_run(s.drop_first())
    }
}

/// The digit run of `s` is all digits, and where it stops short a non-digit follows.
pub proof fn lemma_digit_run(s: Seq<char>)
    ensures
        digit_run(s) <= s.len(),
        all_digits(s.take(digit_run(s) as int)),
        digit_run(s) < s.len() ==> !is_digit(s[digit_run(s) as int]),
    decreases s.len(),
{
    if s.len() > 0 && is_digit(s[0]) {
        lemma_digit_run(s.drop_first());
        let t = s.take(digit_run(s) as int);
        assert forall|i: int| 0 <= i < t.len() implies is_digit(#[trigger] t[i]) by {
            if i > 0 {
                assert(t[i] == s.drop_first().take(digit_run(s.drop_first()) as int)[i - 1]);
            }
        }
        if digit_run(s) < s.len() {
            assert(s[digit_run(s) as int] == s.drop_first()[digit_run(s.drop_first()) as int]);
        }
    }
}

fn is_digit_char(c: char) -> (b: bool)
    ensures
        b == is_digit(c),
{
    let u = c as u32;
    48 <= u && u <= 57
}

/// End of the run of ASCII digits of `v[lo..hi]` that starts at `lo`.
pub fn digit_end(v: &Vec<char>, lo: usize, hi: usize) -> (r: usize)
    requires
        lo <= hi <= v@.len(),
    ensures
        lo <= r <= hi,
        r - lo == digit_run(v@.subrange(lo as int, hi as int)),
{
    let mut i = lo;
    while i < hi && is_digit_char(v[i])
        invariant
            lo <= i <= hi <= v@.len(),
            digit_run(v@.subrange(lo as int, hi as int)) == (i - lo) + digit_run(
                v@.subrange(i as int, hi as int),
            ),
        decreases hi - i,
    {
        proof {
            assert(v@.subrange(i as int, hi as int).drop_first() =~= v@.subrange(i + 1, hi as int));
        }
        i = i + 1;
    }
    i
}

/// Whether `v[lo..hi]` is exactly the sequence `pat`.
pub fn equals_in(v: &Vec<char>, lo: usize, hi: usize, pat: &Vec<char>) -> (b: bool)
    requires
        lo <= hi <= v@.len(),
    ensures
        b == (v@.subrange(lo as int, hi as int) == pat@),
{
    if hi - lo != pat.len() {
        return false;
    }
    let mut k: usize = 0;
    while k < pat.len()
        invariant
            lo <= hi <= v@.len(),
            hi - lo == pat@.len(),
            k <= pat@.len(),
            forall|m: int| 0 <= m < k ==> v@[lo + m] == pat@[m],
        decreases pat@.len() - k,
    {
        if v[lo + k] != pat[k] {
            proof {
                assert(v@.subrange(lo as int, hi as int)[k as int] != pat@[k as int]);
            }
            return false;
        }
        k = k + 1;
    }
    proof {
        assert(v@.subrange(lo as int, hi as int) =~= pat@);
    }
    true
}

/// Whether the string `s` contains `pat`.
pub fn contains_str(s: &Vec<char>, pat: &str) -> (b: bool)
    ensures
        b == contains(s@, pat@),
{
    let p = chars_of(pat);
    let n = s.len();
    proof {
        assert(s@.subrange(0, n as int) =~= s@);
    }
    find_in(s, 0, n, &p).is_some()
}


/// Where `p` holds no `c`, the first `c` of `p + q` is that of `q`, moved by `p.len()`.
pub proof fn lemma_index_or_len_concat(p: Seq<char>, q: Seq<char>, c: char)
    requires
        forall|i: int| 0 <= i < p.len() ==> p[i] != c,
    ensures
        index_or_len(p + q, c) == p.len() + index_or_len(q, c),
    decreases p.len(),
{
    if p.len() > 0 {
        assert((p + q).drop_first() =~= p.drop_first() + q);
        lemma_index_or_len_concat(p.drop_first(), q, c);
    } else {
        assert(p + q =~= q);
    }
}

/// A line without `\n`, then `\n`: it is the first line, and the rest are those after it.
pub proof fn lemma_lines_split(p: Seq<char>, rest: Seq<char>)
    requires
        forall|i: int| 0 <= i < p.len() ==> p[i] != '\n',
    ensures
        lines(p + seq!['\n'] + rest) == seq![strip_cr(p)] + lines(rest),
{
    let s = p + seq!['\n'] + rest;
    assert(s =~= p + (seq!['\n'] + rest));
    lemma_index_or_len_concat(p, seq!['\n'] + rest, '\n');
    assert(index_or_len(seq!['\n'] + rest, '\n') == 0);
    assert(s.take(p.len() as int) =~= p);
    assert(s.skip(p.len() + 1 as int) =~= rest);
}

/// Text that ends with a line break, then more text: the lines of the first, then those
/// of the second.
pub proof fn lemma_lines_concat(a: Seq<char>, b: Seq<char>)
    requires
        a.len() > 0,
        a.last() == '\n',
    ensures
        lines(a + b) == lines(a) + lines(b),
    decreases a.len(),
{
    lemma_index_or_len(a, '\n');
    let e = index_or_len(a, '\n');
    assert(e < a.len()) by {
        if e == a.len() {
            assert(a[a.len() - 1] != '\n');
        }
    }
    lemma_index_or_len_concat(a.take(e as int), a.skip(e as int) + b, '\n');
    assert(a + b =~= a.take(e as int) + (a.skip(e as int) + b));
    assert((a.skip(e as int) + b)[0] == '\n');
    assert(index_or_len(a.skip(e as int) + b, '\n') == 0);
    assert forall|i: int| 0 <= i < a.take(e as int).len() implies a.take(e as int)[i] != '\n' by {}
    assert((a + b).take(e as int) =~= a.take(e as int));
    let rest = a.skip(e + 1 as int);
    assert((a + b).skip(e + 1 as int) =~= rest + b);
    if rest.len() == 0 {
        assert(rest + b =~= b);
        assert(lines(rest) =~= Seq::<Seq<char>>::empty());
        assert(lines(a) =~= seq![strip_cr(a.take(e as int))]);
    } else {
        assert(rest.last() == a.last());
        lemma_lines_concat(rest, b);
    }
    assert(lines(a + b) =~= lines(a) + lines(b));
}

/// A last line without `\n` is the only line.
pub proof fn lemma_lines_last(p: Seq<char>)
    requires
        p.len() > 0,
        forall|i: int| 0 <= i < p.len() ==> p[i] != '\n',
    ensures
        lines(p) == seq![p],
{
    lemma_index_or_len(p, '\n');
}

/// Whitespace around a core that neither starts nor ends with whitespace is trimmed
/// away, and only that.
pub proof fn lemma_trim_pad(pad: Seq<char>, core: Seq<char>)
    requires
        forall|i: int| 0 <= i < pad.len() ==> is_space(pad[i]),
        core.len() > 0,
        !is_space(core[0]),
        !is_space(core.last()),
    ensures
        trim(pad + core + pad) == core,
{
    lemma_trim_start_pad(pad, core + pad);
    assert(pad + core + pad =~= pad + (core + pad));
    lemma_trim_end_pad(core, pad);
    assert(trim_start_by(core, CharClass::Space) == core);
}

proof fn lemma_trim_start_pad(pad: Seq<char>, rest: Seq<char>)
    requires
        forall|i: int| 0 <= i < pad.len() ==> is_space(pad[i]),
        rest.len() > 0,
        !is_space(rest[0]),
    ensures
        trim_start_by(pad + rest, CharClass::Space) == rest,
    decreases pad.len(),
{
    if pad.len() == 0 {
        assert(pad + rest =~= rest);
    } else {
        assert((pad + rest).drop_first() =~= pad.drop_first() + rest);
        lemma_trim_start_pad(pad.drop_first(), rest);
    }
}

proof fn lemma_trim_end_pad(core: Seq<char>, pad: Seq<char>)
    requires
        forall|i: int| 0 <= i < pad.len() ==> is_space(pad[i]),
        core.len() > 0,
        !is_space(core.last()),
    ensures
        trim_end_by(core + pad, CharClass::Space) == core,
    decreases pad.len(),
{
    if pad.len() == 0 {
        assert(core + pad =~= core);
    } else {
        assert((core + pad).drop_last() =~= core + pad.drop_last());
        lemma_trim_end_pad(core, pad.drop_last());
    }
}

/// A sequence that neither starts nor ends in class `k` is left as it is by `trim_by`.
pub proof fn lemma_trim_by_fixed(s: Seq<char>, k: CharClass)
    requires
        s.len() > 0,
        !in_class(s[0], k),
        !in_class(s.last(), k),
    ensures
        trim_by(s, k) == s,
{
}

/// A decimal numeral neither starts nor ends with whitespace, quotes, commas, `+`, `:`
/// or line breaks, and holds none of them.
pub proof fn lemma_decimal_plain(n: nat)
    ensures
        decimal(n).len() > 0,
        forall|i: int| 0 <= i < decimal(n).len() ==> {
            let c = #[trigger] decimal(n)[i];
            &&& !is_space(c)
            &&& c != '"'
            &&& c != ','
            &&& c != '+'
            &&& c != ':'
            &&& c != '\n'
            &&& c != '\r'
        },
        parse_unsigned(decimal(n), u64::MAX as nat) == (if n <= u64::MAX {
            Some(n)
        } else {
            None::<nat>
        }),
{
    lemma_decimal(n);
    let d = decimal(n);
    assert forall|i: int| 0 <= i < d.len() implies {
        let c = #[trigger] d[i];
        &&& !is_space(c)
        &&& c != '"'
        &&& c != ','
        &&& c != '+'
        &&& c != ':'
        &&& c != '\n'
        &&& c != '\r'
    } by {
        assert(is_digit(d[i]));
    }
    assert(d[0] != '+');
}

} // verus!
