//! Terminal styling codes and number formatting shared by the dashboard.

use crate::text::{decimal, decimal_chars, digit_char, lemma_decimal_plain};
use vstd::prelude::*;

verus! {

/// A terminal control sequence, or plain text to show.
pub enum Ansi<'a> {
    MoveTopLeft,
    ClearLine,
    Reset,
    Bold,
    BgBlue,
    FgCyan,
    FgYellow,
    FgGray,
    BgGreen,
    Text(&'a str),
}

/// The characters that a style writes to the terminal.
pub open spec fn ansi_text(a: Ansi) -> Seq<char> {
    match a {
        Ansi::MoveTopLeft => "\x1B[H"@,
        Ansi::ClearLine => "\x1B[K"@,
        Ansi::Reset => "\x1B[0m"@,
        Ansi::Bold => "\x1B[1m"@,
        Ansi::BgBlue => "\x1B[48;2;0;120;215m\x1B[38;2;255;255;255m"@,
        Ansi::FgCyan => "\x1B[38;2;0;220;255m"@,
        Ansi::FgYellow => "\x1B[38;2;255;215;0m"@,
        Ansi::FgGray => "\x1B[38;2;120;120;120m"@,
        Ansi::BgGreen => "\x1B[48;2;40;160;80m\x1B[38;2;0;0;0m"@,
        Ansi::Text(content) => content@,
    }
}

impl<'a> Ansi<'a> {
    /// The text to write for this style.
    pub fn as_text(&self) -> (r: String)
        ensures
            r@ == ansi_text(*self),
    {
        match self {
            Ansi::MoveTopLeft => String::from_str("\x1B[H"),
            Ansi::ClearLine => String::from_str("\x1B[K"),
            Ansi::Reset => String::from_str("\x1B[0m"),
            Ansi::Bold => String::from_str("\x1B[1m"),
            Ansi::BgBlue => String::from_str("\x1B[48;2;0;120;215m\x1B[38;2;255;255;255m"),
            Ansi::FgCyan => String::from_str("\x1B[38;2;0;220;255m"),
            Ansi::FgYellow => String::from_str("\x1B[38;2;255;215;0m"),
            Ansi::FgGray => String::from_str("\x1B[38;2;120;120;120m"),
            Ansi::BgGreen => String::from_str("\x1B[48;2;40;160;80m\x1B[38;2;0;0;0m"),
            Ansi::Text(content) => String::from_str(content),
        }
    }
}

/// Digits grouped in threes from the right, the groups separated by commas.
pub open spec fn group_thousands(d: Seq<char>) -> Seq<char>
    decreases d.len(),
{
    if d.len() <= 3 {
        d
    } else {
        group_thousands(d.take(d.len() - 3)) + seq![','] + d.skip(d.len() - 3)
    }
}

/// `n` in decimal with thousands separators, as in `1,234,567`.
pub open spec fn formatted_number(n: nat) -> Seq<char> {
    group_thousands(decimal(n))
}

/// What the loop has written after the first `i` digits of `d` (which has `n` digits):
/// each digit, with a comma before it where a multiple of three digits follow it.
spec fn commas_upto(d: Seq<char>, n: int, i: int) -> Seq<char>
    decreases i,
{
    if i <= 0 {
        seq![]
    } else {
        let j = i - 1;
        let sep = if j > 0 && (n - j) % 3 == 0 {
            seq![',']
        } else {
            seq![]
        };
        commas_upto(d, n, j) + sep + seq![d[j]]
    }
}

proof fn lemma_commas_prefix(d: Seq<char>, k: int, i: int)
    requires
        0 <= i <= k <= d.len(),
        (d.len() - k) % 3 == 0,
    ensures
        commas_upto(d, d.len() as int, i) == commas_upto(d.take(k), k, i),
    decreases i,
{
    if i > 0 {
        lemma_commas_prefix(d, k, i - 1);
        assert((d.len() - (i - 1)) % 3 == (k - (i - 1)) % 3);
    }
}

proof fn lemma_commas_short(d: Seq<char>, i: int)
    requires
        0 <= i <= d.len() <= 3,
    ensures
        commas_upto(d, d.len() as int, i) == d.take(i),
    decreases i,
{
    if i > 0 {
        lemma_commas_short(d, i - 1);
        assert(d.take(i) =~= d.take(i - 1) + seq![d[i - 1]]);
    }
}

proof fn lemma_commas_group(d: Seq<char>)
    ensures
        commas_upto(d, d.len() as int, d.len() as int) == group_thousands(d),
    decreases d.len(),
{
    let n = d.len() as int;
    if n <= 3 {
        lemma_commas_short(d, n);
        assert(d.take(n) =~= d);
    } else {
        let k = n - 3;
        lemma_commas_group(d.take(k));
        lemma_commas_prefix(d, k, k);
        assert(d.take(k).len() == k);
        let a = commas_upto(d, n, k);
        assert(commas_upto(d, n, k + 1) == a + seq![','] + seq![d[k]]);
        assert(commas_upto(d, n, k + 2) == a + seq![','] + seq![d[k]] + seq![d[k + 1]]);
        assert(commas_upto(d, n, k + 3) == a + seq![','] + seq![d[k]] + seq![d[k + 1]] + seq![
            d[k + 2],
        ]);
        assert(a + seq![','] + seq![d[k]] + seq![d[k + 1]] + seq![d[k + 2]] =~= a + seq![','] + d.skip(
            k,
        ));
    }
}

/// Formats `numeric_value` in decimal with commas between groups of three digits.
pub fn format_number(numeric_value: usize) -> (r: String)
    ensures
        r@ == formatted_number(numeric_value as nat),
{
    let digits = decimal_chars(numeric_value as u64);
    let n = digits.len();
    let mut formatted_result = String::new();
    let mut i: usize = 0;
    while i < n
        invariant
            i <= n == digits@.len(),
            formatted_result@ == commas_upto(digits@, n as int, i as int),
        decreases n - i,
    {
        if i > 0 && (n - i) % 3 == 0 {
            formatted_result.push(',');
        }
        formatted_result.push(digits[i]);
        proof {
            let sep = if i > 0 && (n - i) % 3 == 0 {
                seq![',']
            } else {
                seq![]
            };
            assert(commas_upto(digits@, n as int, i + 1) == commas_upto(digits@, n as int, i as int)
                + sep + seq![digits@[i as int]]);
            assert(formatted_result@ =~= commas_upto(digits@, n as int, i + 1));
        }
        i = i + 1;
    }
    proof {
        lemma_commas_group(digits@);
    }
    formatted_result
}


/// `s` with its commas left out.
pub open spec fn without_commas(s: Seq<char>) -> Seq<char>
    decreases s.len(),
{
    if s.len() == 0 {
        s
    } else if s.last() == ',' {
        without_commas(s.drop_last())
    } else {
        without_commas(s.drop_last()).push(s.last())
    }
}

proof fn lemma_without_commas_concat(a: Seq<char>, b: Seq<char>)
    ensures
        without_commas(a + b) == without_commas(a) + without_commas(b),
    decreases b.len(),
{
    if b.len() == 0 {
        assert(a + b =~= a);
        assert(without_commas(a) + without_commas(b) =~= without_commas(a));
    } else {
        assert((a + b).drop_last() =~= a + b.drop_last());
        lemma_without_commas_concat(a, b.drop_last());
        if b.last() != ',' {
            assert(without_commas(a) + without_commas(b.drop_last()).push(b.last()) =~= (
            without_commas(a) + without_commas(b.drop_last())).push(b.last()));
        }
    }
}

proof fn lemma_without_commas_digits(s: Seq<char>)
    requires
        forall|i: int| 0 <= i < s.len() ==> s[i] != ',',
    ensures
        without_commas(s) == s,
    decreases s.len(),
{
    if s.len() > 0 {
        lemma_without_commas_digits(s.drop_last());
        assert(s.drop_last().push(s.last()) =~= s);
    }
}

proof fn lemma_group_thousands(d: Seq<char>)
    requires
        d.len() > 0,
        forall|i: int| 0 <= i < d.len() ==> d[i] != ',',
    ensures
        without_commas(group_thousands(d)) == d,
        group_thousands(d).len() == d.len() + (d.len() - 1) / 3,
    decreases d.len(),
{
    if d.len() > 3 {
        let k = d.len() - 3;
        lemma_group_thousands(d.take(k));
        let g = group_thousands(d.take(k));
        lemma_without_commas_concat(g + seq![','], d.skip(k));
        lemma_without_commas_concat(g, seq![',']);
        assert(seq![','].drop_last() =~= Seq::<char>::empty());
        assert(seq![','].last() == ',');
        assert(without_commas(Seq::<char>::empty()) == Seq::<char>::empty());
        assert(without_commas(seq![',']) == without_commas(seq![','].drop_last()));
        assert(without_commas(seq![',']) =~= Seq::<char>::empty());
        lemma_without_commas_digits(d.skip(k));
        assert(d.take(k) + d.skip(k) =~= d);
    } else {
        lemma_without_commas_digits(d);
    }
}

/// Formatting only adds commas: without them the digits of `n` are left, in order, and
/// one comma stands for each full group of three digits after the first digit.
pub proof fn law_format_number_digits(n: nat)
    ensures
        without_commas(formatted_number(n)) == decimal(n),
        formatted_number(n).len() == decimal(n).len() + (decimal(n).len() - 1) / 3,
{
    lemma_decimal_plain(n);
    lemma_group_thousands(decimal(n));
}


/// Below 1000 a number is written as it is; from 1000 on, its last three digits follow a
/// comma after the formatted thousands: `f(n) == f(n / 1000) + "," + d2 d1 d0`.
pub proof fn law_format_number_thousands(n: nat)
    ensures
        n < 1000 ==> formatted_number(n) == decimal(n),
        n >= 1000 ==> formatted_number(n) == formatted_number(n / 1000) + seq![','] + seq![
            digit_char((n / 100) % 10),
            digit_char((n / 10) % 10),
            digit_char(n % 10),
        ],
{
    lemma_decimal_plain(n);
    if n < 1000 {
        if n >= 100 {
            assert(decimal(n) == decimal(n / 10).push(digit_char(n % 10)));
            assert(decimal(n / 10) == decimal(n / 100).push(digit_char((n / 10) % 10)));
            assert(n / 10 / 10 == n / 100);
            assert(decimal(n).len() == 3);
        } else if n >= 10 {
            assert(decimal(n) == decimal(n / 10).push(digit_char(n % 10)));
            assert(decimal(n / 10).len() == 1);
            assert(decimal(n).len() == 2);
        }
    } else {
        let d = decimal(n);
        let q = decimal(n / 1000);
        lemma_decimal_plain(n / 1000);
        assert(n / 10 / 10 == n / 100);
        assert(n / 100 / 10 == n / 1000);
        assert(decimal(n / 100) == q.push(digit_char((n / 100) % 10)));
        assert(decimal(n / 10) == decimal(n / 100).push(digit_char((n / 10) % 10)));
        assert(d == decimal(n / 10).push(digit_char(n % 10)));
        let t = seq![digit_char((n / 100) % 10), digit_char((n / 10) % 10), digit_char(n % 10)];
        assert(d =~= q + t);
        assert(d.len() > 3);
        assert(d.take(d.len() - 3) =~= q);
        assert(d.skip(d.len() - 3) =~= t);
    }
}

} // verus!
