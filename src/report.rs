//! Text helpers for reports: digit grouping and key truncation.
use vstd::prelude::*;
use vstd::string::{StrSliceExecFns, StringExecFns};

verus! {

/// The decimal digit `d` as text.
pub open spec fn digit_text(d: nat) -> Seq<char> {
    if d == 0 {
        "0"@
    } else if d == 1 {
        "1"@
    } else if d == 2 {
        "2"@
    } else if d == 3 {
        "3"@
    } else if d == 4 {
        "4"@
    } else if d == 5 {
        "5"@
    } else if d == 6 {
        "6"@
    } else if d == 7 {
        "7"@
    } else if d == 8 {
        "8"@
    } else {
        "9"@
    }
}

/// Decimal notation of `n`, without separators or leading zeros.
pub open spec fn plain_of(n: nat) -> Seq<char>
    decreases n,
{
    if n < 10 {
        digit_text(n)
    } else {
        plain_of(n / 10) + digit_text(n % 10)
    }
}

/// Three digits of `m < 1000`, zero-padded.
pub open spec fn pad3(m: nat) -> Seq<char> {
    digit_text(m / 100) + digit_text((m / 10) % 10) + digit_text(m % 10)
}

/// Decimal notation of `n` with a comma between groups of three digits.
pub open spec fn commas_of(n: nat) -> Seq<char>
    decreases n,
{
    if n < 1000 {
        plain_of(n)
    } else {
        commas_of(n / 1000) + ","@ + pad3(n % 1000)
    }
}

/// `key` when it has at most `max_chars` characters; else its first
/// `max_chars - 3` characters followed by "...".
pub open spec fn truncated(key: Seq<char>, max_chars: nat) -> Seq<char> {
    if key.len() <= max_chars {
        key
    } else {
        key.take(max_chars - 3) + "..."@
    }
}

fn digit_str(d: u64) -> (r: &'static str)
    requires
        d < 10,
    ensures
        r@ == digit_text(d as nat),
{
    if d == 0 {
        "0"
    } else if d == 1 {
        "1"
    } else if d == 2 {
        "2"
    } else if d == 3 {
        "3"
    } else if d == 4 {
        "4"
    } else if d == 5 {
        "5"
    } else if d == 6 {
        "6"
    } else if d == 7 {
        "7"
    } else if d == 8 {
        "8"
    } else {
        "9"
    }
}

fn plain_digits(n: u64) -> (r: String)
    ensures
        r@ == plain_of(n as nat),
    decreases n,
{
    if n < 10 {
        String::from_str(digit_str(n))
    } else {
        let mut s = plain_digits(n / 10);
        s.append(digit_str(n % 10));
        s
    }
}

/// Decimal notation of `n` with thousands separated by commas
/// (`1234567` gives "1,234,567").
pub fn format_with_commas(n: u64) -> (r: String)
    ensures
        r@ == commas_of(n as nat),
    decreases n,
{
    if n < 1000 {
        plain_digits(n)
    } else {
        let mut s = format_with_commas(n / 1000);
        s.append(",");
        let m = n % 1000;
        s.append(digit_str(m / 100));
        s.append(digit_str((m / 10) % 10));
        s.append(digit_str(m % 10));
        s
    }
}

/// Shortens a long key for display, marking the cut with "...".
pub fn truncate_key(key: &str, max_chars: usize) -> (r: String)
    requires
        key@.len() <= max_chars || max_chars >= 3,
    ensures
        r@ == truncated(key@, max_chars as nat),
{
    if key.unicode_len() <= max_chars {
        String::from_str(key)
    } else {
        let mut s = String::from_str(key.substring_char(0, max_chars - 3));
        s.append("...");
        assert(key@.subrange(0, max_chars - 3) == key@.take(max_chars - 3));
        s
    }
}

} // verus!
