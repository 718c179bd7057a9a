//! Building text: appending characters and decimal numbers to a `String`.
use vstd::prelude::*;

verus! {

/// Appends one character. Calls `String::push`; the contract claims that
/// the string's characters afterwards are the old ones followed by `c`.
#[verifier::external_body]
pub(crate) fn push_char(s: &mut String, c: char)
    ensures
        final(s)@ == old(s)@.push(c),
{
    s.push(c);
}

/// The ASCII digit for `d` (0 to 9).
pub open spec fn digit(d: nat) -> char {
    (48 + d) as char
}

/// The decimal representation of `n`, without leading zeros.
pub open spec fn decimal(n: nat) -> Seq<char>
    decreases n,
{
    if n < 10 {
        seq![digit(n)]
    } else {
        decimal(n / 10).push(digit(n % 10))
    }
}

/// Appends the decimal representation of `n`.
pub fn push_decimal(s: &mut String, n: u64)
    ensures
        final(s)@ == old(s)@ + decimal(n as nat),
    decreases n,
{
    if n >= 10 {
        push_decimal(s, n / 10);
    }
    let d = (n % 10) as u8;
    let c = (48u8 + d) as char;
    push_char(s, c);
    proof {
        assert(decimal(n as nat) == (if n < 10 { seq![digit(n as nat)] } else { decimal(
            (n / 10) as nat,
        ).push(digit((n % 10) as nat)) }));
    }
}

} // verus!

verus! {

/// Whether two strings hold the same characters.
pub fn same_text(a: &str, b: &str) -> (r: bool)
    ensures
        r == (a@ == b@),
{
    let n = a.unicode_len();
    if n != b.unicode_len() {
        return false;
    }
    let mut i: usize = 0;
    while i < n
        invariant
            n == a@.len(),
            n == b@.len(),
            i <= n,
            forall|j: int| 0 <= j < i ==> a@[j] == b@[j],
        decreases n - i,
    {
        if a.get_char(i) != b.get_char(i) {
            return false;
        }
        i = i + 1;
    }
    assert(a@ =~= b@);
    true
}

/// Whether `c` is an ASCII digit.
pub open spec fn is_digit(c: char) -> bool {
    '0' <= c <= '9'
}

/// Every character of `s` is an ASCII digit.
pub open spec fn all_digits(s: Seq<char>) -> bool {
    forall|i: int| 0 <= i < s.len() ==> is_digit(#[trigger] s[i])
}

/// The number written by the decimal digits `s` (0 for no digits).
pub open spec fn digits_value(s: Seq<char>) -> int
    decreases s.len(),
{
    if s.len() == 0 {
        0
    } else {
        digits_value(s.drop_last()) * 10 + (s.last() as int - 48)
    }
}

/// The unsigned number that `s` writes, as the standard library reads it:
/// an optional `+` and then one or more ASCII digits, with a value of at
/// most `max`.
pub open spec fn parsed_unsigned(s: Seq<char>, max: int) -> Option<int> {
    let body = if s.len() > 0 && s[0] == '+' { s.drop_first() } else { s };
    if body.len() > 0 && all_digits(body) && digits_value(body) <= max {
        Some(digits_value(body))
    } else {
        None
    }
}

/// Reads an unsigned 32-bit number. Calls `str::parse::<u32>`; the
/// contract claims that it succeeds exactly on an optional `+` followed by
/// one or more ASCII digits whose value fits in 32 bits, with that value.
#[verifier::external_body]
pub(crate) fn parse_u32(s: &str) -> (r: Option<u32>)
    ensures
        r matches Some(v) ==> parsed_unsigned(s@, u32::MAX as int) == Some(v as int),
        r is None ==> parsed_unsigned(s@, u32::MAX as int) is None,
{
    s.parse::<u32>().ok()
}

/// Reads an unsigned 64-bit number. Calls `str::parse::<u64>`; the
/// contract claims that it succeeds exactly on an optional `+` followed by
/// one or more ASCII digits whose value fits in 64 bits, with that value.
#[verifier::external_body]
pub(crate) fn parse_u64(s: &str) -> (r: Option<u64>)
    ensures
        r matches Some(v) ==> parsed_unsigned(s@, u64::MAX as int) == Some(v as int),
        r is None ==> parsed_unsigned(s@, u64::MAX as int) is None,
{
    s.parse::<u64>().ok()
}

} // verus!

verus! {

/// Appends the characters of `t`.
pub fn push_text(s: &mut String, t: &str)
    ensures
        final(s)@ == old(s)@ + t@,
{
    let ghost start = s@;
    let n = t.unicode_len();
    let mut i: usize = 0;
    while i < n
        invariant
            n == t@.len(),
            i <= n,
            s@ == start + t@.take(i as int),
        decreases n - i,
    {
        push_char(s, t.get_char(i));
        proof {
            assert(t@.take(i + 1) =~= t@.take(i as int).push(t@[i as int]));
        }
        i = i + 1;
    }
    assert(t@.take(n as int) =~= t@);
}

/// `piece` repeated `n` times.
pub open spec fn repeated(piece: Seq<char>, n: nat) -> Seq<char>
    decreases n,
{
    if n == 0 {
        seq![]
    } else {
        repeated(piece, (n - 1) as nat) + piece
    }
}

/// Appends `piece` `n` times.
pub fn push_repeated(s: &mut String, piece: &str, n: usize)
    ensures
        final(s)@ == old(s)@ + repeated(piece@, n as nat),
{
    let ghost start = s@;
    let mut i: usize = 0;
    while i < n
        invariant
            i <= n,
            s@ == start + repeated(piece@, i as nat),
        decreases n - i,
    {
        push_text(s, piece);
        proof {
            assert(start + repeated(piece@, (i + 1) as nat) =~= start + repeated(piece@, i as nat) + piece@);
        }
        i = i + 1;
    }
}

/// `piece` repeated `n` times.
pub fn repeat_text(piece: &str, n: usize) -> (r: String)
    ensures
        r@ == repeated(piece@, n as nat),
{
    let mut s = String::new();
    push_repeated(&mut s, piece, n);
    assert(s@ =~= repeated(piece@, n as nat));
    s
}

/// The decimal representation of `n`, with a minus sign when negative.
pub open spec fn signed_decimal(n: int) -> Seq<char> {
    if n < 0 {
        seq!['-'] + decimal((-n) as nat)
    } else {
        decimal(n as nat)
    }
}

/// `text` right-aligned in a field of `width` characters.
pub open spec fn padded(text: Seq<char>, width: nat) -> Seq<char> {
    if text.len() < width {
        repeated(seq![' '], (width - text.len()) as nat) + text
    } else {
        text
    }
}

/// The decimal representation of `n`, with a minus sign when negative.
pub fn signed_text(n: i64) -> (r: String)
    ensures
        r@ == signed_decimal(n as int),
{
    let mut s = String::new();
    if n < 0 {
        push_char(&mut s, '-');
        let m: u64 = if n == i64::MIN { 9_223_372_036_854_775_808u64 } else { (-n) as u64 };
        push_decimal(&mut s, m);
    } else {
        push_decimal(&mut s, n as u64);
    }
    assert(s@ =~= signed_decimal(n as int));
    s
}

/// Appends `text` right-aligned in a field of three characters.
pub fn push_padded3(s: &mut String, text: &str)
    ensures
        final(s)@ == old(s)@ + padded(text@, 3),
{
    let ghost start = s@;
    let len = text.unicode_len();
    if len < 3 {
        push_repeated(s, " ", 3 - len);
    }
    push_text(s, text);
    proof {
        reveal_strlit(" ");
        assert(" "@ =~= seq![' ']);
        assert(s@ =~= start + padded(text@, 3));
    }
}

} // verus!
