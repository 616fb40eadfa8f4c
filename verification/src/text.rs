//! Characters and strings: classes of characters, decimal numerals and
//! building strings one character at a time.
use vstd::prelude::*;

verus! {

/// Appends one character with `String::push`.
#[verifier::external_body]
pub(crate) fn push_char(s: &mut String, c: char)
    ensures
        final(s)@ == old(s)@.push(c),
{
    s.push(c);
}

/// Appends the characters of `t`.
pub fn push_str(s: &mut String, t: &str)
    ensures
        final(s)@ == old(s)@ + t@,
{
    let ghost start = s@;
    for c in it: t.chars()
        invariant
            it.seq() == t@,
            s@ == start + t@.take(it.index() as int),
    {
        proof {
            assert(t@.take(it.index() + 1) =~= t@.take(it.index() as int).push(c));
        }
        push_char(s, c);
    }
    proof {
        assert(t@.take(t@.len() as int) =~= t@);
    }
}

/// The characters of `s`, in order.
pub fn str_chars(s: &str) -> (v: Vec<char>)
    ensures
        v@ == s@,
{
    let mut v: Vec<char> = Vec::new();
    for c in it: s.chars()
        invariant
            v@ == it.seq().take(it.index() as int),
            it.seq() == s@,
    {
        v.push(c);
    }
    v
}

/// A string that holds the characters of `v[from..to]`.
pub fn string_of(v: &Vec<char>, from: usize, to: usize) -> (s: String)
    requires
        from <= to <= v.len(),
    ensures
        s@ == v@.subrange(from as int, to as int),
{
    let mut s = String::new();
    let mut i = from;
    while i < to
        invariant
            from <= i <= to <= v.len(),
            s@ == v@.subrange(from as int, i as int),
        decreases to - i,
    {
        proof {
            assert(v@.subrange(from as int, i + 1) =~= v@.subrange(from as int, i as int).push(
                v@[i as int],
            ));
        }
        push_char(&mut s, v[i]);
        i = i + 1;
    }
    s
}

/// The text `nil`.
pub open spec fn nil_text() -> Seq<char> {
    seq!['n', 'i', 'l']
}

/// The text `t`.
pub open spec fn t_text() -> Seq<char> {
    seq!['t']
}

pub proof fn lemma_nil_literal()
    ensures
        "nil"@ == nil_text(),
        "t"@ == t_text(),
{
    reveal_strlit("nil");
    reveal_strlit("t");
}

pub open spec fn is_ascii_digit(c: char) -> bool {
    '0' <= c <= '9'
}

pub open spec fn is_ascii_alpha(c: char) -> bool {
    ('a' <= c <= 'z') || ('A' <= c <= 'Z')
}

/// White space as the reader skips it: space, tab, carriage return, line feed.
pub open spec fn is_space(c: char) -> bool {
    c == ' ' || c == '\t' || c == '\r' || c == '\n'
}

/// The signs, besides letters and digits, that may stand inside an identifier.
pub open spec fn is_sign(c: char) -> bool {
    c == '_' || c == '-' || c == '+' || c == '*' || c == '/' || c == '|' || c == '.' || c == ';'
        || c == '~' || c == '!' || c == '@' || c == '`' || c == '´' || c == '$' || c == '€'
        || c == '£' || c == '¤' || c == '%' || c == '#' || c == '\\' || c == '^' || c == '<'
        || c == '>' || c == '='
}

/// The characters that may start an identifier.
pub open spec fn is_atom_start(c: char) -> bool {
    is_ascii_alpha(c) || is_sign(c) || c == '&' || c == ','
}

/// The characters that may follow the first one of an identifier.
pub open spec fn is_atom_continue(c: char) -> bool {
    is_ascii_alpha(c) || is_ascii_digit(c) || is_sign(c)
}

pub fn digit(c: char) -> (b: bool)
    ensures
        b == is_ascii_digit(c),
{
    '0' <= c && c <= '9'
}

pub fn space(c: char) -> (b: bool)
    ensures
        b == is_space(c),
{
    c == ' ' || c == '\t' || c == '\r' || c == '\n'
}

fn sign(c: char) -> (b: bool)
    ensures
        b == is_sign(c),
{
    c == '_' || c == '-' || c == '+' || c == '*' || c == '/' || c == '|' || c == '.' || c == ';'
        || c == '~' || c == '!' || c == '@' || c == '`' || c == '´' || c == '$' || c == '€'
        || c == '£' || c == '¤' || c == '%' || c == '#' || c == '\\' || c == '^' || c == '<'
        || c == '>' || c == '='
}

pub fn atom_start(c: char) -> (b: bool)
    ensures
        b == is_atom_start(c),
{
    ('a' <= c && c <= 'z') || ('A' <= c && c <= 'Z') || sign(c) || c == '&' || c == ','
}

pub fn atom_continue(c: char) -> (b: bool)
    ensures
        b == is_atom_continue(c),
{
    ('a' <= c && c <= 'z') || ('A' <= c && c <= 'Z') || ('0' <= c && c <= '9') || sign(c)
}

/// The value of a hexadecimal digit, in either case.
pub open spec fn hex_value(c: char) -> Option<u32> {
    if '0' <= c <= '9' {
        Some((c as u32 - '0' as u32) as u32)
    } else if 'a' <= c <= 'f' {
        Some((c as u32 - 'a' as u32 + 10) as u32)
    } else if 'A' <= c <= 'F' {
        Some((c as u32 - 'A' as u32 + 10) as u32)
    } else {
        None
    }
}

pub fn hex_digit(c: char) -> (r: Option<u32>)
    ensures
        r == hex_value(c),
        r matches Some(v) ==> v < 16,
{
    if '0' <= c && c <= '9' {
        Some((c as u32) - ('0' as u32))
    } else if 'a' <= c && c <= 'f' {
        Some((c as u32) - ('a' as u32) + 10)
    } else if 'A' <= c && c <= 'F' {
        Some((c as u32) - ('A' as u32) + 10)
    } else {
        None
    }
}

/// The digit character for `d < 10`.
pub open spec fn digit_char(d: nat) -> char {
    (d + '0' as nat) as char
}

/// The decimal numeral of a natural number, without leading zeros.
pub open spec fn nat_text(n: nat) -> Seq<char>
    decreases n,
{
    if n < 10 {
        seq![digit_char(n)]
    } else {
        nat_text(n / 10).push(digit_char(n % 10))
    }
}

/// The decimal numeral of an integer, with a leading `-` when it is negative.
pub open spec fn int_text(n: int) -> Seq<char> {
    if n < 0 {
        seq!['-'] + nat_text((-n) as nat)
    } else {
        nat_text(n as nat)
    }
}

fn digit_to_char(d: u64) -> (c: char)
    requires
        d < 10,
    ensures
        c == digit_char(d as nat),
{
    if d == 0 { '0' }
    else if d == 1 { '1' }
    else if d == 2 { '2' }
    else if d == 3 { '3' }
    else if d == 4 { '4' }
    else if d == 5 { '5' }
    else if d == 6 { '6' }
    else if d == 7 { '7' }
    else if d == 8 { '8' }
    else { '9' }
}

/// Appends the decimal numeral of `n`.
pub(crate) fn push_nat(s: &mut String, n: u64)
    ensures
        final(s)@ == old(s)@ + nat_text(n as nat),
    decreases n,
{
    if n < 10 {
        push_char(s, digit_to_char(n));
        assert(nat_text(n as nat) =~= seq![digit_char(n as nat)]);
    } else {
        push_nat(s, n / 10);
        push_char(s, digit_to_char(n % 10));
        assert(nat_text(n as nat) =~= nat_text((n / 10) as nat).push(digit_char((n % 10) as nat)));
    }
}

/// Appends the decimal numeral of `n`.
pub fn push_int(s: &mut String, n: i32)
    ensures
        final(s)@ == old(s)@ + int_text(n as int),
{
    if n < 0 {
        push_char(s, '-');
        let m: i64 = -(n as i64);
        push_nat(s, m as u64);
        assert(old(s)@.push('-') + nat_text((-n) as nat) =~= old(s)@ + int_text(n as int));
    } else {
        push_nat(s, n as u64);
    }
}

} // verus!
