//! The reader: from text to `LispParseTree`.
//!
//! The grammar is given by the spec functions below, on the characters of the
//! input; each reading function returns what its spec function gives. The
//! bits of a float literal are what the caller's `FloatOps` reads its text as.
use vstd::prelude::*;

use vstd::string::StringSliceAdditionalSpecFns;

use crate::float::{chars_of, FloatOps};
use crate::small::{Name, TreeList, tree_list_items};
use crate::text::{
    atom_continue, atom_start, digit, hex_digit, hex_value, is_ascii_digit, is_atom_continue,
    is_atom_start, is_space, push_char, push_str, space, str_chars, string_of,
};
use crate::tree::{list_v, LispParseTree, TreeV, views};

verus! {

/// What reading an expression at some position gives: the position after it
/// and what was read; nothing readable; or an integer literal out of the range
/// of `i32`, on which reading stops with a panic.
pub enum Outcome<T> {
    Done(int, T),
    Fail,
    Abort,
}

/// The first position at or after `i` that does not hold white space.
pub open spec fn skip_space(s: Seq<char>, i: int) -> int
    decreases s.len() - i,
{
    if 0 <= i < s.len() && is_space(s[i]) {
        skip_space(s, i + 1)
    } else {
        i
    }
}

/// The first position at or after `i` that does not hold a decimal digit.
pub open spec fn digits_end(s: Seq<char>, i: int) -> int
    decreases s.len() - i,
{
    if 0 <= i < s.len() && is_ascii_digit(s[i]) {
        digits_end(s, i + 1)
    } else {
        i
    }
}

/// The first position at or after `i` that holds no character that may continue an identifier.
pub open spec fn atom_end(s: Seq<char>, i: int) -> int
    decreases s.len() - i,
{
    if 0 <= i < s.len() && is_atom_continue(s[i]) {
        atom_end(s, i + 1)
    } else {
        i
    }
}

/// The value of a string of decimal digits.
pub open spec fn digits_value(d: Seq<char>) -> nat
    decreases d.len(),
{
    if d.len() == 0 {
        0
    } else {
        digits_value(d.drop_last()) * 10 + (d.last() as nat - '0' as nat) as nat
    }
}

/// The character that `\e` stands for in a string literal.
pub open spec fn unescape(e: char) -> char {
    if e == '"' {
        '"'
    } else if e == '\\' {
        '\\'
    } else if e == '0' {
        '\0'
    } else if e == 'a' {
        '\x07'
    } else if e == 'b' {
        '\x08'
    } else if e == 'f' {
        '\x0c'
    } else if e == 'n' {
        '\n'
    } else if e == 'r' {
        '\r'
    } else if e == 'v' {
        '\x0b'
    } else if e == 't' {
        '\t'
    } else {
        e
    }
}

/// The body of a string literal from position `k` on, `acc` read so far: the
/// position after the closing quote and the characters, or nothing when the
/// literal is not closed or holds a broken `\x` escape.
pub open spec fn scan_string(s: Seq<char>, k: int, acc: Seq<char>) -> Option<(int, Seq<char>)>
    decreases s.len() - k,
{
    if k < 0 || k >= s.len() {
        None
    } else if s[k] == '\\' {
        if k + 1 >= s.len() {
            None
        } else if s[k + 1] == 'x' {
            if k + 3 >= s.len() {
                None
            } else {
                match (hex_value(s[k + 2]), hex_value(s[k + 3])) {
                    (Some(h), Some(l)) => scan_string(
                        s,
                        k + 4,
                        acc.push((h * 16 + l) as u32 as char),
                    ),
                    _ => None,
                }
            }
        } else {
            scan_string(s, k + 2, acc.push(unescape(s[k + 1])))
        }
    } else if s[k] == '"' {
        Some((k + 1, acc))
    } else {
        scan_string(s, k + 1, acc.push(s[k]))
    }
}

/// A float literal at `j`: `-?[0-9]+.[0-9]*`. Its value is the float that
/// `floats` reads the literal's text as.
pub open spec fn p_float<F: FloatOps>(s: Seq<char>, j: int, floats: F) -> Outcome<TreeV> {
    let k = if 0 <= j < s.len() && s[j] == '-' {
        j + 1
    } else {
        j
    };
    let d = digits_end(s, k);
    if d > k && d < s.len() && s[d] == '.' {
        let e = digits_end(s, d + 1);
        Outcome::Done(e, TreeV::Float(floats.literal_of(chars_of(s.subrange(j, e)))))
    } else {
        Outcome::Fail
    }
}

/// An integer literal at `j`: `-?[0-9]+`.
pub open spec fn p_integer(s: Seq<char>, j: int) -> Outcome<TreeV> {
    let neg = 0 <= j < s.len() && s[j] == '-';
    let k = if neg {
        j + 1
    } else {
        j
    };
    let d = digits_end(s, k);
    if d > k {
        let v = digits_value(s.subrange(k, d));
        let n: int = if neg {
            -v
        } else {
            v as int
        };
        if i32::MIN <= n <= i32::MAX {
            Outcome::Done(d, TreeV::Integer(n as i32))
        } else {
            Outcome::Abort
        }
    } else {
        Outcome::Fail
    }
}

/// A string literal at `j`.
pub open spec fn p_string(s: Seq<char>, j: int) -> Outcome<TreeV> {
    if 0 <= j < s.len() && s[j] == '"' {
        match scan_string(s, j + 1, Seq::empty()) {
            Some((e, body)) => Outcome::Done(e, TreeV::String(body)),
            None => Outcome::Fail,
        }
    } else {
        Outcome::Fail
    }
}

/// An identifier at `j`.
pub open spec fn p_atom(s: Seq<char>, j: int) -> Outcome<TreeV> {
    if 0 <= j < s.len() && is_atom_start(s[j]) {
        let e = atom_end(s, j + 1);
        Outcome::Done(e, TreeV::Atom(s.subrange(j, e)))
    } else {
        Outcome::Fail
    }
}

/// Wraps what was read in a quote of the given kind.
pub open spec fn wrap(o: Outcome<TreeV>, kind: char) -> Outcome<TreeV> {
    match o {
        Outcome::Done(e, t) => Outcome::Done(
            e,
            if kind == ',' {
                TreeV::Unquote(Box::new(t))
            } else if kind == '\'' {
                TreeV::Quote(Box::new(t))
            } else {
                TreeV::Quasiquote(Box::new(t))
            },
        ),
        Outcome::Fail => Outcome::Fail,
        Outcome::Abort => Outcome::Abort,
    }
}

/// The first of two alternatives that does not fail.
pub open spec fn or_else<T>(a: Outcome<T>, b: Outcome<T>) -> Outcome<T> {
    match a {
        Outcome::Fail => b,
        _ => a,
    }
}

/// Puts an item in front of the items that follow it.
pub open spec fn cons_items(t: TreeV, o: Outcome<Seq<TreeV>>) -> Outcome<Seq<TreeV>> {
    match o {
        Outcome::Done(e, ts) => Outcome::Done(e, seq![t] + ts),
        Outcome::Fail => Outcome::Fail,
        Outcome::Abort => Outcome::Abort,
    }
}

/// One expression, after any white space at `i`: in this order of preference an
/// unquote, a quote, a quasiquote, a float, an integer, a string, a list, an
/// array or an identifier.
pub open spec fn p_object<F: FloatOps>(s: Seq<char>, i: int, floats: F) -> Outcome<TreeV>
    decreases s.len() - i, 0int,
{
    let j = skip_space(s, i);
    if i < 0 || j < i || j >= s.len() {
        Outcome::Fail
    } else {
        let c = s[j];
        let q = if c == ',' || c == '\'' || c == '`' {
            wrap(p_object(s, j + 1, floats), c)
        } else {
            Outcome::Fail
        };
        or_else(
            q,
            or_else(
                p_float(s, j, floats),
                or_else(
                    p_integer(s, j),
                    or_else(
                        p_string(s, j),
                        or_else(
                            if c == '(' {
                                match p_items(s, j + 1, ')', floats) {
                                    Outcome::Done(e, ts) => Outcome::Done(e, list_v(ts)),
                                    Outcome::Fail => Outcome::Fail,
                                    Outcome::Abort => Outcome::Abort,
                                }
                            } else {
                                Outcome::Fail
                            },
                            or_else(
                                if c == '[' {
                                    match p_items(s, j + 1, ']', floats) {
                                        Outcome::Done(e, ts) => Outcome::Done(e, TreeV::Array(ts)),
                                        Outcome::Fail => Outcome::Fail,
                                        Outcome::Abort => Outcome::Abort,
                                    }
                                } else {
                                    Outcome::Fail
                                },
                                p_atom(s, j),
                            ),
                        ),
                    ),
                ),
            ),
        )
    }
}

/// The items of a list or an array from position `k` up to and including the closing sign.
pub open spec fn p_items<F: FloatOps>(s: Seq<char>, k: int, close: char, floats: F) -> Outcome<Seq<TreeV>>
    decreases s.len() - k, 1int,
{
    let k2 = skip_space(s, k);
    if k < 0 || k2 < k || k2 >= s.len() {
        Outcome::Fail
    } else if s[k2] == close {
        Outcome::Done(k2 + 1, Seq::empty())
    } else {
        match p_object(s, k2, floats) {
            Outcome::Done(e, t) => if k2 < e <= s.len() {
                cons_items(t, p_items(s, e, close, floats))
            } else {
                Outcome::Fail
            },
            Outcome::Fail => Outcome::Fail,
            Outcome::Abort => Outcome::Abort,
        }
    }
}

/// Whether what a reading function returned is what its spec function gives:
/// what was read, or `Err(false)` where nothing can be read and `Err(true)`
/// where an integer literal out of range stops reading.
pub open spec fn agrees(r: Result<(usize, LispParseTree), bool>, o: Outcome<TreeV>) -> bool {
    match o {
        Outcome::Done(e, t) => r matches Ok((e2, t2)) && e2 == e && t2@ == t,
        Outcome::Fail => r == Err::<(usize, LispParseTree), bool>(false),
        Outcome::Abort => r == Err::<(usize, LispParseTree), bool>(true),
    }
}

pub open spec fn agrees_items(
    r: Result<(usize, Vec<LispParseTree>), bool>,
    o: Outcome<Seq<TreeV>>,
) -> bool {
    match o {
        Outcome::Done(e, ts) => r matches Ok((e2, v)) && e2 == e && views(v@) == ts,
        Outcome::Fail => r == Err::<(usize, Vec<LispParseTree>), bool>(false),
        Outcome::Abort => r == Err::<(usize, Vec<LispParseTree>), bool>(true),
    }
}

pub proof fn lemma_skip_space(s: Seq<char>, i: int)
    requires
        0 <= i <= s.len(),
    ensures
        i <= skip_space(s, i) <= s.len(),
        forall|k: int| i <= k < skip_space(s, i) ==> is_space(s[k]),
        skip_space(s, i) < s.len() ==> !is_space(s[skip_space(s, i)]),
    decreases s.len() - i,
{
    if i < s.len() && is_space(s[i]) {
        lemma_skip_space(s, i + 1);
    }
}

pub proof fn lemma_digits_end(s: Seq<char>, i: int)
    requires
        0 <= i <= s.len(),
    ensures
        i <= digits_end(s, i) <= s.len(),
        digits_end(s, i) < s.len() ==> !is_ascii_digit(s[digits_end(s, i)]),
        forall|k: int| i <= k < digits_end(s, i) ==> is_ascii_digit(s[k]),
    decreases s.len() - i,
{
    if i < s.len() && is_ascii_digit(s[i]) {
        lemma_digits_end(s, i + 1);
    }
}

pub proof fn lemma_atom_end(s: Seq<char>, i: int)
    requires
        0 <= i <= s.len(),
    ensures
        i <= atom_end(s, i) <= s.len(),
    decreases s.len() - i,
{
    if i < s.len() && is_atom_continue(s[i]) {
        lemma_atom_end(s, i + 1);
    }
}

fn skip_ws(s: &Vec<char>, i: usize) -> (r: usize)
    requires
        i <= s.len(),
    ensures
        r == skip_space(s@, i as int),
        i <= r <= s.len(),
{
    proof {
        lemma_skip_space(s@, i as int);
    }
    let mut k = i;
    while k < s.len() && space(s[k])
        invariant
            i <= k <= s.len(),
            skip_space(s@, k as int) == skip_space(s@, i as int),
        decreases s.len() - k,
    {
        k = k + 1;
    }
    k
}

fn end_of_digits(s: &Vec<char>, i: usize) -> (r: usize)
    requires
        i <= s.len(),
    ensures
        r == digits_end(s@, i as int),
        i <= r <= s.len(),
{
    proof {
        lemma_digits_end(s@, i as int);
    }
    let mut k = i;
    while k < s.len() && digit(s[k])
        invariant
            i <= k <= s.len(),
            digits_end(s@, k as int) == digits_end(s@, i as int),
        decreases s.len() - k,
    {
        k = k + 1;
    }
    k
}

fn end_of_atom(s: &Vec<char>, i: usize) -> (r: usize)
    requires
        i <= s.len(),
    ensures
        r == atom_end(s@, i as int),
        i <= r <= s.len(),
{
    proof {
        lemma_atom_end(s@, i as int);
    }
    let mut k = i;
    while k < s.len() && atom_continue(s[k])
        invariant
            i <= k <= s.len(),
            atom_end(s@, k as int) == atom_end(s@, i as int),
        decreases s.len() - k,
    {
        k = k + 1;
    }
    k
}

/// Asks `floats` for the bits of the float literal `text`; (as a ghost) the
/// question with its answer.
fn ask_literal<F: FloatOps>(floats: &F, text: &str) -> (r: (u64, Ghost<(Seq<char>, u64)>))
    ensures
        r.1@ == (text@, r.0),
        r.0 == floats.literal_of(chars_of(text@)),
{
    let b = floats.from_literal(text);
    let ghost q = (text@, b);
    (b, Ghost(q))
}

/// Reads a float literal at `j`; (as a ghost) the question asked of `floats`
/// for it, the literal's text, and its answer, the bits of the float read.
fn parse_float<F: FloatOps>(s: &Vec<char>, j: usize, floats: &F) -> (r: (Result<
    (usize, LispParseTree),
    bool,
>, Ghost<(Seq<char>, u64)>))
    requires
        j < s.len(),
    ensures
        agrees(r.0, p_float(s@, j as int, *floats)),
        r.0 matches Ok((e, _)) ==> j < e <= s.len(),
        r.0 matches Ok((e, t)) ==> r.1@ == (s@.subrange(j as int, e as int), r.1@.1) && t@ == TreeV::Float(r.1@.1),
{
    let k = if s[j] == '-' {
        j + 1
    } else {
        j
    };
    let d = end_of_digits(s, k);
    if d > k && d < s.len() && s[d] == '.' {
        let e = end_of_digits(s, d + 1);
        assert(j < e);
        let lexeme = string_of(s, j, e);
        let (bits, q) = ask_literal(floats, lexeme.as_str());
        (Ok((e, LispParseTree::Float(bits))), q)
    } else {
        (Err(false), Ghost((Seq::empty(), 0)))
    }
}

fn parse_integer(s: &Vec<char>, j: usize) -> (r: Result<(usize, LispParseTree), bool>)
    requires
        j < s.len(),
    ensures
        agrees(r, p_integer(s@, j as int)),
        r matches Ok((e, _)) ==> j < e <= s.len(),
{
    let neg = s[j] == '-';
    let k = if neg {
        j + 1
    } else {
        j
    };
    let d = end_of_digits(s, k);
    if d == k {
        return Err(false);
    }
    proof {
        lemma_digits_end(s@, k as int);
    }
    let mut acc: i64 = 0;
    let mut p = k;
    while p < d
        invariant
            k <= p <= d <= s.len(),
            j < s.len(),
            neg == (s@[j as int] == '-'),
            k == if neg { j + 1 } else { j as int },
            d == digits_end(s@, k as int),
            forall|q: int| k <= q < d ==> is_ascii_digit(s@[q]),
            acc == digits_value(s@.subrange(k as int, p as int)),
            acc <= 0x8000_0000,
        decreases d - p,
    {
        let dv = (s[p] as u32 - '0' as u32) as i64;
        proof {
            assert(s@.subrange(k as int, p + 1).drop_last() =~= s@.subrange(k as int, p as int));
        }
        let next = acc * 10 + dv;
        if next > 0x8000_0000 {
            proof {
                let whole = s@.subrange(k as int, d as int);
                assert forall|q: int| 0 <= q < whole.len() implies is_ascii_digit(whole[q]) by {
                    assert(whole[q] == s@[k + q]);
                }
                assert(next == digits_value(s@.subrange(k as int, p + 1)));
                lemma_digits_value_grows(s@.subrange(k as int, d as int), (p + 1 - k) as int);
                assert(s@.subrange(k as int, d as int).take(p + 1 - k) =~= s@.subrange(
                    k as int,
                    p + 1,
                ));

            }
            return Err(true);
        }
        acc = next;
        p = p + 1;
    }
    let n: i64 = if neg {
        -acc
    } else {
        acc
    };
    if n > 0x7fff_ffff {
        return Err(true);
    }
    Ok((d, LispParseTree::Integer(n as i32)))
}

proof fn lemma_digits_value_grows(d: Seq<char>, n: int)
    requires
        0 <= n <= d.len(),
        forall|q: int| 0 <= q < d.len() ==> is_ascii_digit(d[q]),
    ensures
        digits_value(d.take(n)) <= digits_value(d),
    decreases d.len(),
{
    if n < d.len() {
        lemma_digits_value_grows(d.drop_last(), n);
        assert(d.drop_last().take(n) =~= d.take(n));
    } else {
        assert(d.take(n) =~= d);
    }
}

fn parse_string(s: &Vec<char>, j: usize) -> (r: Result<(usize, LispParseTree), bool>)
    requires
        j < s.len(),
    ensures
        agrees(r, p_string(s@, j as int)),
        r matches Ok((e, _)) ==> j < e <= s.len(),
{
    if s[j] != '"' {
        return Err(false);
    }
    proof {
        lemma_scan_string_after(s@, j + 1, Seq::empty());
    }
    let mut out = String::new();
    let mut k = j + 1;
    loop
        invariant
            j < s.len(),
            s@[j as int] == '"',
            j < k <= s.len() + 1,
            k <= s.len() + 4,
            scan_string(s@, j + 1, Seq::empty()) == scan_string(s@, k as int, out@),
        decreases s.len() + 4 - k,
    {
        if k >= s.len() {
            return Err(false);
        }
        let c = s[k];
        if c == '\\' {
            if k + 1 >= s.len() {
                return Err(false);
            }
            let e = s[k + 1];
            if e == 'x' {
                if s.len() - k <= 3 {
                    return Err(false);
                }
                let hi = hex_digit(s[k + 2]);
                let lo = hex_digit(s[k + 3]);
                match (hi, lo) {
                    (Some(h), Some(l)) => {
                        let v = h * 16 + l;
                        let ch = (v as u8) as char;
                        push_char(&mut out, ch);
                        k = k + 4;
                    },
                    _ => {
                        return Err(false);
                    },
                }
            } else {
                let ch = if e == '"' {
                    '"'
                } else if e == '\\' {
                    '\\'
                } else if e == '0' {
                    '\0'
                } else if e == 'a' {
                    '\x07'
                } else if e == 'b' {
                    '\x08'
                } else if e == 'f' {
                    '\x0c'
                } else if e == 'n' {
                    '\n'
                } else if e == 'r' {
                    '\r'
                } else if e == 'v' {
                    '\x0b'
                } else if e == 't' {
                    '\t'
                } else {
                    e
                };
                push_char(&mut out, ch);
                k = k + 2;
            }
        } else if c == '"' {
            assert(scan_string(s@, k as int, out@) == Some(((k + 1) as int, out@)));
            assert(scan_string(s@, j + 1, Seq::empty()) == Some(((k + 1) as int, out@)));
            return Ok((k + 1, LispParseTree::String(out)));
        } else {
            push_char(&mut out, c);
            k = k + 1;
        }
    }
}

fn parse_atom(s: &Vec<char>, j: usize) -> (r: Result<(usize, LispParseTree), bool>)
    requires
        j < s.len(),
    ensures
        agrees(r, p_atom(s@, j as int)),
        r matches Ok((e, _)) ==> j < e <= s.len(),
{
    if atom_start(s[j]) {
        let e = end_of_atom(s, j + 1);
        assert(j < e);
        let text = string_of(s, j, e);
        Ok((e, LispParseTree::Atom(Name::new(text.as_str()))))
    } else {
        Err(false)
    }
}

/// Reads one expression after any white space at `i`.
fn parse_object<F: FloatOps>(s: &Vec<char>, i: usize, floats: &F) -> (r: Result<
    (usize, LispParseTree),
    bool,
>)
    requires
        i <= s.len(),
    ensures
        agrees(r, p_object(s@, i as int, *floats)),
        r matches Ok((e, _)) ==> i < e <= s.len(),
    decreases s.len() - i, 0int,
{
    let j = skip_ws(s, i);
    if j >= s.len() {
        return Err(false);
    }
    let c = s[j];
    let ghost o = p_object(s@, i as int, *floats);
    if c == ',' || c == '\'' || c == '`' {
        let ghost inner = p_object(s@, j + 1, *floats);
        match parse_object(s, j + 1, floats) {
            Ok((e, t)) => {
                let w = if c == ',' {
                    LispParseTree::Unquote(Box::new(t))
                } else if c == '\'' {
                    LispParseTree::Quote(Box::new(t))
                } else {
                    LispParseTree::Quasiquote(Box::new(t))
                };
                return Ok((e, w));
            },
            Err(true) => {
                return Err(true);
            },
            Err(false) => {},
        }
    }
    match parse_float(s, j, floats).0 {
        Ok(r) => {
            return Ok(r);
        },
        Err(true) => {
            return Err(true);
        },
        Err(false) => {},
    }
    match parse_integer(s, j) {
        Ok(r) => {
            return Ok(r);
        },
        Err(true) => {
            return Err(true);
        },
        Err(false) => {},
    }
    match parse_string(s, j) {
        Ok(r) => {
            return Ok(r);
        },
        Err(true) => {
            return Err(true);
        },
        Err(false) => {},
    }
    if c == '(' {
        let ghost oi = p_items(s@, j + 1, ')', *floats);
        match parse_items(s, j + 1, ')', floats) {
            Ok((e, items)) => {
                let l = LispParseTree::from_vec(items);
                return Ok((e, l));
            },
            Err(true) => {
                return Err(true);
            },
            Err(false) => {},
        }
    }
    if c == '[' {
        let ghost oi = p_items(s@, j + 1, ']', *floats);
        match parse_items(s, j + 1, ']', floats) {
            Ok((e, items)) => {
                let a = LispParseTree::Array(items);
                proof {
                    assert(a@->Array_0 =~= views(items@));
                }
                return Ok((e, a));
            },
            Err(true) => {
                return Err(true);
            },
            Err(false) => {},
        }
    }
    parse_atom(s, j)
}

proof fn lemma_scan_string_after(s: Seq<char>, k: int, acc: Seq<char>)
    requires
        0 <= k,
    ensures
        scan_string(s, k, acc) matches Some((e, _)) ==> k < e <= s.len(),
    decreases s.len() - k,
{
    if k < s.len() {
        if s[k] == '\\' {
            if k + 1 < s.len() {
                if s[k + 1] == 'x' {
                    if k + 3 < s.len() {
                        match (hex_value(s[k + 2]), hex_value(s[k + 3])) {
                            (Some(h), Some(l)) => lemma_scan_string_after(
                                s,
                                k + 4,
                                acc.push((h * 16 + l) as u32 as char),
                            ),
                            _ => {},
                        }
                    }
                } else {
                    lemma_scan_string_after(s, k + 2, acc.push(unescape(s[k + 1])));
                }
            }
        } else if s[k] != '"' {
            lemma_scan_string_after(s, k + 1, acc.push(s[k]));
        }
    }
}

/// Reads the items of a list or an array from `k` up to and including `close`.
fn parse_items<F: FloatOps>(s: &Vec<char>, k: usize, close: char, floats: &F) -> (r: Result<
    (usize, Vec<LispParseTree>),
    bool,
>)
    requires
        k <= s.len(),
    ensures
        agrees_items(r, p_items(s@, k as int, close, *floats)),
        r matches Ok((e, _)) ==> k < e <= s.len(),
    decreases s.len() - k, 1int,
{
    let ghost whole = p_items(s@, k as int, close, *floats);
    let mut items: Vec<LispParseTree> = Vec::new();
    let mut cur = k;
    loop
        invariant
            k <= cur <= s.len(),
            whole == p_items(s@, k as int, close, *floats),
            whole == prepend_items(views(items@), p_items(s@, cur as int, close, *floats)),
        decreases s.len() - cur,
    {
        let k2 = skip_ws(s, cur);
        if k2 >= s.len() {
            return Err(false);
        }
        if s[k2] == close {
            proof {
                assert(views(items@) + Seq::<TreeV>::empty() =~= views(items@));
            }
            return Ok((k2 + 1, items));
        }
        match parse_object(s, k2, floats) {
            Ok((e, t)) => {
                let ghost before = views(items@);
                proof {
                    lemma_prepend_cons(before, t@, p_items(s@, e as int, close, *floats));
                }
                items.push(t);
                proof {
                    assert(views(items@) =~= before.push(t@));
                }
                cur = e;
            },
            Err(a) => {
                return Err(a);
            },
        }
    }
}

/// Items read before, put in front of what reading the rest gives.
pub open spec fn prepend_items(pre: Seq<TreeV>, o: Outcome<Seq<TreeV>>) -> Outcome<Seq<TreeV>> {
    match o {
        Outcome::Done(e, ts) => Outcome::Done(e, pre + ts),
        Outcome::Fail => Outcome::Fail,
        Outcome::Abort => Outcome::Abort,
    }
}

proof fn lemma_prepend_cons(pre: Seq<TreeV>, t: TreeV, o: Outcome<Seq<TreeV>>)
    ensures
        prepend_items(pre, cons_items(t, o)) == prepend_items(pre.push(t), o),
{
    match o {
        Outcome::Done(e, ts) => {
            assert(pre + (seq![t] + ts) =~= pre.push(t) + ts);
        },
        _ => {},
    }
}

/// The message with which reading fails when no expression can be read.
pub open spec fn unreadable_text() -> Seq<char> {
    "Inner error: no expression could be read"@
}

/// Reads one expression from `code`, which must hold nothing after it.
///
/// Gives the tree when the whole of `code` is one expression (white space may
/// precede it); otherwise an error that names the text left over, or says that
/// no expression could be read.
pub fn parse<F: FloatOps>(code: &str, floats: &F) -> (r: Result<LispParseTree, String>)
    requires
        !(p_object(code@, 0, *floats) is Abort),
    ensures
        match p_object(code@, 0, *floats) {
            Outcome::Done(e, t) => if e == code@.len() {
                r matches Ok(tree) && tree@ == t
            } else {
                r matches Err(m) && m@ == "Remaining text: "@ + code@.skip(e)
            },
            Outcome::Fail => r matches Err(m) && m@ == unreadable_text(),
            Outcome::Abort => true,
        },
{
    let s = str_chars(code);
    match parse_object(&s, 0, floats) {
        Ok((e, t)) => {
            if e == s.len() {
                Ok(t)
            } else {
                let mut m = String::new();
                push_str(&mut m, "Remaining text: ");
                let rest = string_of(&s, e, s.len());
                push_str(&mut m, rest.as_str());
                assert(s@.subrange(e as int, s@.len() as int) =~= code@.skip(e as int));
                Err(m)
            }
        },
        Err(_) => {
            let mut m = String::new();
            push_str(&mut m, "Inner error: no expression could be read");
            Err(m)
        },
    }
}

/// Reading every expression of a text from position `i` on: the trees, or the
/// position at which an expression could not be read.
pub open spec fn p_many<F: FloatOps>(s: Seq<char>, i: int, floats: F) -> Outcome<Seq<TreeV>>
    decreases s.len() - i,
{
    let j = skip_space(s, i);
    if i < 0 || j < i || j > s.len() {
        Outcome::Fail
    } else if j == s.len() {
        Outcome::Done(j, Seq::empty())
    } else {
        match p_object(s, j, floats) {
            Outcome::Done(e, t) => if j < e <= s.len() {
                cons_items(t, p_many(s, e, floats))
            } else {
                Outcome::Fail
            },
            Outcome::Fail => Outcome::Done(j, Seq::empty()),
            Outcome::Abort => Outcome::Abort,
        }
    }
}

/// Whether reading every expression from `i` on stops at an expression that cannot be read.
pub open spec fn many_fails<F: FloatOps>(s: Seq<char>, i: int, floats: F) -> bool
    decreases s.len() - i,
{
    let j = skip_space(s, i);
    if i < 0 || j < i || j > s.len() {
        true
    } else if j == s.len() {
        false
    } else {
        match p_object(s, j, floats) {
            Outcome::Done(e, t) => if j < e <= s.len() {
                many_fails(s, e, floats)
            } else {
                true
            },
            Outcome::Fail => true,
            Outcome::Abort => false,
        }
    }
}

/// Where reading every expression from `i` on stops: the start of the first
/// expression that cannot be read.
pub open spec fn many_stop<F: FloatOps>(s: Seq<char>, i: int, floats: F) -> int
    decreases s.len() - i,
{
    let j = skip_space(s, i);
    if i < 0 || j < i || j >= s.len() {
        j
    } else {
        match p_object(s, j, floats) {
            Outcome::Done(e, t) => if j < e <= s.len() {
                many_stop(s, e, floats)
            } else {
                j
            },
            _ => j,
        }
    }
}

/// The position at which a text stopped being readable.
#[derive(Clone, Copy, PartialEq, Eq, Debug, Structural)]
pub struct ParseError {
    pub at: usize,
}

/// Reads every expression of `code`, in order, skipping white space between them.
///
/// Fails, naming where, at the first expression that cannot be read. Gives
/// nothing where an integer literal out of the range of `i32` stops reading.
pub fn parse_many_checked<F: FloatOps>(code: &str, floats: &F) -> (r: Option<Result<TreeList, ParseError>>)
    ensures
        r is None <==> p_many(code@, 0, *floats) is Abort,
        r matches Some(x) ==> (many_fails(code@, 0, *floats) ==> x == Err::<TreeList, ParseError>(
            ParseError { at: many_stop(code@, 0, *floats) as usize },
        )),
        r matches Some(x) ==> (!many_fails(code@, 0, *floats) ==> (p_many(code@, 0, *floats) matches Outcome::Done(_, ts) && x matches Ok(
            l,
        ) && tree_list_items(l).map_values(|t: LispParseTree| t@) == ts)),
{
    let s = str_chars(code);
    let mut items: Vec<LispParseTree> = Vec::new();
    let mut cur: usize = 0;
    loop
        invariant
            cur <= s.len(),
            s@ == code@,
            p_many(s@, 0, *floats) == prepend_items(views(items@), p_many(s@, cur as int, *floats)),
            many_fails(s@, 0, *floats) == many_fails(s@, cur as int, *floats),
            many_stop(s@, 0, *floats) == many_stop(s@, cur as int, *floats),
        decreases s.len() - cur,
    {
        let j = skip_ws(&s, cur);
        if j >= s.len() {
            let l = TreeList::from_vec(items);
            proof {
                assert(views(items@) + Seq::<TreeV>::empty() =~= views(items@));
                assert(tree_list_items(l).map_values(|t: LispParseTree| t@) =~= views(items@));
            }
            return Some(Ok(l));
        }
        match parse_object(&s, j, floats) {
            Ok((e, t)) => {
                let ghost before = views(items@);
                proof {
                    lemma_prepend_cons(before, t@, p_many(s@, e as int, *floats));
                }
                items.push(t);
                proof {
                    assert(views(items@) =~= before.push(t@));
                }
                cur = e;
            },
            Err(true) => {
                return None;
            },
            Err(false) => {
                return Some(Err(ParseError { at: j }));
            },
        }
    }
}

/// Reads every expression of `code`, in order, skipping white space between them.
///
/// Fails, naming where, at the first expression that cannot be read. No
/// integer literal that is read may lie out of the range of `i32`.
pub fn parse_many<F: FloatOps>(code: &str, floats: &F) -> (r: Result<TreeList, ParseError>)
    requires
        !(p_many(code@, 0, *floats) is Abort),
    ensures
        many_fails(code@, 0, *floats) ==> r == Err::<TreeList, ParseError>(
            ParseError { at: many_stop(code@, 0, *floats) as usize },
        ),
        !many_fails(code@, 0, *floats) ==> (p_many(code@, 0, *floats) matches Outcome::Done(_, ts) && r matches Ok(
            l,
        ) && tree_list_items(l).map_values(|t: LispParseTree| t@) == ts),
{
    match parse_many_checked(code, floats) {
        Some(x) => x,
        None => Err(ParseError { at: 0 }),
    }
}

/// The type that a name in a signature denotes: `i32`, `f64` and `atom` are the
/// built-in types, any other name is a named type.
pub open spec fn type_of_name(n: Seq<char>) -> crate::tree::TypeV {
    if n == "i32"@ {
        crate::tree::TypeV::Integer
    } else if n == "f64"@ {
        crate::tree::TypeV::Float
    } else if n == "atom"@ {
        crate::tree::TypeV::Atom
    } else {
        crate::tree::TypeV::Named(n)
    }
}

/// Whether two strings hold the same characters.
pub fn same_text(a: &str, b: &str) -> (r: bool)
    ensures
        r == (a@ == b@),
{
    let x = str_chars(a);
    let y = str_chars(b);
    if x.len() != y.len() {
        return false;
    }
    let mut i: usize = 0;
    while i < x.len()
        invariant
            i <= x.len() == y.len(),
            x@ == a@,
            y@ == b@,
            forall|k: int| 0 <= k < i ==> x@[k] == y@[k],
        decreases x.len() - i,
    {
        if x[i] != y[i] {
            return false;
        }
        i = i + 1;
    }
    assert(x@ =~= y@);
    true
}

/// The type that a name in a signature denotes.
///
/// The name must start like an identifier.
pub fn parse_type(input: &str) -> (r: crate::tree::LispType)
    requires
        input@.len() > 0,
        is_atom_start(input@[0]),
    ensures
        r@ == type_of_name(input@),
{
    if same_text(input, "i32") {
        crate::tree::LispType::Integer
    } else if same_text(input, "f64") {
        crate::tree::LispType::Float
    } else if same_text(input, "atom") {
        crate::tree::LispType::Atom
    } else {
        crate::tree::LispType::named(input)
    }
}

/// The depth of parentheses after the first `k` bytes, starting from one open.
pub open spec fn depth_after(s: Seq<u8>, k: int) -> int
    decreases k,
{
    if k <= 0 {
        1
    } else {
        depth_after(s, k - 1) + if s[k - 1] == 40u8 {
            1int
        } else if s[k - 1] == 41u8 {
            -1int
        } else {
            0int
        }
    }
}

/// The byte position of the `)` that closes a `(` opened before the text, if there is one.
pub open spec fn close_from(s: Seq<u8>, k: int) -> Option<int>
    decreases s.len() - k,
{
    if k < 0 || k >= s.len() {
        None
    } else if depth_after(s, k + 1) == 0 {
        Some(k)
    } else {
        close_from(s, k + 1)
    }
}

/// Whether the depth stays within `i32` up to the closing `)`, or to the end when none closes.
pub open spec fn depth_fits(s: Seq<u8>, k: int) -> bool
    decreases s.len() - k,
{
    if k < 0 || k >= s.len() {
        true
    } else if depth_after(s, k + 1) > i32::MAX {
        false
    } else if depth_after(s, k + 1) == 0 {
        true
    } else {
        depth_fits(s, k + 1)
    }
}

/// Splits `line` at the `)` that closes a `(` which came before it: the text
/// before that `)` and the text from it on.
///
/// The parentheses are counted byte by byte: both are ASCII, and no byte of a
/// character of several bytes is ASCII, so the `)` found starts a character.
/// Where that could not be so (`line` is not valid UTF-8), the result is `Err`.
pub fn until_close(line: &str) -> (r: Result<(&str, &str), ()>)
    requires
        depth_fits(line.spec_bytes(), 0),
    ensures
        match close_from(line.spec_bytes(), 0) {
            Some(idx) => if vstd::utf8::is_char_boundary(line.spec_bytes(), idx) {
                r matches Ok((a, b)) && a.spec_bytes() == line.spec_bytes().subrange(0, idx)
                    && b.spec_bytes() == line.spec_bytes().subrange(idx, line.spec_bytes().len() as int)
            } else {
                r is Err
            },
            None => r is Err,
        },
{
    let s = line.as_bytes();
    let mut depth: i32 = 1;
    let mut k: usize = 0;
    while k < s.len()
        invariant
            k <= s.len(),
            s@ == line.spec_bytes(),
            depth == depth_after(s@, k as int),
            depth_fits(s@, 0) == depth_fits(s@, k as int),
            close_from(s@, 0) == close_from(s@, k as int),
            depth_fits(s@, 0),
            depth >= 1,
        decreases s.len() - k,
    {
        let c = s[k];
        let step: i32 = if c == 40u8 {
            1
        } else if c == 41u8 {
            -1
        } else {
            0
        };
        assert(depth_after(s@, k + 1) == depth + step);
        assert(depth_after(s@, k + 1) <= i32::MAX);
        depth = depth + step;
        if depth == 0 {
            assert(close_from(s@, k as int) == Some(k as int));
            if line.is_char_boundary(k) {
                return Ok(line.split_at(k));
            } else {
                return Err(());
            }
        }
        k = k + 1;
    }
    Err(())
}

} // verus!
