//! Reading back what was written: the reader, given the text of a tree, gives
//! that tree again, for trees whose every part has a text of its own.
use vstd::prelude::*;

use crate::float::FloatOps;
use crate::parse::{
    atom_end, digits_end, digits_value, lemma_skip_space, p_atom, p_float, p_integer, p_items,
    p_object, p_string, skip_space, Outcome,
};
use crate::show::{cdr_text, joined, texts_from, tree_text};
use crate::text::{digit_char, is_ascii_alpha, is_ascii_digit, is_atom_continue, is_space, nat_text, nil_text};
use crate::tree::{list_v, TreeV};

verus! {

/// The decimal numeral of `m` is a non-empty run of digits whose value is `m`.
proof fn lemma_nat_text(m: nat)
    ensures
        nat_text(m).len() >= 1,
        forall|j: int| 0 <= j < nat_text(m).len() ==> is_ascii_digit(#[trigger] nat_text(m)[j]),
        digits_value(nat_text(m)) == m,
    decreases m,
{
    if m < 10 {
        let c = digit_char(m);
        assert(c as nat == m + 48);
        assert(nat_text(m) =~= seq![c]);
        assert(seq![c].drop_last() =~= Seq::<char>::empty());
        assert(digits_value(Seq::<char>::empty()) == 0);
        assert(digits_value(seq![c]) == digits_value(seq![c].drop_last()) * 10 + (c as nat - '0' as nat) as nat);
    } else {
        lemma_nat_text(m / 10);
        let c = digit_char(m % 10);
        assert(c as nat == m % 10 + 48);
        let t = nat_text(m);
        assert(t.drop_last() =~= nat_text(m / 10));
        assert(t.last() == c);
        assert(digits_value(t) == digits_value(t.drop_last()) * 10 + (c as nat - '0' as nat) as nat);
        assert(digits_value(t) == (m / 10) * 10 + m % 10);
    }
}

/// Whether the reader gives `t` back from its text: `t` is an integer, an
/// identifier that starts with a letter, a quote of such a tree, a proper list
/// or an array of such trees.
pub open spec fn readable(t: TreeV) -> bool
    decreases t, 0int,
{
    match t {
        TreeV::Integer(_) => true,
        TreeV::Atom(n) => n.len() >= 1 && is_ascii_alpha(n[0]) && forall|j: int|
            1 <= j < n.len() ==> is_atom_continue(#[trigger] n[j]),
        TreeV::Quote(a) => readable(*a),
        TreeV::Quasiquote(a) => readable(*a),
        TreeV::Unquote(a) => readable(*a),
        TreeV::Pair(a, b) => readable(*a) && readable_tail(*b),
        TreeV::Array(items) => readable_items(items, 0),
        _ => false,
    }
}

/// Whether `b` is the rest of a proper list of readable trees: `nil`, or a
/// readable tree followed by such a rest.
pub open spec fn readable_tail(b: TreeV) -> bool
    decreases b, 1int,
{
    match b {
        TreeV::Atom(n) => n == nil_text(),
        TreeV::Pair(x, y) => readable(*x) && readable_tail(*y),
        _ => false,
    }
}

/// Whether `items[i..]` are readable.
pub open spec fn readable_items(items: Seq<TreeV>, i: int) -> bool
    decreases items, items.len() - i,
{
    if 0 <= i < items.len() {
        readable(items[i]) && readable_items(items, i + 1)
    } else {
        true
    }
}

/// The text of a tree with no floats in it.
pub open spec fn plain_text(t: TreeV) -> Seq<char> {
    tree_text(t, Seq::empty()).0
}

/// The items of the rest of a list.
spec fn tail_items(b: TreeV) -> Seq<TreeV>
    decreases b,
{
    match b {
        TreeV::Pair(x, y) => seq![*x] + tail_items(*y),
        _ => Seq::empty(),
    }
}

/// Texts after the first, each after a space.
spec fn spaced(ps: Seq<Seq<char>>) -> Seq<char>
    decreases ps.len(),
{
    if ps.len() == 0 {
        Seq::empty()
    } else {
        seq![' '] + ps[0] + spaced(ps.drop_first())
    }
}

/// Whether position `e` of `s` ends an expression: the end of `s`, a space or a closing sign.
spec fn ends_at(s: Seq<char>, e: int) -> bool {
    e == s.len() || (0 <= e < s.len() && (s[e] == ' ' || s[e] == ')' || s[e] == ']'))
}

spec fn item_texts(items: Seq<TreeV>) -> Seq<Seq<char>> {
    Seq::new(items.len(), |j: int| plain_text(items[j]))
}

/// Writing a tree with no floats uses up no float texts.
pub proof fn lemma_no_texts_used(t: TreeV)
    ensures
        tree_text(t, Seq::empty()).1 == Seq::<(u64, Seq<char>)>::empty(),
        cdr_text(t, Seq::empty()).1 == Seq::<(u64, Seq<char>)>::empty(),
    decreases t, 0int,
{
    match t {
        TreeV::Pair(a, b) => {
            lemma_no_texts_used(*a);
            lemma_no_texts_used(*b);
        },
        TreeV::Quote(a) => lemma_no_texts_used(*a),
        TreeV::Quasiquote(a) => lemma_no_texts_used(*a),
        TreeV::Unquote(a) => lemma_no_texts_used(*a),
        TreeV::Array(items) => lemma_texts_plain(items, 0, Seq::empty()),
        TreeV::Lambda { params, ret_ty, body } => lemma_texts_plain(body, 0, Seq::empty()),
        TreeV::Macro { names, code } => lemma_texts_plain(code, 0, Seq::empty()),
        _ => {},
    }
}

proof fn lemma_texts_plain(items: Seq<TreeV>, i: int, acc: Seq<Seq<char>>)
    requires
        0 <= i <= items.len(),
    ensures
        texts_from(items, i, acc, Seq::empty()) == (acc + item_texts(items).subrange(i, items.len() as int), Seq::<(u64, Seq<char>)>::empty()),
    decreases items, items.len() - i,
{
    if i < items.len() {
        lemma_no_texts_used(items[i]);
        let x = plain_text(items[i]);
        lemma_texts_plain(items, i + 1, acc.push(x));
        assert(acc.push(x) + item_texts(items).subrange(i + 1, items.len() as int) =~= acc + item_texts(items).subrange(i, items.len() as int));
    } else {
        assert(acc + item_texts(items).subrange(i, items.len() as int) =~= acc);
    }
}

proof fn lemma_spaced_push(q: Seq<Seq<char>>, y: Seq<char>)
    ensures
        spaced(q.push(y)) == spaced(q) + seq![' '] + y,
    decreases q.len(),
{
    if q.len() == 0 {
        assert(q.push(y).drop_first() =~= Seq::<Seq<char>>::empty());
        assert(q =~= Seq::<Seq<char>>::empty());
        assert(spaced(Seq::<Seq<char>>::empty()) == Seq::<char>::empty());
        assert(q.push(y)[0] == y);
        assert(spaced(q.push(y)) =~= spaced(q) + seq![' '] + y);
    } else {
        assert(q.push(y).drop_first() =~= q.drop_first().push(y));
        lemma_spaced_push(q.drop_first(), y);
        assert(spaced(q.push(y)) =~= spaced(q) + seq![' '] + y);
    }
}

/// Joined texts are the first one, then each of the others after a space.
proof fn lemma_joined_front(ps: Seq<Seq<char>>)
    requires
        ps.len() >= 1,
    ensures
        joined(ps) == ps[0] + spaced(ps.drop_first()),
    decreases ps.len(),
{
    if ps.len() == 1 {
        assert(ps.drop_first() =~= Seq::<Seq<char>>::empty());
        assert(ps[0] + spaced(ps.drop_first()) =~= ps[0]);
    } else {
        let q = ps.drop_last();
        lemma_joined_front(q);
        assert(ps.drop_first() =~= q.drop_first().push(ps.last()));
        lemma_spaced_push(q.drop_first(), ps.last());
        assert(joined(ps) =~= ps[0] + spaced(ps.drop_first()));
    }
}

/// A list built from the items of a proper rest is that rest.
proof fn lemma_list_of_tail(b: TreeV)
    requires
        readable_tail(b),
    ensures
        list_v(tail_items(b)) == b,
    decreases b,
{
    match b {
        TreeV::Pair(x, y) => {
            lemma_list_of_tail(*y);
            assert((seq![*x] + tail_items(*y)).drop_first() =~= tail_items(*y));
        },
        _ => {},
    }
}

/// Two parts of a text, side by side in `s`.
proof fn lemma_split(s: Seq<char>, i: int, x: Seq<char>, y: Seq<char>)
    requires
        0 <= i,
        i + x.len() + y.len() <= s.len(),
        s.subrange(i, i + x.len() + y.len()) == x + y,
    ensures
        s.subrange(i, i + x.len()) == x,
        s.subrange(i + x.len(), i + x.len() + y.len()) == y,
{
    let w = s.subrange(i, i + x.len() + y.len());
    assert forall|j: int| 0 <= j < x.len() implies s.subrange(i, i + x.len())[j] == x[j] by {
        assert(w[j] == (x + y)[j]);
    }
    assert forall|j: int| 0 <= j < y.len() implies s.subrange(i + x.len(), i + x.len() + y.len())[j] == y[j] by {
        assert(w[x.len() + j] == (x + y)[x.len() + j]);
    }
    assert(s.subrange(i, i + x.len()) =~= x);
    assert(s.subrange(i + x.len(), i + x.len() + y.len()) =~= y);
}

/// A run of digits in `s` ends where the digits end.
proof fn lemma_digit_run(s: Seq<char>, k: int, l: int)
    requires
        0 <= k,
        0 <= l,
        k + l <= s.len(),
        forall|j: int| k <= j < k + l ==> is_ascii_digit(#[trigger] s[j]),
        k + l == s.len() || !is_ascii_digit(s[k + l]),
    ensures
        digits_end(s, k) == k + l,
    decreases l,
{
    if l > 0 {
        lemma_digit_run(s, k + 1, l - 1);
    }
}

/// A run of identifier characters in `s` ends where they end.
proof fn lemma_atom_run(s: Seq<char>, k: int, l: int)
    requires
        0 <= k,
        0 <= l,
        k + l <= s.len(),
        forall|j: int| k <= j < k + l ==> is_atom_continue(#[trigger] s[j]),
        k + l == s.len() || !is_atom_continue(s[k + l]),
    ensures
        atom_end(s, k) == k + l,
    decreases l,
{
    if l > 0 {
        lemma_atom_run(s, k + 1, l - 1);
    }
}

/// Reading items from a space on is reading them from the next position.
proof fn lemma_items_skip<F: FloatOps>(s: Seq<char>, k: int, close: char, floats: F)
    requires
        0 <= k < s.len(),
        is_space(s[k]),
    ensures
        p_items(s, k, close, floats) == p_items(s, k + 1, close, floats),
{
    lemma_skip_space(s, k + 1);
    assert(skip_space(s, k) == skip_space(s, k + 1));
}

/// The text of a readable tree is not empty, and starts with a sign that
/// neither is white space nor closes a list or an array.
proof fn lemma_first_sign(t: TreeV)
    requires
        readable(t),
    ensures
        plain_text(t).len() >= 1,
        !is_space(plain_text(t)[0]),
        plain_text(t)[0] != ')',
        plain_text(t)[0] != ']',
{
    match t {
        TreeV::Integer(v) => {
            let m: nat = if v < 0 { (-v) as nat } else { v as nat };
            lemma_nat_text(m);
            assert(is_ascii_digit(nat_text(m)[0]));
        },
        _ => {},
    }
}

/// The rest of a proper list is written as nothing, or from a space on.
proof fn lemma_tail_sign(b: TreeV)
    requires
        readable_tail(b),
    ensures
        cdr_text(b, Seq::empty()).0.len() == 0 || cdr_text(b, Seq::empty()).0[0] == ' ',
{
    match b {
        TreeV::Pair(x, y) => {
            let (ta, ft1) = tree_text(*x, Seq::empty());
            assert(cdr_text(b, Seq::empty()).0 == seq![' '] + ta + cdr_text(*y, ft1).0);
        },
        _ => {},
    }
}

/// The reader, at the text of a readable tree that is followed by the end of
/// the input, a space or a closing sign, reads that tree and stops after it.
proof fn lemma_read<F: FloatOps>(s: Seq<char>, i: int, t: TreeV, floats: F)
    requires
        readable(t),
        0 <= i,
        i + plain_text(t).len() <= s.len(),
        s.subrange(i, i + plain_text(t).len()) == plain_text(t),
        ends_at(s, i + plain_text(t).len()),
    ensures
        p_object(s, i, floats) == Outcome::Done(i + plain_text(t).len(), t),
    decreases t, 0int, 0int,
{
    let x = plain_text(t);
    let n = x.len() as int;
    let e = i + n;
    lemma_first_sign(t);
    assert(s[i] == x[0]) by {
        assert(s.subrange(i, e)[0] == s[i]);
    }
    assert(skip_space(s, i) == i);
    let c = s[i];
    match t {
        TreeV::Integer(v) => {
            let m: nat = if v < 0 { (-v) as nat } else { v as nat };
            lemma_nat_text(m);
            let d = nat_text(m);
            let k = if v < 0 { i + 1 } else { i };
            if v < 0 {
                assert(x == seq!['-'] + d);
                lemma_split(s, i, seq!['-'], d);
            } else {
                assert(x == d);
                assert(is_ascii_digit(d[0]));
            }
            assert(s.subrange(k, e) == d);
            assert forall|j: int| k <= j < e implies is_ascii_digit(#[trigger] s[j]) by {
                assert(s.subrange(k, e)[j - k] == s[j]);
            }
            lemma_digit_run(s, k, e - k);
            assert(p_float(s, i, floats) is Fail);
            assert(p_integer(s, i) == Outcome::Done(e, t));
        },
        TreeV::Atom(a) => {
            assert(x == a);
            assert forall|j: int| i + 1 <= j < e implies is_atom_continue(#[trigger] s[j]) by {
                assert(s.subrange(i, e)[j - i] == s[j]);
            }
            lemma_atom_run(s, i + 1, n - 1);
            assert(digits_end(s, i) == i);
            assert(p_float(s, i, floats) is Fail);
            assert(p_integer(s, i) is Fail);
            assert(p_string(s, i) is Fail);
            assert(s.subrange(i, e) == a);
            assert(p_atom(s, i) == Outcome::Done(e, t));
        },
        TreeV::Quote(a) => {
            lemma_split(s, i, seq!['\''], plain_text(*a));
            lemma_read(s, i + 1, *a, floats);
        },
        TreeV::Quasiquote(a) => {
            lemma_split(s, i, seq!['`'], plain_text(*a));
            lemma_read(s, i + 1, *a, floats);
        },
        TreeV::Unquote(a) => {
            lemma_split(s, i, seq![','], plain_text(*a));
            lemma_read(s, i + 1, *a, floats);
        },
        TreeV::Pair(a, b) => {
            lemma_no_texts_used(*a);
            let ta = plain_text(*a);
            let tb = cdr_text(*b, Seq::empty()).0;
            assert(x == seq!['('] + ta + tb + seq![')']);
            assert(seq!['('] + ta + tb + seq![')'] == seq!['('] + (ta + (tb + seq![')']))) by {
                assert(seq!['('] + ta + tb + seq![')'] =~= seq!['('] + (ta + (tb + seq![')'])));
            }
            lemma_split(s, i, seq!['('], ta + (tb + seq![')']));
            lemma_split(s, i + 1, ta, tb + seq![')']);
            lemma_split(s, i + 1 + ta.len(), tb, seq![')']);
            let ea = i + 1 + ta.len();
            assert(s[ea + tb.len()] == ')') by {
                assert(s.subrange(ea + tb.len(), ea + tb.len() + 1)[0] == s[ea + tb.len()]);
            }
            lemma_first_sign(*a);
            assert(s[i + 1] == ta[0]) by {
                assert(s.subrange(i + 1, ea)[0] == s[i + 1]);
            }
            assert(skip_space(s, i + 1) == i + 1);
            lemma_tail_sign(*b);
            assert(s[ea] == ' ' || s[ea] == ')') by {
                if tb.len() > 0 {
                    assert(s.subrange(ea, ea + tb.len())[0] == s[ea]);
                }
            }
            lemma_read(s, i + 1, *a, floats);
            lemma_tail(s, ea, *b, floats);
            assert(p_items(s, i + 1, ')', floats) == Outcome::Done(e, seq![*a] + tail_items(*b)));
            assert(tail_items(t) == seq![*a] + tail_items(*b));
            lemma_list_of_tail(t);
            assert(p_float(s, i, floats) is Fail);
            assert(p_integer(s, i) is Fail);
            assert(p_string(s, i) is Fail);
        },
        TreeV::Array(items) => {
            lemma_texts_plain(items, 0, Seq::empty());
            let ts = item_texts(items);
            assert(ts.subrange(0, items.len() as int) =~= ts);
            assert(x == seq!['['] + joined(ts) + seq![']']);
            assert(seq!['['] + joined(ts) + seq![']'] == seq!['['] + (joined(ts) + seq![']'])) by {
                assert(seq!['['] + joined(ts) + seq![']'] =~= seq!['['] + (joined(ts) + seq![']']));
            }
            lemma_split(s, i, seq!['['], joined(ts) + seq![']']);
            lemma_split(s, i + 1, joined(ts), seq![']']);
            assert(p_float(s, i, floats) is Fail);
            assert(p_integer(s, i) is Fail);
            assert(p_string(s, i) is Fail);
            if items.len() == 0 {
                assert(joined(ts) == Seq::<char>::empty());
                assert(s[i + 1] == ']') by {
                    assert(s.subrange(i + 1, i + 2)[0] == s[i + 1]);
                }
                assert(skip_space(s, i + 1) == i + 1);
                assert(items =~= Seq::<TreeV>::empty());
                assert(p_items(s, i + 1, ']', floats) == Outcome::Done(e, items));
            } else {
                lemma_joined_front(ts);
                assert(ts.drop_first() =~= ts.subrange(1, items.len() as int));
                assert(s[e - 1] == ']') by {
                    assert(s.subrange(e - 1, e)[0] == s[e - 1]);
                }
                lemma_arr_first(s, i + 1, items, 0, floats);
                assert(items.subrange(0, items.len() as int) =~= items);
            }
        },
        _ => {},
    }
}

/// The reader, after the first item of a proper list, reads the rest of it
/// from its text and the closing parenthesis.
proof fn lemma_tail<F: FloatOps>(s: Seq<char>, k: int, b: TreeV, floats: F)
    requires
        readable_tail(b),
        0 <= k,
        k + cdr_text(b, Seq::empty()).0.len() < s.len(),
        s.subrange(k, k + cdr_text(b, Seq::empty()).0.len()) == cdr_text(b, Seq::empty()).0,
        s[k + cdr_text(b, Seq::empty()).0.len()] == ')',
    ensures
        p_items(s, k, ')', floats) == Outcome::Done(k + cdr_text(b, Seq::empty()).0.len() + 1, tail_items(b)),
    decreases b, 0int, 0int,
{
    let z = cdr_text(b, Seq::empty()).0;
    match b {
        TreeV::Pair(x1, y1) => {
            lemma_no_texts_used(*x1);
            let tx = plain_text(*x1);
            let ty = cdr_text(*y1, Seq::empty()).0;
            assert(z == seq![' '] + tx + ty);
            assert(seq![' '] + tx + ty == seq![' '] + (tx + ty)) by {
                assert(seq![' '] + tx + ty =~= seq![' '] + (tx + ty));
            }
            lemma_split(s, k, seq![' '], tx + ty);
            lemma_split(s, k + 1, tx, ty);
            assert(s[k] == ' ') by {
                assert(s.subrange(k, k + 1)[0] == s[k]);
            }
            lemma_items_skip(s, k, ')', floats);
            lemma_first_sign(*x1);
            assert(s[k + 1] == tx[0]) by {
                assert(s.subrange(k + 1, k + 1 + tx.len())[0] == s[k + 1]);
            }
            assert(skip_space(s, k + 1) == k + 1);
            let ex = k + 1 + tx.len();
            lemma_tail_sign(*y1);
            assert(s[ex] == ' ' || s[ex] == ')') by {
                if ty.len() > 0 {
                    assert(s.subrange(ex, ex + ty.len())[0] == s[ex]);
                }
            }
            lemma_read(s, k + 1, *x1, floats);
            lemma_tail(s, ex, *y1, floats);
        },
        _ => {
            assert(z.len() == 0);
            assert(skip_space(s, k) == k);
            assert(tail_items(b) =~= Seq::<TreeV>::empty());
        },
    }
}

/// The reader, at the text of `items[i]` followed by those of the later
/// items, each after a space, and a closing bracket, reads those items.
proof fn lemma_arr_first<F: FloatOps>(s: Seq<char>, k: int, items: Seq<TreeV>, i: int, floats: F)
    requires
        0 <= i < items.len(),
        readable_items(items, i),
        0 <= k,
        k + (item_texts(items)[i] + spaced(item_texts(items).subrange(i + 1, items.len() as int))).len() < s.len(),
        s.subrange(k, k + (item_texts(items)[i] + spaced(item_texts(items).subrange(i + 1, items.len() as int))).len())
            == item_texts(items)[i] + spaced(item_texts(items).subrange(i + 1, items.len() as int)),
        s[k + (item_texts(items)[i] + spaced(item_texts(items).subrange(i + 1, items.len() as int))).len()] == ']',
    ensures
        p_items(s, k, ']', floats) == Outcome::Done(
            k + (item_texts(items)[i] + spaced(item_texts(items).subrange(i + 1, items.len() as int))).len() + 1,
            items.subrange(i, items.len() as int),
        ),
    decreases items, items.len() - i, 1int,
{
    let tx = item_texts(items)[i];
    let rest = spaced(item_texts(items).subrange(i + 1, items.len() as int));
    assert(tx == plain_text(items[i]));
    lemma_split(s, k, tx, rest);
    lemma_first_sign(items[i]);
    assert(s[k] == tx[0]) by {
        assert(s.subrange(k, k + tx.len())[0] == s[k]);
    }
    assert(skip_space(s, k) == k);
    let e1 = k + tx.len();
    assert(rest.len() == 0 || rest[0] == ' ');
    assert(s[e1] == ' ' || s[e1] == ']') by {
        if rest.len() > 0 {
            assert(s.subrange(e1, e1 + rest.len())[0] == s[e1]);
        }
    }
    lemma_read(s, k, items[i], floats);
    lemma_arr_spaced(s, e1, items, i + 1, floats);
    assert(seq![items[i]] + items.subrange(i + 1, items.len() as int) =~= items.subrange(i, items.len() as int));
}

/// The reader, at the texts of `items[i..]`, each after a space, and a
/// closing bracket, reads those items.
proof fn lemma_arr_spaced<F: FloatOps>(s: Seq<char>, k: int, items: Seq<TreeV>, i: int, floats: F)
    requires
        0 <= i <= items.len(),
        readable_items(items, i),
        0 <= k,
        k + spaced(item_texts(items).subrange(i, items.len() as int)).len() < s.len(),
        s.subrange(k, k + spaced(item_texts(items).subrange(i, items.len() as int)).len())
            == spaced(item_texts(items).subrange(i, items.len() as int)),
        s[k + spaced(item_texts(items).subrange(i, items.len() as int)).len()] == ']',
    ensures
        p_items(s, k, ']', floats) == Outcome::Done(
            k + spaced(item_texts(items).subrange(i, items.len() as int)).len() + 1,
            items.subrange(i, items.len() as int),
        ),
    decreases items, items.len() - i, 2int,
{
    let ps = item_texts(items).subrange(i, items.len() as int);
    if i == items.len() {
        assert(ps =~= Seq::<Seq<char>>::empty());
        assert(spaced(ps) == Seq::<char>::empty());
        assert(skip_space(s, k) == k);
        assert(items.subrange(i, items.len() as int) =~= Seq::<TreeV>::empty());
    } else {
        let y = item_texts(items)[i] + spaced(item_texts(items).subrange(i + 1, items.len() as int));
        assert(ps.drop_first() =~= item_texts(items).subrange(i + 1, items.len() as int));
        assert(ps[0] == item_texts(items)[i]);
        assert(spaced(ps) == seq![' '] + y) by {
            assert(spaced(ps) =~= seq![' '] + y);
        }
        lemma_split(s, k, seq![' '], y);
        assert(s[k] == ' ') by {
            assert(s.subrange(k, k + 1)[0] == s[k]);
        }
        lemma_items_skip(s, k, ']', floats);
        lemma_arr_first(s, k + 1, items, i, floats);
    }
}

/// The text of a readable tree uses no float texts, whatever they are.
proof fn lemma_text_any(t: TreeV, ft: Seq<(u64, Seq<char>)>)
    requires
        readable(t),
    ensures
        tree_text(t, ft) == (plain_text(t), ft),
    decreases t, 0int,
{
    match t {
        TreeV::Pair(a, b) => {
            lemma_text_any(*a, ft);
            lemma_text_any(*a, Seq::empty());
            lemma_cdr_any(*b, ft);
        },
        TreeV::Quote(a) => {
            lemma_text_any(*a, ft);
            lemma_text_any(*a, Seq::empty());
        },
        TreeV::Quasiquote(a) => {
            lemma_text_any(*a, ft);
            lemma_text_any(*a, Seq::empty());
        },
        TreeV::Unquote(a) => {
            lemma_text_any(*a, ft);
            lemma_text_any(*a, Seq::empty());
        },
        TreeV::Array(items) => {
            lemma_items_any(items, 0, Seq::empty(), ft);
        },
        _ => {},
    }
}

proof fn lemma_cdr_any(b: TreeV, ft: Seq<(u64, Seq<char>)>)
    requires
        readable_tail(b),
    ensures
        cdr_text(b, ft) == (cdr_text(b, Seq::empty()).0, ft),
    decreases b, 1int,
{
    match b {
        TreeV::Pair(x, y) => {
            lemma_text_any(*x, ft);
            lemma_text_any(*x, Seq::empty());
            lemma_cdr_any(*y, ft);
            lemma_cdr_any(*y, Seq::empty());
        },
        _ => {},
    }
}

proof fn lemma_items_any(items: Seq<TreeV>, i: int, acc: Seq<Seq<char>>, ft: Seq<(u64, Seq<char>)>)
    requires
        0 <= i <= items.len(),
        readable_items(items, i),
    ensures
        texts_from(items, i, acc, ft) == (texts_from(items, i, acc, Seq::empty()).0, ft),
    decreases items, items.len() - i,
{
    if i < items.len() {
        lemma_text_any(items[i], ft);
        lemma_text_any(items[i], Seq::empty());
        lemma_items_any(items, i + 1, acc.push(plain_text(items[i])), ft);
        lemma_items_any(items, i + 1, acc.push(plain_text(items[i])), Seq::empty());
    }
}

/// Reading the text of a tree gives the tree back.
///
/// For a tree made of integers, identifiers that begin with a letter, quotes
/// of such trees, proper lists and arrays: its text is the same whatever
/// texts floats would be written as, and the reader, with any `floats`, reads
/// the whole of that text as the tree itself.
pub proof fn law_reading_undoes_writing<F: FloatOps>(t: TreeV, ft: Seq<(u64, Seq<char>)>, floats: F)
    requires
        readable(t),
    ensures
        tree_text(t, ft) == (tree_text(t, Seq::empty()).0, ft),
        p_object(tree_text(t, Seq::empty()).0, 0, floats) == Outcome::Done(tree_text(t, Seq::empty()).0.len() as int, t),
{
    lemma_text_any(t, ft);
    let x = plain_text(t);
    assert(x.subrange(0, x.len() as int) =~= x);
    lemma_read(x, 0, t, floats);
}

} // verus!
