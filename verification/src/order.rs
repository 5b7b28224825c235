//! Orders of texts, and sorting by them.

use crate::text::{chars_of, texts};
use vstd::prelude::*;

verus! {

/// `a` stands before `b` in the lexicographic order of their characters.
pub open spec fn lex_less(a: Seq<char>, b: Seq<char>) -> bool
    decreases a.len(),
{
    if b.len() == 0 {
        false
    } else if a.len() == 0 {
        true
    } else if a[0] != b[0] {
        a[0] < b[0]
    } else {
        lex_less(a.skip(1), b.skip(1))
    }
}

/// `a` does not stand behind `b`.
pub open spec fn lex_le(a: Seq<char>, b: Seq<char>) -> bool {
    a == b || lex_less(a, b)
}

/// A strict order in which any two texts stand.
pub trait TextOrder: Sized {
    /// `a` stands before `b`.
    spec fn before(a: Seq<char>, b: Seq<char>) -> bool;

    /// Of two different texts exactly one stands before the other.
    proof fn lemma_total(a: Seq<char>, b: Seq<char>)
        ensures
            !Self::before(a, a),
            !(Self::before(a, b) && Self::before(b, a)),
            a != b ==> Self::before(a, b) || Self::before(b, a),
    ;

    /// The order is transitive.
    proof fn lemma_trans(a: Seq<char>, b: Seq<char>, c: Seq<char>)
        requires
            Self::before(a, b),
            Self::before(b, c),
        ensures
            Self::before(a, c),
    ;

    /// Whether `a` stands before `b`.
    fn is_before(a: &str, b: &str) -> (r: bool)
        ensures
            r == Self::before(a@, b@),
    ;
}

/// The lexicographic order.
pub struct Lexical;

impl TextOrder for Lexical {
    open spec fn before(a: Seq<char>, b: Seq<char>) -> bool {
        lex_less(a, b)
    }

    proof fn lemma_total(a: Seq<char>, b: Seq<char>) {
        lemma_lex_total(a, b);
    }

    proof fn lemma_trans(a: Seq<char>, b: Seq<char>, c: Seq<char>) {
        lemma_lex_trans(a, b, c);
    }

    fn is_before(a: &str, b: &str) -> (r: bool) {
        is_less(a, b)
    }
}

/// `a` does not stand behind `b`.
pub open spec fn up_to<O: TextOrder>(a: Seq<char>, b: Seq<char>) -> bool {
    a == b || O::before(a, b)
}

/// The texts stand in order.
pub open spec fn in_order<O: TextOrder>(s: Seq<Seq<char>>) -> bool {
    forall|i: int, j: int| 0 <= i < j < s.len() ==> up_to::<O>(#[trigger] s[i], #[trigger] s[j])
}

/// Of two different texts exactly one stands before the other.
pub proof fn lemma_lex_total(a: Seq<char>, b: Seq<char>)
    ensures
        !lex_less(a, a),
        !(lex_less(a, b) && lex_less(b, a)),
        a != b ==> lex_less(a, b) || lex_less(b, a),
    decreases a.len(),
{
    if a.len() > 0 {
        lemma_lex_total(a.skip(1), a.skip(1));
    }
    if a.len() > 0 && b.len() > 0 {
        lemma_lex_total(a.skip(1), b.skip(1));
        if a[0] == b[0] && a.skip(1) == b.skip(1) {
            assert(a =~= seq![a[0]] + a.skip(1));
            assert(b =~= seq![b[0]] + b.skip(1));
        }
    } else if a.len() == 0 && b.len() == 0 {
        assert(a =~= b);
    }
}

/// The order is transitive.
pub proof fn lemma_lex_trans(a: Seq<char>, b: Seq<char>, c: Seq<char>)
    requires
        lex_le(a, b),
        lex_le(b, c),
    ensures
        lex_le(a, c),
        lex_less(a, b) || lex_less(b, c) ==> lex_less(a, c),
    decreases a.len(),
{
    if a != b && b != c && a.len() > 0 {
        if a[0] == b[0] && b[0] == c[0] {
            lemma_lex_trans(a.skip(1), b.skip(1), c.skip(1));
        }
    }
}

/// Whether `a` stands before `b`.
pub fn is_less(a: &str, b: &str) -> (r: bool)
    ensures
        r == lex_less(a@, b@),
{
    let x = chars_of(a);
    let y = chars_of(b);
    let mut i: usize = 0;
    assert(a@.skip(0) =~= a@);
    assert(b@.skip(0) =~= b@);
    while i < x.len() && i < y.len()
        invariant
            x@ == a@,
            y@ == b@,
            i <= x.len(),
            i <= y.len(),
            lex_less(a@.skip(i as int), b@.skip(i as int)) == lex_less(a@, b@),
        decreases x.len() - i,
    {
        assert(a@.skip(i as int).skip(1) =~= a@.skip(i + 1));
        assert(b@.skip(i as int).skip(1) =~= b@.skip(i + 1));
        if x[i] != y[i] {
            return x[i] < y[i];
        }
        i = i + 1;
    }
    i < y.len()
}

/// The texts in order.
pub open spec fn sorted<O: TextOrder>(list: Seq<Seq<char>>) -> Seq<Seq<char>> {
    choose|r: Seq<Seq<char>>|
        #![trigger in_order::<O>(r)]
        in_order::<O>(r) && r.to_multiset() == list.to_multiset()
}

/// A text that goes where none before it stands behind it and all after it do
/// keeps the order.
proof fn lemma_insert<O: TextOrder>(before: Seq<Seq<char>>, p: int, item: Seq<char>)
    requires
        in_order::<O>(before),
        0 <= p <= before.len(),
        p > 0 ==> up_to::<O>(before[p - 1], item),
        forall|j: int| p <= j < before.len() ==> O::before(item, #[trigger] before[j]),
    ensures
        in_order::<O>(before.insert(p, item)),
        before.insert(p, item).to_multiset() == before.to_multiset().insert(item),
{
    let after = before.insert(p, item);
    vstd::seq_lib::to_multiset_insert(before, p, item);
    assert forall|a: int, b: int| 0 <= a < b < after.len() implies up_to::<O>(
        #[trigger] after[a],
        #[trigger] after[b],
    ) by {
        let x = if a < p { a } else { a - 1 };
        let y = if b < p { b } else { b - 1 };
        if a != p && b != p {
            assert(up_to::<O>(before[x], before[y]));
        } else if b == p {
            if a < p - 1 {
                assert(up_to::<O>(before[a], before[p - 1]));
                if before[a] != before[p - 1] && before[p - 1] != item {
                    O::lemma_trans(before[a], before[p - 1], item);
                }
            }
        } else {
            assert(O::before(item, before[y]));
        }
    }
}

/// The place of a text among texts in order.
proof fn lemma_place<O: TextOrder>(before: Seq<Seq<char>>, p: int, item: Seq<char>) -> (r: int)
    requires
        in_order::<O>(before),
        0 <= p <= before.len(),
        forall|j: int| p <= j < before.len() ==> O::before(item, #[trigger] before[j]),
    ensures
        0 <= r <= before.len(),
        r > 0 ==> up_to::<O>(before[r - 1], item),
        forall|j: int| r <= j < before.len() ==> O::before(item, #[trigger] before[j]),
    decreases p,
{
    if p > 0 && O::before(item, before[p - 1]) {
        lemma_place::<O>(before, p - 1, item)
    } else {
        if p > 0 {
            O::lemma_total(item, before[p - 1]);
        }
        p
    }
}

/// Texts can be put in order, and sorting keeps each of them as often as it
/// occurs.
pub proof fn lemma_sorted<O: TextOrder>(list: Seq<Seq<char>>)
    ensures
        in_order::<O>(sorted::<O>(list)),
        sorted::<O>(list).to_multiset() == list.to_multiset(),
        sorted::<O>(list).len() == list.len(),
    decreases list.len(),
{
    broadcast use vstd::seq_lib::group_to_multiset_ensures;

    if list.len() == 0 {
        assert(in_order::<O>(list));
    } else {
        let before = sorted::<O>(list.drop_last());
        lemma_sorted::<O>(list.drop_last());
        let p = lemma_place::<O>(before, before.len() as int, list.last());
        lemma_insert::<O>(before, p, list.last());
        let after = before.insert(p, list.last());
        assert(list.drop_last().push(list.last()) =~= list);
        vstd::seq_lib::to_multiset_build(list.drop_last(), list.last());
        assert(in_order::<O>(after) && after.to_multiset() == list.to_multiset());
    }
    assert(sorted::<O>(list).len() == sorted::<O>(list).to_multiset().len());
    assert(list.len() == list.to_multiset().len());
}

/// Puts texts in order.
pub fn sort_texts<O: TextOrder>(list: Vec<String>) -> (r: Vec<String>)
    ensures
        texts(r@) == sorted::<O>(texts(list@)),
        in_order::<O>(texts(r@)),
        texts(r@).to_multiset() == texts(list@).to_multiset(),
        r@.len() == list@.len(),
{
    let ghost all = texts(list@);
    let mut out: Vec<String> = Vec::new();
    let mut i: usize = 0;
    assert(texts(out@) =~= all.take(0));
    while i < list.len()
        invariant
            i <= list.len(),
            all == texts(list@),
            out@.len() == i,
            in_order::<O>(texts(out@)),
            texts(out@).to_multiset() == all.take(i as int).to_multiset(),
        decreases list.len() - i,
    {
        let item = list[i].clone();
        let ghost before = texts(out@);
        let mut p: usize = out.len();
        while p > 0 && O::is_before(item.as_str(), out[p - 1].as_str())
            invariant
                p <= out.len(),
                before == texts(out@),
                in_order::<O>(before),
                forall|j: int| p <= j < before.len() ==> O::before(item@, #[trigger] before[j]),
            decreases p,
        {
            assert(before[p - 1] == out@[p - 1]@);
            p = p - 1;
        }
        proof {
            if p > 0 {
                assert(before[p - 1] == out@[p - 1]@);
                O::lemma_total(item@, before[p - 1]);
                assert(up_to::<O>(before[p - 1], item@));
            }
        }
        out.insert(p, item);
        let ghost after = before.insert(p as int, item@);
        assert(texts(out@) =~= after);
        proof {
            assert(all.take(i + 1) =~= all.take(i as int).push(item@));
            vstd::seq_lib::to_multiset_build(all.take(i as int), item@);
            lemma_insert::<O>(before, p as int, item@);
        }
        i = i + 1;
    }
    assert(all.take(i as int) =~= all);
    proof {
        law_sorting_is_unique::<O>(texts(out@), sorted::<O>(all));
    }
    out
}

/// Two orderings of the same texts are the same: what sorting gives is fixed
/// by what it is given.
pub proof fn law_sorting_is_unique<O: TextOrder>(a: Seq<Seq<char>>, b: Seq<Seq<char>>)
    requires
        in_order::<O>(a),
        in_order::<O>(b),
        a.to_multiset() == b.to_multiset(),
    ensures
        a == b,
    decreases a.len(),
{
    broadcast use vstd::seq_lib::group_to_multiset_ensures;

    assert(a.len() == a.to_multiset().len());
    assert(b.len() == b.to_multiset().len());
    if a.len() == 0 {
        assert(a =~= b);
    } else {
        let x = a.last();
        let y = b.last();
        // each last text is the greatest of the same collection
        assert(up_to::<O>(y, x)) by {
            assert(b.contains(y)) by {
                assert(b[b.len() - 1] == y);
            }
            assert(a.to_multiset().count(y) > 0);
            let i = choose|i: int| 0 <= i < a.len() && a[i] == y;
            if i < a.len() - 1 {
                assert(up_to::<O>(a[i], a[a.len() - 1]));
            }
        }
        assert(up_to::<O>(x, y)) by {
            assert(a.contains(x)) by {
                assert(a[a.len() - 1] == x);
            }
            assert(b.to_multiset().count(x) > 0);
            let i = choose|i: int| 0 <= i < b.len() && b[i] == x;
            if i < b.len() - 1 {
                assert(up_to::<O>(b[i], b[b.len() - 1]));
            }
        }
        O::lemma_total(x, y);
        assert(x == y);
        assert(a.remove(a.len() - 1) =~= a.drop_last());
        assert(b.remove(b.len() - 1) =~= b.drop_last());
        assert forall|i: int, j: int| 0 <= i < j < a.drop_last().len() implies up_to::<O>(
            #[trigger] a.drop_last()[i],
            #[trigger] a.drop_last()[j],
        ) by {
            assert(up_to::<O>(a[i], a[j]));
        }
        assert forall|i: int, j: int| 0 <= i < j < b.drop_last().len() implies up_to::<O>(
            #[trigger] b.drop_last()[i],
            #[trigger] b.drop_last()[j],
        ) by {
            assert(up_to::<O>(b[i], b[j]));
        }
        law_sorting_is_unique::<O>(a.drop_last(), b.drop_last());
        assert(a =~= a.drop_last().push(x));
        assert(b =~= b.drop_last().push(y));
    }
}

/// A text stands before what it is the beginning of, and of two texts that are
/// the same up to a character the one with the smaller character stands first,
/// whatever follows.
pub proof fn law_order_of_texts(
    same: Seq<char>,
    x: char,
    y: char,
    behind: Seq<char>,
    other: Seq<char>,
)
    requires
        x < y,
    ensures
        lex_less(same, same + seq![x] + behind),
        lex_less(same + seq![x] + behind, same + seq![y] + other),
        !lex_less(same + seq![y] + other, same + seq![x] + behind),
        !lex_less(same, same),
        lex_le(same, same),
    decreases same.len(),
{
    let a = same + seq![x] + behind;
    let b = same + seq![y] + other;
    if same.len() > 0 {
        let rest = same.skip(1);
        law_order_of_texts(rest, x, y, behind, other);
        assert(a.skip(1) =~= rest + seq![x] + behind);
        assert(b.skip(1) =~= rest + seq![y] + other);
        assert(a[0] == same[0]);
        assert(b[0] == same[0]);
    } else {
        assert(a[0] == x);
        assert(b[0] == y);
    }
}

} // verus!
