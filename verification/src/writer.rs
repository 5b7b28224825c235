//! Building texts line by line.

use crate::text::{lemma_first_pos_is, lines, without_cr};
use vstd::prelude::*;

verus! {

/// The texts of `items`, one after the other.
pub open spec fn concat<T>(items: Seq<T>, f: spec_fn(T) -> Seq<char>) -> Seq<char>
    decreases items.len(),
{
    if items.len() == 0 {
        Seq::empty()
    } else {
        concat(items.drop_last(), f) + f(items.last())
    }
}

/// One more item adds its text at the end.
pub proof fn lemma_concat_step<T>(items: Seq<T>, f: spec_fn(T) -> Seq<char>, i: int)
    requires
        0 <= i < items.len(),
    ensures
        concat(items.take(i + 1), f) == concat(items.take(i), f) + f(items[i]),
{
    assert(items.take(i + 1).drop_last() =~= items.take(i));
}

/// The texts of two sequences follow each other.
pub proof fn lemma_concat_add<T>(a: Seq<T>, b: Seq<T>, f: spec_fn(T) -> Seq<char>)
    ensures
        concat(a + b, f) == concat(a, f) + concat(b, f),
    decreases b.len(),
{
    if b.len() == 0 {
        assert(a + b =~= a);
        assert(concat(a, f) + concat(b, f) =~= concat(a, f));
    } else {
        lemma_concat_add(a, b.drop_last(), f);
        assert((a + b).drop_last() =~= a + b.drop_last());
        assert(concat(a, f) + (concat(b.drop_last(), f) + f(b.last())) =~= (concat(a, f) + concat(
            b.drop_last(),
            f,
        )) + f(b.last()));
    }
}

/// `s` holds no line feed.
pub open spec fn one_line(s: Seq<char>) -> bool {
    forall|i: int| 0 <= i < s.len() ==> #[trigger] s[i] != '\n'
}

/// Takes one final carriage return off a line, where it has one.
pub open spec fn stripped() -> spec_fn(Seq<char>) -> Seq<char> {
    |l: Seq<char>| without_cr(l)
}

/// Ends a line.
pub open spec fn ended() -> spec_fn(Seq<char>) -> Seq<char> {
    |l: Seq<char>| l + "\n"@
}

/// The text whose lines are `ls`.
pub open spec fn unlines(ls: Seq<Seq<char>>) -> Seq<char> {
    concat(ls, ended())
}

/// A text of one line.
pub proof fn lemma_unlines_one(l: Seq<char>)
    ensures
        unlines(seq![l]) == l + "\n"@,
{
    assert(seq![l].drop_last() =~= Seq::<Seq<char>>::empty());
    assert(unlines(Seq::<Seq<char>>::empty()) =~= Seq::<char>::empty());
    assert(Seq::<char>::empty() + (l + "\n"@) =~= l + "\n"@);
}

/// Lines that hold no line feed are the lines of the text they make, but for a
/// final carriage return.
pub proof fn lemma_lines_of_unlines(ls: Seq<Seq<char>>)
    requires
        forall|i: int| 0 <= i < ls.len() ==> one_line(#[trigger] ls[i]),
    ensures
        lines(unlines(ls)) == ls.map_values(stripped()),
    decreases ls.len(),
{
    let s = unlines(ls);
    if ls.len() == 0 {
        assert(lines(s) =~= ls.map_values(stripped()));
    } else {
        let first = ls[0];
        let rest = ls.skip(1);
        let p = first.len() as int;
        reveal_strlit("\n");
        assert(seq![first] + rest =~= ls);
        lemma_concat_add(seq![first], rest, ended());
        lemma_unlines_one(first);
        assert forall|i: int| 0 <= i < rest.len() implies one_line(#[trigger] rest[i]) by {
            assert(rest[i] == ls[i + 1]);
        }
        lemma_lines_of_unlines(rest);
        assert(s =~= first + "\n"@ + unlines(rest));
        assert(one_line(first));
        assert forall|i: int| 0 <= i < p implies #[trigger] s[i] != '\n' by {
            assert(s[i] == first[i]);
        }
        lemma_first_pos_is(s, '\n', p);
        assert(s.take(p) =~= first);
        assert(s.skip(p + 1) =~= unlines(rest));
        assert(lines(s) == seq![without_cr(first)] + rest.map_values(stripped()));
        assert(lines(s) =~= ls.map_values(stripped()));
    }
}

/// Appends three texts.
pub fn push3(out: &mut String, a: &str, b: &str, c: &str)
    ensures
        final(out)@ == old(out)@ + (a@ + b@ + c@),
{
    let ghost before = out@;
    out.append(a);
    out.append(b);
    out.append(c);
    assert(out@ =~= before + (a@ + b@ + c@));
}

/// The concatenation of two texts.
pub fn join2(a: &str, b: &str) -> (r: String)
    ensures
        r@ == a@ + b@,
{
    let mut out = a.to_owned();
    out.append(b);
    out
}

/// The concatenation of three texts.
pub fn join3(a: &str, b: &str, c: &str) -> (r: String)
    ensures
        r@ == a@ + b@ + c@,
{
    let mut out = join2(a, b);
    out.append(c);
    out
}

/// The concatenation of four texts.
pub fn join4(a: &str, b: &str, c: &str, d: &str) -> (r: String)
    ensures
        r@ == a@ + b@ + c@ + d@,
{
    let mut out = join3(a, b, c);
    out.append(d);
    out
}

/// The concatenation of five texts.
pub fn join5(a: &str, b: &str, c: &str, d: &str, e: &str) -> (r: String)
    ensures
        r@ == a@ + b@ + c@ + d@ + e@,
{
    let mut out = join4(a, b, c, d);
    out.append(e);
    out
}

} // verus!
