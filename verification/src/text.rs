//! Text scanning over sequences of characters: searching, splitting into
//! pieces, lines and words, and trimming.
//!
//! A `str` is viewed as the sequence of its characters. The specifications are
//! over such sequences; positions count characters, not bytes.

use vstd::prelude::*;

verus! {

/// The views of a sequence of strings.
pub open spec fn texts(v: Seq<String>) -> Seq<Seq<char>> {
    v.map_values(|s: String| s@)
}

/// Position of the first `c` in `s`, or the length of `s` where `c` is absent.
pub open spec fn first_pos(s: Seq<char>, c: char) -> int
    decreases s.len(),
{
    if s.len() == 0 || s[0] == c {
        0
    } else {
        1 + first_pos(s.skip(1), c)
    }
}

/// `p` is a prefix of `s`.
pub open spec fn has_prefix(s: Seq<char>, p: Seq<char>) -> bool {
    p.len() <= s.len() && s.take(p.len() as int) == p
}

/// `p` is a suffix of `s`.
pub open spec fn has_suffix(s: Seq<char>, p: Seq<char>) -> bool {
    p.len() <= s.len() && s.skip(s.len() - p.len()) == p
}

/// `p` occurs in `s` starting at position `i`.
pub open spec fn occurs_at(s: Seq<char>, p: Seq<char>, i: int) -> bool {
    0 <= i && i + p.len() <= s.len() && s.subrange(i, i + p.len()) == p
}

/// `p` occurs somewhere in `s`.
pub open spec fn has_infix(s: Seq<char>, p: Seq<char>) -> bool {
    exists|i: int| occurs_at(s, p, i)
}

/// The pieces of `s` between the occurrences of `sep`.
pub open spec fn split(s: Seq<char>, sep: char) -> Seq<Seq<char>>
    decreases s.len(),
{
    let p = first_pos(s, sep);
    if 0 <= p < s.len() {
        seq![s.take(p)] + split(s.skip(p + 1), sep)
    } else {
        seq![s]
    }
}

/// `s` without one final carriage return, where it has one.
pub open spec fn without_cr(s: Seq<char>) -> Seq<char> {
    if s.len() > 0 && s.last() == '\r' {
        s.drop_last()
    } else {
        s
    }
}

/// The lines of `s`: each ends at a newline or at the end of the text, and a
/// carriage return directly before the newline belongs to the line ending.
pub open spec fn lines(s: Seq<char>) -> Seq<Seq<char>>
    decreases s.len(),
{
    let p = first_pos(s, '\n');
    if s.len() == 0 {
        Seq::empty()
    } else if 0 <= p < s.len() {
        seq![without_cr(s.take(p))] + lines(s.skip(p + 1))
    } else {
        seq![s]
    }
}

/// The characters with the Unicode property `White_Space`.
pub open spec fn is_white(c: char) -> bool {
    let n = c as u32;
    ||| 0x9 <= n <= 0xd
    ||| n == 0x20
    ||| n == 0x85
    ||| n == 0xa0
    ||| n == 0x1680
    ||| 0x2000 <= n <= 0x200a
    ||| n == 0x2028
    ||| n == 0x2029
    ||| n == 0x202f
    ||| n == 0x205f
    ||| n == 0x3000
}

/// The number of leading characters of `s` whose whiteness is `white`.
pub open spec fn run(s: Seq<char>, white: bool) -> int
    decreases s.len(),
{
    if s.len() == 0 || is_white(s[0]) != white {
        0
    } else {
        1 + run(s.skip(1), white)
    }
}

/// The words of `s`: its maximal runs of characters that are not white space.
pub open spec fn words(s: Seq<char>) -> Seq<Seq<char>>
    decreases s.len(),
{
    let a = run(s, true);
    let rest = s.skip(a);
    let n = run(rest, false);
    if 0 <= a < s.len() && 0 < n <= rest.len() {
        seq![rest.take(n)] + words(rest.skip(n))
    } else {
        Seq::empty()
    }
}

/// `s` with every trailing copy of `p` removed.
pub open spec fn trim_end(s: Seq<char>, p: Seq<char>) -> Seq<char>
    decreases s.len(),
{
    if p.len() > 0 && has_suffix(s, p) {
        trim_end(s.take(s.len() - p.len()), p)
    } else {
        s
    }
}

/// `s` with every leading copy of `p` removed.
pub open spec fn trim_start(s: Seq<char>, p: Seq<char>) -> Seq<char>
    decreases s.len(),
{
    if p.len() > 0 && has_prefix(s, p) {
        trim_start(s.skip(p.len() as int), p)
    } else {
        s
    }
}

/// What the first position of a character is: nothing before it matches, and
/// the character there does unless the text ends.
pub proof fn lemma_first_pos(s: Seq<char>, c: char)
    ensures
        0 <= first_pos(s, c) <= s.len(),
        forall|i: int| 0 <= i < first_pos(s, c) ==> #[trigger] s[i] != c,
        first_pos(s, c) < s.len() ==> s[first_pos(s, c)] == c,
    decreases s.len(),
{
    if s.len() == 0 || s[0] == c {
    } else {
        lemma_first_pos(s.skip(1), c);
        assert forall|i: int| 0 <= i < first_pos(s, c) implies #[trigger] s[i] != c by {
            if i > 0 {
                assert(s.skip(1)[i - 1] == s[i]);
            }
        }
    }
}

/// The first position is the only one of its kind.
pub proof fn lemma_first_pos_is(s: Seq<char>, c: char, p: int)
    requires
        0 <= p <= s.len(),
        forall|i: int| 0 <= i < p ==> #[trigger] s[i] != c,
        p < s.len() ==> s[p] == c,
    ensures
        first_pos(s, c) == p,
{
    lemma_first_pos(s, c);
    let q = first_pos(s, c);
    if q < p {
        assert(s[q] != c);
    } else if p < q {
        assert(s[p] != c);
    }
}

proof fn lemma_run(s: Seq<char>, white: bool)
    ensures
        0 <= run(s, white) <= s.len(),
        forall|i: int| 0 <= i < run(s, white) ==> is_white(#[trigger] s[i]) == white,
        run(s, white) < s.len() ==> is_white(s[run(s, white)]) != white,
    decreases s.len(),
{
    if s.len() == 0 || is_white(s[0]) != white {
    } else {
        lemma_run(s.skip(1), white);
        assert forall|i: int| 0 <= i < run(s, white) implies is_white(#[trigger] s[i]) == white by {
            if i > 0 {
                assert(s.skip(1)[i - 1] == s[i]);
            }
        }
    }
}

proof fn lemma_run_is(s: Seq<char>, white: bool, p: int)
    requires
        0 <= p <= s.len(),
        forall|i: int| 0 <= i < p ==> is_white(#[trigger] s[i]) == white,
        p < s.len() ==> is_white(s[p]) != white,
    ensures
        run(s, white) == p,
{
    lemma_run(s, white);
    let q = run(s, white);
    if q < p {
        assert(is_white(s[q]) == white);
    } else if p < q {
        assert(is_white(s[p]) == white);
    }
}

/// The characters of `s`, in order.
pub fn chars_of(s: &str) -> (r: Vec<char>)
    ensures
        r@ == s@,
{
    let mut out: Vec<char> = Vec::new();
    for c in it: s.chars()
        invariant
            out@ == it.seq().take(it.index()),
            it.seq() == s@,
    {
        out.push(c);
    }
    out
}

/// Whether two texts are the same.
pub fn same(a: &str, b: &str) -> (r: bool)
    ensures
        r == (a@ == b@),
{
    let x = chars_of(a);
    let y = chars_of(b);
    if x.len() != y.len() {
        return false;
    }
    let mut i: usize = 0;
    while i < x.len()
        invariant
            i <= x.len(),
            x@ == a@,
            y@ == b@,
            x.len() == y.len(),
            forall|j: int| 0 <= j < i ==> x@[j] == y@[j],
        decreases x.len() - i,
    {
        if x[i] != y[i] {
            return false;
        }
        i = i + 1;
    }
    assert(a@ =~= b@);
    true
}

/// Whether the characters `p` stand in `s` at position `at`.
fn stands_at(s: &Vec<char>, p: &Vec<char>, at: usize) -> (r: bool)
    requires
        at + p.len() <= s.len(),
    ensures
        r == (s@.subrange(at as int, at + p.len()) == p@),
{
    let mut i: usize = 0;
    while i < p.len()
        invariant
            i <= p.len(),
            at + p.len() <= s.len(),
            forall|j: int| 0 <= j < i ==> s@[at + j] == p@[j],
        decreases p.len() - i,
    {
        if s[at + i] != p[i] {
            assert(s@.subrange(at as int, at + p.len())[i as int] != p@[i as int]);
            return false;
        }
        i = i + 1;
    }
    assert(s@.subrange(at as int, at + p.len()) =~= p@);
    true
}

/// Whether `s` begins with `p`.
pub fn starts_with(s: &str, p: &str) -> (r: bool)
    ensures
        r == has_prefix(s@, p@),
{
    let x = chars_of(s);
    let y = chars_of(p);
    if y.len() > x.len() {
        return false;
    }
    assert(s@.subrange(0, p@.len() as int) =~= s@.take(p@.len() as int));
    stands_at(&x, &y, 0)
}

/// Whether `s` ends with `p`.
pub fn ends_with(s: &str, p: &str) -> (r: bool)
    ensures
        r == has_suffix(s@, p@),
{
    let x = chars_of(s);
    let y = chars_of(p);
    if y.len() > x.len() {
        return false;
    }
    let at: usize = x.len() - y.len();
    assert(s@.subrange(at as int, at + p@.len()) =~= s@.skip(s@.len() - p@.len()));
    stands_at(&x, &y, at)
}

/// Whether `p` occurs in `s`.
pub fn contains(s: &str, p: &str) -> (r: bool)
    ensures
        r == has_infix(s@, p@),
{
    let x = chars_of(s);
    let y = chars_of(p);
    if y.len() > x.len() {
        return false;
    }
    let last: usize = x.len() - y.len();
    let mut i: usize = 0;
    loop
        invariant
            x@ == s@,
            y@ == p@,
            last == x.len() - y.len(),
            i <= last,
            forall|j: int| 0 <= j < i ==> !occurs_at(s@, p@, j),
        decreases last - i,
    {
        if stands_at(&x, &y, i) {
            assert(occurs_at(s@, p@, i as int));
            return true;
        }
        assert(!occurs_at(s@, p@, i as int));
        if i == last {
            return false;
        }
        i = i + 1;
    }
}

/// Position of the first `c` in `chars` from `from` on, or the length.
fn find_from(chars: &Vec<char>, from: usize, c: char) -> (r: usize)
    requires
        from <= chars.len(),
    ensures
        from <= r <= chars.len(),
        r == from + first_pos(chars@.skip(from as int), c),
{
    let mut i: usize = from;
    while i < chars.len()
        invariant
            from <= i <= chars.len(),
            forall|j: int| from <= j < i ==> chars@[j] != c,
        decreases chars.len() - i,
    {
        if chars[i] == c {
            proof {
                lemma_first_pos_is(chars@.skip(from as int), c, i - from);
            }
            return i;
        }
        i = i + 1;
    }
    proof {
        lemma_first_pos_is(chars@.skip(from as int), c, i - from);
    }
    i
}

/// The part of `s` before the first `c`, or all of `s` where `c` is absent.
pub fn before(s: &str, c: char) -> (r: String)
    ensures
        r@ == s@.take(first_pos(s@, c)),
{
    let chars = chars_of(s);
    assert(s@.skip(0) =~= s@);
    let p: usize = find_from(&chars, 0, c);
    s.substring_char(0, p).to_owned()
}

/// The pieces of `s` between the occurrences of `sep`.
pub fn split_on(s: &str, sep: char) -> (r: Vec<String>)
    ensures
        texts(r@) == split(s@, sep),
{
    let chars = chars_of(s);
    let mut out: Vec<String> = Vec::new();
    let mut start: usize = 0;
    assert(s@.skip(0) =~= s@);
    assert(texts(out@) + split(s@, sep) =~= split(s@, sep));
    loop
        invariant
            chars@ == s@,
            start <= chars.len(),
            texts(out@) + split(s@.skip(start as int), sep) == split(s@, sep),
        decreases chars.len() - start,
    {
        let ghost rest = s@.skip(start as int);
        let ghost before = texts(out@);
        let p: usize = find_from(&chars, start, sep);
        let piece = s.substring_char(start, p).to_owned();
        assert(piece@ =~= rest.take(p - start));
        out.push(piece);
        assert(texts(out@) =~= before.push(piece@));
        if p == chars.len() {
            assert(rest.take(p - start) =~= rest);
            assert(texts(out@) =~= before + split(rest, sep));
            return out;
        }
        assert(rest.skip(p - start + 1) =~= s@.skip(p + 1));
        assert(texts(out@) + split(s@.skip(p + 1), sep) =~= before + split(rest, sep));
        start = p + 1;
    }
}

/// The lines of `s`.
pub fn lines_of(s: &str) -> (r: Vec<String>)
    ensures
        texts(r@) == lines(s@),
{
    let chars = chars_of(s);
    let mut out: Vec<String> = Vec::new();
    let mut start: usize = 0;
    assert(s@.skip(0) =~= s@);
    assert(texts(out@) + lines(s@) =~= lines(s@));
    while start < chars.len()
        invariant
            chars@ == s@,
            start <= chars.len(),
            texts(out@) + lines(s@.skip(start as int)) == lines(s@),
        decreases chars.len() - start,
    {
        let ghost rest = s@.skip(start as int);
        let ghost before = texts(out@);
        let p: usize = find_from(&chars, start, '\n');
        if p == chars.len() {
            let piece = s.substring_char(start, p).to_owned();
            assert(piece@ =~= rest);
            out.push(piece);
            assert(texts(out@) =~= before + lines(rest));
            return out;
        }
        let end: usize = if p > start && chars[p - 1] == '\r' { p - 1 } else { p };
        let piece = s.substring_char(start, end).to_owned();
        assert(piece@ =~= without_cr(rest.take(p - start)));
        out.push(piece);
        assert(texts(out@) =~= before.push(piece@));
        assert(rest.skip(p - start + 1) =~= s@.skip(p + 1));
        assert(texts(out@) + lines(s@.skip(p + 1)) =~= before + lines(rest));
        start = p + 1;
    }
    assert(texts(out@) + lines(s@.skip(start as int)) =~= texts(out@));
    out
}

/// Whether `c` has the Unicode property `White_Space`.
pub fn is_white_space(c: char) -> (r: bool)
    ensures
        r == is_white(c),
{
    let n: u32 = c as u32;
    (0x9 <= n && n <= 0xd) || n == 0x20 || n == 0x85 || n == 0xa0 || n == 0x1680 || (0x2000 <= n && n
        <= 0x200a) || n == 0x2028 || n == 0x2029 || n == 0x202f || n == 0x205f || n == 0x3000
}

/// The end of the run of characters of whiteness `white` that starts at `from`.
fn run_end(chars: &Vec<char>, from: usize, white: bool) -> (r: usize)
    requires
        from <= chars.len(),
    ensures
        from <= r <= chars.len(),
        r == from + run(chars@.skip(from as int), white),
{
    let mut i: usize = from;
    while i < chars.len()
        invariant
            from <= i <= chars.len(),
            forall|j: int| from <= j < i ==> is_white(#[trigger] chars@[j]) == white,
        decreases chars.len() - i,
    {
        if is_white_space(chars[i]) != white {
            proof {
                lemma_run_is(chars@.skip(from as int), white, i - from);
            }
            return i;
        }
        i = i + 1;
    }
    proof {
        lemma_run_is(chars@.skip(from as int), white, i - from);
    }
    i
}

/// The words of `s`.
pub fn words_of(s: &str) -> (r: Vec<String>)
    ensures
        texts(r@) == words(s@),
{
    let chars = chars_of(s);
    let mut out: Vec<String> = Vec::new();
    let mut start: usize = 0;
    assert(s@.skip(0) =~= s@);
    assert(texts(out@) + words(s@) =~= words(s@));
    loop
        invariant
            chars@ == s@,
            start <= chars.len(),
            texts(out@) + words(s@.skip(start as int)) == words(s@),
        decreases chars.len() - start,
    {
        let ghost rest = s@.skip(start as int);
        let ghost before = texts(out@);
        let a: usize = run_end(&chars, start, true);
        assert(rest.skip(a - start) =~= s@.skip(a as int));
        if a == chars.len() {
            assert(texts(out@) =~= before + words(rest));
            return out;
        }
        let b: usize = run_end(&chars, a, false);
        proof {
            lemma_run(rest, true);
            assert(rest[a - start] == s@[a as int]);
            assert(!is_white(s@[a as int]));
            assert(s@.skip(a as int)[0] == s@[a as int]);
            lemma_run(s@.skip(a as int), false);
            lemma_run(s@.skip(a as int).skip(1), false);
            assert(b > a);
        }
        let piece = s.substring_char(a, b).to_owned();
        assert(piece@ =~= s@.skip(a as int).take(b - a));
        out.push(piece);
        assert(texts(out@) =~= before.push(piece@));
        assert(s@.skip(a as int).skip(b - a) =~= s@.skip(b as int));
        assert(words(rest) == seq![piece@] + words(s@.skip(b as int)));
        assert(texts(out@) + words(s@.skip(b as int)) =~= before + words(rest));
        start = b;
    }
}

/// `s` with every trailing copy of `p` removed.
pub fn trim_end_matches(s: &str, p: &str) -> (r: String)
    ensures
        r@ == trim_end(s@, p@),
{
    let x = chars_of(s);
    let y = chars_of(p);
    let mut end: usize = x.len();
    assert(s@.take(end as int) =~= s@);
    if y.len() > 0 {
        while end >= y.len() && stands_at(&x, &y, end - y.len())
            invariant
                x@ == s@,
                y@ == p@,
                y.len() > 0,
                end <= x.len(),
                trim_end(s@.take(end as int), p@) == trim_end(s@, p@),
            decreases end,
        {
            let ghost t = s@.take(end as int);
            assert(t.skip(t.len() - p@.len()) =~= s@.subrange(end - p@.len(), end as int));
            assert(t.take(t.len() - p@.len()) =~= s@.take(end - p@.len()));
            end = end - y.len();
        }
        proof {
            let t = s@.take(end as int);
            if end >= y.len() {
                assert(t.skip(t.len() - p@.len()) =~= s@.subrange(end - p@.len(), end as int));
            }
        }
    }
    assert(s@.subrange(0, end as int) =~= s@.take(end as int));
    s.substring_char(0, end).to_owned()
}

/// `s` with every leading copy of `p` removed.
pub fn trim_start_matches(s: &str, p: &str) -> (r: String)
    ensures
        r@ == trim_start(s@, p@),
{
    let x = chars_of(s);
    let y = chars_of(p);
    let mut start: usize = 0;
    assert(s@.skip(0) =~= s@);
    if y.len() > 0 {
        while x.len() - start >= y.len() && stands_at(&x, &y, start)
            invariant
                x@ == s@,
                y@ == p@,
                y.len() > 0,
                start <= x.len(),
                trim_start(s@.skip(start as int), p@) == trim_start(s@, p@),
            decreases x.len() - start,
        {
            let ghost t = s@.skip(start as int);
            assert(t.take(p@.len() as int) =~= s@.subrange(start as int, start + p@.len()));
            assert(t.skip(p@.len() as int) =~= s@.skip(start + p@.len()));
            start = start + y.len();
        }
        proof {
            let t = s@.skip(start as int);
            if x.len() - start >= y.len() {
                assert(t.take(p@.len() as int) =~= s@.subrange(start as int, start + p@.len()));
            }
        }
    }
    assert(s@.subrange(start as int, s@.len() as int) =~= s@.skip(start as int));
    s.substring_char(start, x.len()).to_owned()
}

/// What follows `p` in `s`, where `s` begins with `p`.
pub fn strip_prefix(s: &str, p: &str) -> (r: Option<String>)
    ensures
        match r {
            Some(t) => has_prefix(s@, p@) && t@ == s@.skip(p@.len() as int),
            None => !has_prefix(s@, p@),
        },
{
    if starts_with(s, p) {
        let n: usize = s.unicode_len();
        let k: usize = p.unicode_len();
        assert(s@.subrange(k as int, n as int) =~= s@.skip(p@.len() as int));
        Some(s.substring_char(k, n).to_owned())
    } else {
        None
    }
}

/// A piece without the separator comes off the front.
pub proof fn lemma_split_front(p: Seq<char>, sep: char, rest: Seq<char>)
    requires
        !p.contains(sep),
    ensures
        split(p + seq![sep] + rest, sep) == seq![p] + split(rest, sep),
{
    let s = p + seq![sep] + rest;
    assert forall|i: int| 0 <= i < p.len() implies #[trigger] s[i] != sep by {
        assert(s[i] == p[i]);
        assert(p.contains(p[i]));
    }
    lemma_first_pos_is(s, sep, p.len() as int);
    assert(s.take(p.len() as int) =~= p);
    assert(s.skip(p.len() as int + 1) =~= rest);
}

/// A text without the separator is its only piece.
pub proof fn lemma_split_whole(p: Seq<char>, sep: char)
    requires
        !p.contains(sep),
    ensures
        split(p, sep) == seq![p],
{
    assert forall|i: int| 0 <= i < p.len() implies #[trigger] p[i] != sep by {
        assert(p.contains(p[i]));
    }
    lemma_first_pos_is(p, sep, p.len() as int);
}

/// A piece without the separator goes to the end.
pub proof fn lemma_split_back(s: Seq<char>, sep: char, p: Seq<char>)
    requires
        !p.contains(sep),
    ensures
        split(s + seq![sep] + p, sep) == split(s, sep).push(p),
    decreases s.len(),
{
    lemma_first_pos(s, sep);
    let k = first_pos(s, sep);
    let whole = s + seq![sep] + p;
    if k < s.len() {
        assert forall|i: int| 0 <= i < k implies #[trigger] whole[i] != sep by {
            assert(whole[i] == s[i]);
        }
        lemma_first_pos_is(whole, sep, k);
        assert(whole.take(k) =~= s.take(k));
        assert(whole.skip(k + 1) =~= s.skip(k + 1) + seq![sep] + p);
        lemma_split_back(s.skip(k + 1), sep, p);
        assert(split(whole, sep) =~= split(s, sep).push(p));
    } else {
        assert(!s.contains(sep));
        lemma_split_front(s, sep, p);
        lemma_split_whole(p, sep);
        assert(split(whole, sep) =~= split(s, sep).push(p));
    }
}

/// The views of a sequence of string slices.
pub open spec fn strs(v: Seq<&str>) -> Seq<Seq<char>> {
    v.map_values(|s: &str| s@)
}

/// Owned copies of texts.
pub fn owned_all(list: &[&str]) -> (r: Vec<String>)
    ensures
        texts(r@) == strs(list@),
{
    let mut out: Vec<String> = Vec::new();
    let mut i: usize = 0;
    while i < list.len()
        invariant
            i <= list@.len(),
            out@.len() == i,
            forall|j: int| 0 <= j < i ==> (#[trigger] out@[j])@ == list@[j]@,
        decreases list@.len() - i,
    {
        out.push(list[i].to_owned());
        i = i + 1;
    }
    assert(texts(out@) =~= strs(list@));
    out
}

/// No word holds white space.
pub proof fn lemma_words_are_solid(s: Seq<char>, i: int, k: int)
    requires
        0 <= i < words(s).len(),
        0 <= k < words(s)[i].len(),
    ensures
        !is_white(words(s)[i][k]),
    decreases s.len(),
{
    let a = run(s, true);
    let rest = s.skip(a);
    let n = run(rest, false);
    lemma_run(s, true);
    lemma_run(rest, false);
    if i > 0 {
        assert(words(s)[i] == words(rest.skip(n))[i - 1]);
        lemma_words_are_solid(rest.skip(n), i - 1, k);
    } else {
        assert(words(s)[0] == rest.take(n));
        assert(rest.take(n)[k] == rest[k]);
    }
}

/// A text begins with another where it is that and something behind it, and
/// ends with another where it is something and that behind it.
pub proof fn law_beginning_and_end(s: Seq<char>, p: Seq<char>, other: Seq<char>)
    ensures
        has_prefix(p + other, p),
        has_suffix(other + p, p),
        has_prefix(s, p) ==> s == p + s.skip(p.len() as int),
        has_suffix(s, p) ==> s == s.take(s.len() - p.len()) + p,
{
    assert((p + other).take(p.len() as int) =~= p);
    assert((other + p).skip(other.len() as int) =~= p);
    if has_prefix(s, p) {
        assert(s =~= s.take(p.len() as int) + s.skip(p.len() as int));
    }
    if has_suffix(s, p) {
        assert(s =~= s.take(s.len() - p.len()) + s.skip(s.len() - p.len()));
    }
}

/// A text that is made of something, another text and something behind that
/// holds the other text.
pub proof fn law_middle_is_inside(before: Seq<char>, p: Seq<char>, behind: Seq<char>)
    ensures
        has_infix(before + p + behind, p),
{
    let whole = before + p + behind;
    assert(whole.subrange(before.len() as int, before.len() + p.len() as int) =~= p);
    assert(occurs_at(whole, p, before.len() as int));
}

/// A text that holds another is made of something, the other text and something
/// behind that.
pub proof fn law_inside_is_middle(s: Seq<char>, p: Seq<char>) -> (at: int)
    requires
        has_infix(s, p),
    ensures
        0 <= at <= s.len() - p.len(),
        s == s.take(at) + p + s.skip(at + p.len()),
{
    let at = choose|i: int| occurs_at(s, p, i);
    assert(s =~= s.take(at) + s.subrange(at, at + p.len()) + s.skip(at + p.len()));
    at
}

/// Pieces put together with a separator between them.
pub open spec fn joined(pieces: Seq<Seq<char>>, sep: char) -> Seq<char>
    decreases pieces.len(),
{
    if pieces.len() == 0 {
        Seq::empty()
    } else if pieces.len() == 1 {
        pieces[0]
    } else {
        pieces[0] + seq![sep] + joined(pieces.skip(1), sep)
    }
}

/// The pieces of a text hold no separator, and put together with it they are
/// the text.
pub proof fn law_pieces_join_back(s: Seq<char>, sep: char)
    ensures
        split(s, sep).len() > 0,
        joined(split(s, sep), sep) == s,
        forall|i: int| 0 <= i < split(s, sep).len() ==> !(#[trigger] split(s, sep)[i]).contains(sep),
    decreases s.len(),
{
    lemma_first_pos(s, sep);
    let p = first_pos(s, sep);
    let all = split(s, sep);
    if p < s.len() {
        let rest = s.skip(p + 1);
        law_pieces_join_back(rest, sep);
        assert(all.skip(1) =~= split(rest, sep));
        assert(s =~= s.take(p) + seq![sep] + rest);
        assert forall|i: int| 0 <= i < all.len() implies !(#[trigger] all[i]).contains(sep) by {
            if i > 0 {
                assert(all[i] == split(rest, sep)[i - 1]);
            } else {
                assert forall|k: int| 0 <= k < p implies s.take(p)[k] != sep by {
                    assert(s.take(p)[k] == s[k]);
                }
            }
        }
    } else {
        assert(all[0] == s);
    }
}

/// A line comes off the front of a text at the line feed, with a carriage
/// return directly before that; what stands behind the last line feed is a line
/// as it is, and where nothing does there is none.
pub proof fn law_lines_come_off(line: Seq<char>, rest: Seq<char>)
    requires
        !line.contains('\n'),
    ensures
        lines(line + seq!['\r', '\n'] + rest) == seq![line] + lines(rest),
        line.len() == 0 || line.last() != '\r' ==> lines(line + seq!['\n'] + rest) == seq![line]
            + lines(rest),
        line.len() > 0 ==> lines(line) == seq![line],
        lines(Seq::empty()) == Seq::<Seq<char>>::empty(),
{
    assert forall|i: int| 0 <= i < line.len() implies #[trigger] line[i] != '\n' by {
        assert(line.contains(line[i]));
    }
    let n = line.len() as int;
    let crlf = line + seq!['\r', '\n'] + rest;
    assert forall|i: int| 0 <= i < n + 1 implies #[trigger] crlf[i] != '\n' by {
        if i < n {
            assert(crlf[i] == line[i]);
        }
    }
    lemma_first_pos_is(crlf, '\n', n + 1);
    assert(crlf.take(n + 1).last() == '\r');
    assert(crlf.take(n + 1).drop_last() =~= line);
    assert(crlf.skip(n + 2) =~= rest);
    let lf = line + seq!['\n'] + rest;
    assert forall|i: int| 0 <= i < n implies #[trigger] lf[i] != '\n' by {
        assert(lf[i] == line[i]);
    }
    lemma_first_pos_is(lf, '\n', n);
    assert(lf.take(n) =~= line);
    assert(lf.skip(n + 1) =~= rest);
    lemma_first_pos_is(line, '\n', n);
}

/// White space is the tab, the line feed, the line tabulation, the form feed and
/// the carriage return, the space, the next line, and the spaces and separators
/// that Unicode has beyond.
pub proof fn law_white_space(c: char)
    ensures
        is_white(c) <==> seq![
            0x9u32,
            0xa,
            0xb,
            0xc,
            0xd,
            0x20,
            0x85,
            0xa0,
            0x1680,
            0x2000,
            0x2001,
            0x2002,
            0x2003,
            0x2004,
            0x2005,
            0x2006,
            0x2007,
            0x2008,
            0x2009,
            0x200a,
            0x2028,
            0x2029,
            0x202f,
            0x205f,
            0x3000,
        ].contains(c as u32),
{
    let all = seq![
        0x9u32,
        0xa,
        0xb,
        0xc,
        0xd,
        0x20,
        0x85,
        0xa0,
        0x1680,
        0x2000,
        0x2001,
        0x2002,
        0x2003,
        0x2004,
        0x2005,
        0x2006,
        0x2007,
        0x2008,
        0x2009,
        0x200a,
        0x2028,
        0x2029,
        0x202f,
        0x205f,
        0x3000,
    ];
    let n = c as u32;
    if is_white(c) {
        let i = if n <= 0xd {
            n - 0x9
        } else if n == 0x20 {
            5
        } else if n == 0x85 {
            6
        } else if n == 0xa0 {
            7
        } else if n == 0x1680 {
            8
        } else if n <= 0x200a {
            9 + (n - 0x2000)
        } else if n == 0x2028 {
            20
        } else if n == 0x2029 {
            21
        } else if n == 0x202f {
            22
        } else if n == 0x205f {
            23
        } else {
            24int
        };
        assert(all[i] == n);
    }
}

/// A word comes off the front of a text, with the white space before it, where
/// the text ends or white space follows; white space alone holds no word.
pub proof fn law_words_come_off(space: Seq<char>, word: Seq<char>, rest: Seq<char>)
    requires
        forall|i: int| 0 <= i < space.len() ==> is_white(#[trigger] space[i]),
        forall|i: int| 0 <= i < word.len() ==> !is_white(#[trigger] word[i]),
        word.len() > 0,
        rest.len() > 0 ==> is_white(rest[0]),
    ensures
        words(space + word + rest) == seq![word] + words(rest),
        words(space) == Seq::<Seq<char>>::empty(),
{
    let s = space + word + rest;
    let a = space.len() as int;
    let n = word.len() as int;
    assert forall|i: int| 0 <= i < a implies is_white(#[trigger] s[i]) == true by {
        assert(s[i] == space[i]);
    }
    assert(s[a] == word[0]);
    lemma_run_is(s, true, a);
    let t = s.skip(a);
    assert forall|i: int| 0 <= i < n implies is_white(#[trigger] t[i]) == false by {
        assert(t[i] == word[i]);
    }
    if rest.len() > 0 {
        assert(t[n] == rest[0]);
    }
    lemma_run_is(t, false, n);
    assert(t.take(n) =~= word);
    assert(t.skip(n) =~= rest);
    lemma_run_is(space, true, a);
}

/// Copies come off the end, and off the front, until none is left there; the
/// rest of the text stays.
pub proof fn law_copies_come_off(s: Seq<char>, p: Seq<char>)
    requires
        p.len() > 0,
    ensures
        trim_end(s + p, p) == trim_end(s, p),
        !has_suffix(trim_end(s, p), p),
        !has_suffix(s, p) ==> trim_end(s, p) == s,
        trim_start(p + s, p) == trim_start(s, p),
        !has_prefix(trim_start(s, p), p),
        !has_prefix(s, p) ==> trim_start(s, p) == s,
    decreases s.len(),
{
    assert((s + p).skip(s.len() as int) =~= p);
    assert((s + p).take(s.len() as int) =~= s);
    assert((p + s).take(p.len() as int) =~= p);
    assert((p + s).skip(p.len() as int) =~= s);
    if has_suffix(s, p) {
        law_copies_come_off(s.take(s.len() - p.len()), p);
    }
    if has_prefix(s, p) {
        law_copies_come_off(s.skip(p.len() as int), p);
    }
}

} // verus!
