//! Decimal numerals: rendering whole and fixed-point numbers, and reading
//! whole numbers back.

use vstd::arithmetic::div_mod::{
    lemma_fundamental_div_mod, lemma_fundamental_div_mod_converse_mod, lemma_small_mod,
};
use vstd::arithmetic::power2::{lemma2_to64, lemma_pow2_unfold, pow2};
use vstd::prelude::*;

verus! {

/// The character of the digit `d`, which is below ten.
pub open spec fn digit_char(d: int) -> char {
    (('0' as int) + d) as char
}

/// `c` is one of the ten decimal digits.
pub open spec fn is_digit(c: char) -> bool {
    '0' <= c <= '9'
}

/// The value of the digit `c`.
pub open spec fn digit_of(c: char) -> int {
    c as int - '0' as int
}

/// The shortest decimal numeral of `n`.
pub open spec fn dec(n: nat) -> Seq<char>
    decreases n,
{
    if n < 10 {
        seq![digit_char(n as int)]
    } else {
        dec(n / 10).push(digit_char((n % 10) as int))
    }
}

/// The shortest decimal numeral of `n`, with a leading minus sign where `n` is
/// negative.
pub open spec fn dec_int(n: int) -> Seq<char> {
    if n < 0 {
        seq!['-'] + dec((-n) as nat)
    } else {
        dec(n as nat)
    }
}

/// The last `width` decimal digits of `n`, leading zeros kept.
pub open spec fn dec_fixed(n: nat, width: nat) -> Seq<char>
    decreases width,
{
    if width == 0 {
        Seq::empty()
    } else {
        dec_fixed(n / 10, (width - 1) as nat).push(digit_char((n % 10) as int))
    }
}

/// The numeral of `n` units of `10^-width`, with `width` decimals; `scale` is
/// `10^width`.
pub open spec fn dec_point(n: nat, scale: nat, width: nat) -> Seq<char> {
    dec(n / scale) + seq!['.'] + dec_fixed(n % scale, width)
}

/// `s` is a nonempty sequence of decimal digits.
pub open spec fn all_digits(s: Seq<char>) -> bool {
    s.len() > 0 && forall|i: int| 0 <= i < s.len() ==> is_digit(#[trigger] s[i])
}

/// The value of a sequence of decimal digits.
pub open spec fn digits_value(s: Seq<char>) -> int
    decreases s.len(),
{
    if s.len() == 0 {
        0
    } else {
        digits_value(s.drop_last()) * 10 + digit_of(s.last())
    }
}

/// The whole number that `s` denotes: an optional plus sign and digits, of a
/// value of at most `max`.
pub open spec fn read_unsigned(s: Seq<char>, max: int) -> Option<int> {
    let body = if s.len() > 0 && s[0] == '+' {
        s.skip(1)
    } else {
        s
    };
    if all_digits(body) && digits_value(body) <= max {
        Some(digits_value(body))
    } else {
        None
    }
}

/// The whole number that `s` denotes: an optional sign and digits, of a value
/// between `min` and `max`.
pub open spec fn read_signed(s: Seq<char>, min: int, max: int) -> Option<int> {
    if s.len() > 0 && s[0] == '-' {
        let body = s.skip(1);
        if all_digits(body) && -digits_value(body) >= min {
            Some(-digits_value(body))
        } else {
            None
        }
    } else {
        read_unsigned(s, max)
    }
}

/// A numeral consists of digits and denotes the number it was made from.
pub proof fn lemma_dec_reads_back(n: nat)
    ensures
        all_digits(dec(n)),
        digits_value(dec(n)) == n,
    decreases n,
{
    if n < 10 {
        assert(dec(n).drop_last() =~= Seq::<char>::empty());
        assert(dec(n).last() == digit_char(n as int));
        assert(digits_value(Seq::<char>::empty()) == 0);
    } else {
        lemma_dec_reads_back(n / 10);
        let d = (n % 10) as int;
        assert(dec(n).drop_last() =~= dec(n / 10));
        assert(dec(n).last() == digit_char(d));
        assert forall|i: int| 0 <= i < dec(n).len() implies is_digit(#[trigger] dec(n)[i]) by {
            if i < dec(n / 10).len() {
                assert(dec(n)[i] == dec(n / 10)[i]);
            }
        }
    }
}

/// Reading the numeral of a number back gives that number, where it fits.
pub proof fn lemma_read_unsigned_dec(n: nat, max: int)
    requires
        n <= max,
    ensures
        read_unsigned(dec(n), max) == Some(n as int),
{
    lemma_dec_reads_back(n);
    assert(is_digit(dec(n)[0]));
}

/// Reading the numeral of a signed number back gives that number, where it fits.
pub proof fn lemma_read_signed_dec(n: int, min: int, max: int)
    requires
        min <= n <= max,
    ensures
        read_signed(dec_int(n), min, max) == Some(n),
{
    if n < 0 {
        lemma_dec_reads_back((-n) as nat);
        assert(dec_int(n).skip(1) =~= dec((-n) as nat));
    } else {
        lemma_dec_reads_back(n as nat);
        assert(is_digit(dec(n as nat)[0]));
        lemma_read_unsigned_dec(n as nat, max);
    }
}

proof fn lemma_digits_value_prefix(s: Seq<char>, k: int)
    requires
        0 <= k <= s.len(),
        forall|i: int| 0 <= i < s.len() ==> is_digit(#[trigger] s[i]),
    ensures
        0 <= digits_value(s.take(k)) <= digits_value(s),
    decreases s.len(),
{
    if k == s.len() {
        assert(s.take(k) =~= s);
        if s.len() > 0 {
            lemma_digits_value_prefix(s.drop_last(), s.len() - 1);
        }
    } else {
        assert(s.drop_last().take(k) =~= s.take(k));
        lemma_digits_value_prefix(s.drop_last(), k);
        assert(is_digit(s[s.len() - 1]));
    }
}

/// The numeral of one digit.
fn digit_text(d: u64) -> (r: &'static str)
    requires
        d < 10,
    ensures
        r@ == seq![digit_char(d as int)],
{
    proof {
        reveal_strlit("0");
        reveal_strlit("1");
        reveal_strlit("2");
        reveal_strlit("3");
        reveal_strlit("4");
        reveal_strlit("5");
        reveal_strlit("6");
        reveal_strlit("7");
        reveal_strlit("8");
        reveal_strlit("9");
    }
    if d == 0 {
        "0"
    } else if d == 1 {
        "1"
    } else if d == 2 {
        "2"
    } else if d == 3 {
        "3"
    } else if d == 4 {
        "4"
    } else if d == 5 {
        "5"
    } else if d == 6 {
        "6"
    } else if d == 7 {
        "7"
    } else if d == 8 {
        "8"
    } else {
        "9"
    }
}

/// The decimal numeral of `n`.
pub fn decimal(n: u64) -> (r: String)
    ensures
        r@ == dec(n as nat),
    decreases n,
{
    if n < 10 {
        digit_text(n).to_owned()
    } else {
        let mut out = decimal(n / 10);
        let ghost head = out@;
        out.append(digit_text(n % 10));
        assert(out@ =~= head.push(digit_char((n % 10) as int)));
        out
    }
}

/// The decimal numeral of the signed number `n`.
pub fn decimal_signed(n: i64) -> (r: String)
    ensures
        r@ == dec_int(n as int),
{
    if n < 0 {
        let magnitude: u64 = (-(n + 1)) as u64 + 1;
        let mut out = "-".to_owned();
        proof {
            reveal_strlit("-");
        }
        out.append(decimal(magnitude).as_str());
        assert(out@ =~= dec_int(n as int));
        out
    } else {
        decimal(n as u64)
    }
}

/// The last `width` decimal digits of `n`, leading zeros kept.
pub fn decimal_fixed(n: u64, width: u8) -> (r: String)
    ensures
        r@ == dec_fixed(n as nat, width as nat),
    decreases width,
{
    if width == 0 {
        String::new()
    } else {
        let mut out = decimal_fixed(n / 10, width - 1);
        let ghost head = out@;
        out.append(digit_text(n % 10));
        assert(out@ =~= head.push(digit_char((n % 10) as int)));
        out
    }
}

/// The numeral of `n` units of `10^-width`; `scale` is `10^width`.
pub fn decimal_point(n: u64, scale: u64, width: u8) -> (r: String)
    requires
        scale > 0,
    ensures
        r@ == dec_point(n as nat, scale as nat, width as nat),
{
    let mut out = decimal(n / scale);
    out.append(".");
    out.append(decimal_fixed(n % scale, width).as_str());
    proof {
        reveal_strlit(".");
        assert("."@ =~= seq!['.']);
    }
    out
}

/// The value of the digits of `chars` from `from` on, where there are any,
/// nothing else follows and the value is at most `max`.
fn read_digits(chars: &Vec<char>, from: usize, max: u64) -> (r: Option<u64>)
    requires
        from <= chars.len(),
    ensures
        ({
            let body = chars@.skip(from as int);
            match r {
                Some(v) => all_digits(body) && digits_value(body) == v && v <= max,
                None => !all_digits(body) || digits_value(body) > max,
            }
        }),
{
    let ghost body = chars@.skip(from as int);
    if from == chars.len() {
        return None;
    }
    let mut acc: u64 = 0;
    let mut i: usize = from;
    assert(body.take(0) =~= Seq::<char>::empty());
    while i < chars.len()
        invariant
            from <= i <= chars.len(),
            body == chars@.skip(from as int),
            forall|j: int| 0 <= j < i - from ==> is_digit(#[trigger] body[j]),
            acc == digits_value(body.take(i - from)),
            acc <= max,
        decreases chars.len() - i,
    {
        let c = chars[i];
        assert(body[i - from] == c);
        if c < '0' || c > '9' {
            return None;
        }
        let d: u64 = (c as u32 - 48) as u64;
        assert(body.take(i - from + 1).drop_last() =~= body.take(i - from));
        assert(body.take(i - from + 1).last() == c);
        let next: u128 = acc as u128 * 10 + d as u128;
        if next > max as u128 {
            proof {
                if all_digits(body) {
                    lemma_digits_value_prefix(body, i - from + 1);
                }
            }
            return None;
        }
        acc = next as u64;
        i = i + 1;
    }
    assert(body.take(i - from) =~= body);
    Some(acc)
}

/// Reads a whole number of at most `max`.
pub fn parse_unsigned(s: &str, max: u64) -> (r: Option<u64>)
    ensures
        match r {
            Some(v) => read_unsigned(s@, max as int) == Some(v as int),
            None => read_unsigned(s@, max as int) is None,
        },
{
    let chars = crate::text::chars_of(s);
    assert(chars@.skip(0) =~= s@);
    if chars.len() > 0 && chars[0] == '+' {
        read_digits(&chars, 1, max)
    } else {
        read_digits(&chars, 0, max)
    }
}

/// Reads a whole number in the range of `i64`.
pub fn parse_signed(s: &str) -> (r: Option<i64>)
    ensures
        match r {
            Some(v) => read_signed(s@, i64::MIN as int, i64::MAX as int) == Some(v as int),
            None => read_signed(s@, i64::MIN as int, i64::MAX as int) is None,
        },
{
    let chars = crate::text::chars_of(s);
    assert(chars@.skip(0) =~= s@);
    if chars.len() > 0 && chars[0] == '-' {
        match read_digits(&chars, 1, 0x8000_0000_0000_0000) {
            Some(v) => if v == 0 {
                Some(0)
            } else {
                Some(-((v - 1) as i64) - 1)
            },
            None => None,
        }
    } else {
        match parse_unsigned(s, 0x7fff_ffff_ffff_ffff) {
            Some(v) => Some(v as i64),
            None => None,
        }
    }
}

/// The digits that `s` begins with.
pub open spec fn digit_run(s: Seq<char>) -> Seq<char>
    decreases s.len(),
{
    if s.len() > 0 && is_digit(s[0]) {
        seq![s[0]] + digit_run(s.skip(1))
    } else {
        Seq::empty()
    }
}

/// A numeral is the digits that a text begins with, where no digit follows it.
pub proof fn lemma_digit_run(digits: Seq<char>, rest: Seq<char>)
    requires
        forall|i: int| 0 <= i < digits.len() ==> is_digit(#[trigger] digits[i]),
        rest.len() > 0 ==> !is_digit(rest[0]),
    ensures
        digit_run(digits + rest) == digits,
    decreases digits.len(),
{
    let s = digits + rest;
    if digits.len() == 0 {
        assert(s =~= rest);
        assert(digits =~= Seq::<char>::empty());
    } else {
        assert(s[0] == digits[0]);
        assert(s.skip(1) =~= digits.skip(1) + rest);
        lemma_digit_run(digits.skip(1), rest);
        assert(seq![digits[0]] + digits.skip(1) =~= digits);
    }
}

/// The digits that the characters from `from` on begin with.
pub fn leading_digits(chars: &Vec<char>, from: usize) -> (r: Vec<char>)
    requires
        from <= chars@.len(),
    ensures
        r@ == digit_run(chars@.skip(from as int)),
        forall|i: int| 0 <= i < r@.len() ==> is_digit(#[trigger] r@[i]),
{
    let ghost all = chars@.skip(from as int);
    let mut out: Vec<char> = Vec::new();
    let mut i: usize = from;
    assert(out@ + digit_run(all) =~= digit_run(all));
    while i < chars.len() && '0' <= chars[i] && chars[i] <= '9'
        invariant
            from <= i <= chars@.len(),
            all == chars@.skip(from as int),
            out@ + digit_run(chars@.skip(i as int)) == digit_run(all),
            forall|j: int| 0 <= j < out@.len() ==> is_digit(#[trigger] out@[j]),
        decreases chars@.len() - i,
    {
        let ghost before = out@;
        let ghost rest = chars@.skip(i as int);
        assert(rest.skip(1) =~= chars@.skip(i + 1));
        out.push(chars[i]);
        assert(out@ + digit_run(rest.skip(1)) =~= before + (seq![rest[0]] + digit_run(
            rest.skip(1),
        )));
        i = i + 1;
    }
    assert(digit_run(chars@.skip(i as int)) =~= Seq::<char>::empty());
    assert(out@ =~= digit_run(all));
    out
}

/// How one number stands to another.
#[derive(Clone, Copy, Debug, PartialEq, Eq, Structural)]
pub enum Rank {
    Less,
    Same,
    Greater,
}

/// How `a` stands to `b`.
pub open spec fn rank_of(a: int, b: int) -> Rank {
    if a < b {
        Rank::Less
    } else if a == b {
        Rank::Same
    } else {
        Rank::Greater
    }
}

/// The value of the first `i` of `n` digits, where zeros stand before those of
/// `s`.
spec fn padded_value(s: Seq<char>, n: int, i: int) -> int {
    digits_value(
        s.take(
            if i > n - s.len() {
                i - (n - s.len())
            } else {
                0
            },
        ),
    )
}

proof fn lemma_padded_step(s: Seq<char>, n: int, i: int)
    requires
        s.len() <= n,
        0 <= i < n,
    ensures
        i < n - s.len() ==> padded_value(s, n, i + 1) == 0 && padded_value(s, n, i) == 0,
        i >= n - s.len() ==> padded_value(s, n, i + 1) == padded_value(s, n, i) * 10 + digit_of(
            s[i - (n - s.len())],
        ),
{
    if i >= n - s.len() {
        let k = i - (n - s.len());
        assert(s.take(k + 1).drop_last() =~= s.take(k));
    }
}

/// The digit at place `i` of `n`, where zeros stand before those of `s`.
fn padded_digit(s: &Vec<char>, n: usize, i: usize) -> (r: u32)
    requires
        s@.len() <= n,
        i < n,
        forall|j: int| 0 <= j < s@.len() ==> is_digit(#[trigger] s@[j]),
    ensures
        r < 10,
        padded_value(s@, n as int, i + 1) == padded_value(s@, n as int, i as int) * 10 + r,
{
    proof {
        lemma_padded_step(s@, n as int, i as int);
    }
    if i < n - s.len() {
        0
    } else {
        let c = s[i - (n - s.len())];
        assert(is_digit(c));
        c as u32 - '0' as u32
    }
}

/// How the number with the digits `a` stands to that with the digits `b`,
/// however many they are.
pub fn rank(a: &Vec<char>, b: &Vec<char>) -> (r: Rank)
    requires
        forall|i: int| 0 <= i < a@.len() ==> is_digit(#[trigger] a@[i]),
        forall|i: int| 0 <= i < b@.len() ==> is_digit(#[trigger] b@[i]),
    ensures
        r == rank_of(digits_value(a@), digits_value(b@)),
{
    let n: usize = if a.len() < b.len() {
        b.len()
    } else {
        a.len()
    };
    let mut r = Rank::Same;
    let mut i: usize = 0;
    while i < n
        invariant
            i <= n,
            a@.len() <= n,
            b@.len() <= n,
            forall|j: int| 0 <= j < a@.len() ==> is_digit(#[trigger] a@[j]),
            forall|j: int| 0 <= j < b@.len() ==> is_digit(#[trigger] b@[j]),
            r == rank_of(
                padded_value(a@, n as int, i as int),
                padded_value(b@, n as int, i as int),
            ),
        decreases n - i,
    {
        let x: u32 = padded_digit(a, n, i);
        let y: u32 = padded_digit(b, n, i);
        match r {
            Rank::Same => {
                if x < y {
                    r = Rank::Less;
                } else if x > y {
                    r = Rank::Greater;
                }
            },
            _ => {},
        }
        i = i + 1;
    }
    assert(a@.take(a@.len() as int) =~= a@);
    assert(b@.take(b@.len() as int) =~= b@);
    r
}

/// Ten to the power of `k`.
pub open spec fn ten(k: nat) -> nat
    decreases k,
{
    if k == 0 {
        1
    } else {
        10 * ten((k - 1) as nat)
    }
}

/// The value of digits of which the least comes first.
pub open spec fn rising_value(s: Seq<u8>) -> nat
    decreases s.len(),
{
    if s.len() == 0 {
        0
    } else {
        s[0] as nat + 10 * rising_value(s.skip(1))
    }
}

/// A numeral of which the least digit comes first, without leading zeros.
pub open spec fn is_rising(s: Seq<u8>) -> bool {
    &&& s.len() > 0
    &&& s.last() != 0
    &&& forall|i: int| 0 <= i < s.len() ==> #[trigger] s[i] < 10
}

/// The digits as characters, the greatest first.
spec fn turned(s: Seq<u8>) -> Seq<char> {
    Seq::new(s.len(), |i: int| digit_char(s[s.len() - 1 - i] as int))
}

proof fn lemma_rising_push(s: Seq<u8>, d: u8)
    ensures
        rising_value(s.push(d)) == rising_value(s) + d * ten(s.len()),
    decreases s.len(),
{
    if s.len() == 0 {
        assert(s.push(d).skip(1) =~= Seq::<u8>::empty());
        assert(rising_value(Seq::<u8>::empty()) == 0);
        assert(d * ten(0) == d) by (nonlinear_arith)
            requires
                ten(0) == 1,
        ;
    } else {
        lemma_rising_push(s.skip(1), d);
        assert(s.push(d).skip(1) =~= s.skip(1).push(d));
        let p = ten(s.skip(1).len());
        assert(10 * (d * p) == d * (10 * p)) by (nonlinear_arith);
    }
}

proof fn lemma_turned(s: Seq<u8>)
    requires
        forall|i: int| 0 <= i < s.len() ==> #[trigger] s[i] < 10,
    ensures
        digits_value(turned(s)) == rising_value(s),
    decreases s.len(),
{
    if s.len() > 0 {
        assert forall|i: int| 0 <= i < s.skip(1).len() implies #[trigger] s.skip(1)[i] < 10 by {
            assert(s.skip(1)[i] == s[i + 1]);
        }
        lemma_turned(s.skip(1));
        assert(turned(s).drop_last() =~= turned(s.skip(1)));
        assert(turned(s).last() == digit_char(s[0] as int));
    }
}

/// A sequence of digits that does not begin with zero is the numeral of its
/// value.
proof fn lemma_numeral_is(s: Seq<char>)
    requires
        all_digits(s),
        s[0] != '0',
    ensures
        digits_value(s) > 0,
        s == dec(digits_value(s) as nat),
    decreases s.len(),
{
    let head = s.drop_last();
    let d = digit_of(s.last());
    assert(is_digit(s[s.len() - 1]));
    assert(digit_char(d) == s.last());
    if s.len() == 1 {
        assert(digits_value(head) == 0);
        assert(s =~= dec(d as nat));
    } else {
        assert forall|i: int| 0 <= i < head.len() implies is_digit(#[trigger] head[i]) by {
            assert(head[i] == s[i]);
        }
        lemma_numeral_is(head);
        let v = digits_value(s) as nat;
        assert(v / 10 == digits_value(head) && v % 10 == d);
        assert(s =~= head.push(s.last()));
    }
}

/// The digits of `n`, the least first.
fn rising_digits(n: u64) -> (r: Vec<u8>)
    requires
        n > 0,
    ensures
        is_rising(r@),
        rising_value(r@) == n,
{
    let mut out: Vec<u8> = Vec::new();
    let mut rest: u64 = n;
    assert(rest * ten(0) == rest) by (nonlinear_arith)
        requires
            ten(0) == 1,
    ;
    while rest > 0
        invariant
            n > 0,
            rising_value(out@) + rest * ten(out@.len()) == n,
            forall|i: int| 0 <= i < out@.len() ==> #[trigger] out@[i] < 10,
            rest == 0 ==> out@.len() > 0 && out@.last() != 0,
        decreases rest,
    {
        let d: u8 = (rest % 10) as u8;
        proof {
            let p = ten(out@.len());
            lemma_rising_push(out@, d);
            assert(rest * p == d * p + (rest / 10) * (10 * p)) by (nonlinear_arith)
                requires
                    rest == 10 * (rest / 10) + d,
            ;
        }
        out.push(d);
        rest = rest / 10;
    }
    out
}

/// Twice the number of which these are the digits, the least first.
fn rising_twice(digits: &Vec<u8>) -> (r: Vec<u8>)
    requires
        is_rising(digits@),
    ensures
        is_rising(r@),
        rising_value(r@) == 2 * rising_value(digits@),
{
    let mut out: Vec<u8> = Vec::new();
    let mut carry: u8 = 0;
    let mut i: usize = 0;
    while i < digits.len()
        invariant
            i <= digits@.len(),
            is_rising(digits@),
            out@.len() == i,
            carry <= 1,
            rising_value(out@) + carry * ten(i as nat) == 2 * rising_value(digits@.take(i as int)),
            forall|j: int| 0 <= j < out@.len() ==> #[trigger] out@[j] < 10,
            i == digits@.len() && carry == 0 ==> out@.last() != 0,
        decreases digits@.len() - i,
    {
        assert(digits@[i as int] < 10);
        let d: u8 = digits[i] * 2 + carry;
        let low: u8 = d % 10;
        proof {
            let p = ten(i as nat);
            let a = digits@[i as int];
            lemma_rising_push(out@, low);
            lemma_rising_push(digits@.take(i as int), a);
            assert(digits@.take(i + 1) =~= digits@.take(i as int).push(a));
            assert(carry * p + 2 * (a * p) == low * p + (d / 10) * (10 * p)) by (nonlinear_arith)
                requires
                    d == 2 * a + carry,
                    d == 10 * (d / 10) + low,
            ;
        }
        out.push(low);
        carry = d / 10;
        i = i + 1;
    }
    assert(digits@.take(i as int) =~= digits@);
    if carry > 0 {
        proof {
            lemma_rising_push(out@, carry);
        }
        out.push(carry);
    }
    out
}

/// The decimal numeral of `n` times 2^k.
pub fn decimal_shifted(n: u64, k: u32) -> (r: String)
    requires
        n > 0,
    ensures
        r@ == dec(n as nat * pow2(k as nat)),
{
    let mut digits = rising_digits(n);
    let mut i: u32 = 0;
    proof {
        lemma2_to64();
    }
    while i < k
        invariant
            i <= k,
            is_rising(digits@),
            rising_value(digits@) == n as nat * pow2(i as nat),
        decreases k - i,
    {
        proof {
            lemma_pow2_unfold((i + 1) as nat);
            let p = pow2(i as nat);
            assert(2 * (n * p) == n * (2 * p)) by (nonlinear_arith);
        }
        digits = rising_twice(&digits);
        i = i + 1;
    }
    let ghost all = turned(digits@);
    let mut out = String::new();
    let mut left: usize = digits.len();
    assert(all.take(0) =~= Seq::<char>::empty());
    while left > 0
        invariant
            left <= digits@.len(),
            is_rising(digits@),
            all == turned(digits@),
            out@ == all.take(digits@.len() - left),
        decreases left,
    {
        let ghost before = out@;
        left = left - 1;
        assert(digits@[left as int] < 10);
        out.append(digit_text(digits[left] as u64));
        proof {
            let at = digits@.len() - left - 1;
            assert(all[at] == digit_char(digits@[left as int] as int));
            assert(out@ =~= before.push(all[at]));
            assert(all.take(at + 1) =~= all.take(at).push(all[at]));
        }
    }
    proof {
        assert(all.take(digits@.len() as int) =~= all);
        lemma_turned(digits@);
        assert forall|i: int| 0 <= i < all.len() implies is_digit(#[trigger] all[i]) by {
            assert(digits@[digits@.len() - 1 - i] < 10);
        }
        lemma_numeral_is(all);
    }
    out
}

/// The ten digits, each with its value.
pub proof fn law_digits_and_values(d: int)
    requires
        0 <= d < 10,
    ensures
        digit_char(d) == "0123456789"@[d],
        is_digit(digit_char(d)),
        digit_of(digit_char(d)) == d,
        forall|c: char| is_digit(c) ==> 0 <= #[trigger] digit_of(c) < 10 && digit_char(digit_of(c))
            == c,
{
    reveal_strlit("0123456789");
}

/// A digit counts ten times as much for each digit behind it.
pub proof fn law_value_by_place(a: Seq<char>, b: Seq<char>)
    ensures
        digits_value(a + b) == digits_value(a) * ten(b.len()) + digits_value(b),
    decreases b.len(),
{
    if b.len() == 0 {
        assert(a + b =~= a);
        assert(digits_value(a) * ten(0) == digits_value(a)) by (nonlinear_arith)
            requires
                ten(0) == 1,
        ;
    } else {
        let c = b.drop_last();
        law_value_by_place(a, c);
        assert((a + b).drop_last() =~= a + c);
        let x = digits_value(a);
        let t = ten(c.len());
        assert((x * t) * 10 == x * (10 * t)) by (nonlinear_arith);
    }
}

/// So many digits of a number as are asked for: they are digits, and their value
/// is what the number leaves over the power of ten.
pub proof fn law_last_digits(n: nat, width: nat)
    ensures
        dec_fixed(n, width).len() == width,
        forall|i: int| 0 <= i < width ==> is_digit(#[trigger] dec_fixed(n, width)[i]),
        ten(width) > 0,
        digits_value(dec_fixed(n, width)) == n % ten(width),
    decreases width,
{
    if width > 0 {
        let w = (width - 1) as nat;
        let head = dec_fixed(n / 10, w);
        let d = (n % 10) as int;
        law_last_digits(n / 10, w);
        law_digits_and_values(d);
        assert(dec_fixed(n, width).drop_last() =~= head);
        let t = ten(w) as int;
        let q = (n / 10) as int / t;
        let r = (n / 10) as int % t;
        lemma_fundamental_div_mod((n / 10) as int, t);
        assert(n == (10 * t) * q + (10 * r + d)) by (nonlinear_arith)
            requires
                n == 10 * (n / 10) + d,
                (n / 10) as int == t * q + r,
        ;
        lemma_fundamental_div_mod_converse_mod(n as int, 10 * t, q, 10 * r + d);
    } else {
        assert(n % ten(0) == 0);
    }
}

/// A number with decimals is its digits with a point before the last of them:
/// without the point they stand for the number in units of the last place.
pub proof fn law_point_parts_the_digits(n: nat, width: nat)
    ensures
        ({
            let text = dec_point(n, ten(width), width);
            let at = text.len() - width - 1;
            &&& 0 < at
            &&& text[at] == '.'
            &&& all_digits(text.take(at) + text.skip(at + 1))
            &&& digits_value(text.take(at) + text.skip(at + 1)) == n
        }),
{
    let scale = ten(width);
    law_last_digits(n, width);
    law_last_digits(n % scale, width);
    lemma_dec_reads_back(n / scale);
    let whole = dec(n / scale);
    let decimals = dec_fixed(n % scale, width);
    let text = dec_point(n, scale, width);
    let at = text.len() - width - 1;
    assert(text.take(at) =~= whole);
    assert(text.skip(at + 1) =~= decimals);
    law_value_by_place(whole, decimals);
    lemma_fundamental_div_mod(n as int, scale as int);
    lemma_small_mod(n % scale, scale);
    assert((n / scale) * scale == scale * (n / scale)) by (nonlinear_arith);
}

/// Digits are read as their value, with a sign or without, where that is in
/// bounds; nothing else is a number.
pub proof fn law_reading_numbers(s: Seq<char>, min: int, max: int)
    requires
        min <= 0 <= max,
    ensures
        all_digits(s) && digits_value(s) <= max ==> {
            &&& read_unsigned(s, max) == Some(digits_value(s))
            &&& read_unsigned(seq!['+'] + s, max) == Some(digits_value(s))
            &&& read_signed(s, min, max) == Some(digits_value(s))
            &&& read_signed(seq!['+'] + s, min, max) == Some(digits_value(s))
        },
        all_digits(s) && -digits_value(s) >= min ==> read_signed(seq!['-'] + s, min, max) == Some(
            -digits_value(s),
        ),
        digits_value(s) > max ==> {
            &&& read_unsigned(s, max) is None || s[0] == '+'
            &&& read_unsigned(seq!['+'] + s, max) is None
            &&& read_signed(seq!['+'] + s, min, max) is None
        },
        -digits_value(s) < min ==> read_signed(seq!['-'] + s, min, max) is None,
        !all_digits(s) ==> {
            &&& read_unsigned(seq!['+'] + s, max) is None
            &&& read_signed(seq!['+'] + s, min, max) is None
            &&& read_signed(seq!['-'] + s, min, max) is None
            &&& s.len() > 0 && s[0] != '+' ==> read_unsigned(s, max) is None
            &&& s.len() > 0 && s[0] != '+' && s[0] != '-' ==> read_signed(s, min, max) is None
        },
        read_unsigned(Seq::empty(), max) is None,
        read_signed(Seq::empty(), min, max) is None,
        s.len() > 0 && s[0] == '-' ==> read_unsigned(s, max) is None,
{
    assert((seq!['+'] + s).skip(1) =~= s);
    assert((seq!['-'] + s).skip(1) =~= s);
    if all_digits(s) {
        assert(is_digit(s[0]));
    }
    if s.len() > 0 && s[0] == '-' {
        assert(!is_digit(s[0]));
    }
}

/// The digits that a text begins with are digits, they begin the text, and no
/// digit follows them.
pub proof fn law_digits_at_the_front(s: Seq<char>)
    ensures
        ({
            let d = digit_run(s);
            &&& d.len() <= s.len()
            &&& s.take(d.len() as int) == d
            &&& forall|i: int| 0 <= i < d.len() ==> is_digit(#[trigger] d[i])
            &&& d.len() < s.len() ==> !is_digit(s[d.len() as int])
        }),
    decreases s.len(),
{
    if s.len() > 0 && is_digit(s[0]) {
        let rest = digit_run(s.skip(1));
        let d = digit_run(s);
        law_digits_at_the_front(s.skip(1));
        assert(s.take(d.len() as int) =~= seq![s[0]] + s.skip(1).take(rest.len() as int));
        assert forall|i: int| 0 <= i < d.len() implies is_digit(#[trigger] d[i]) by {
            if i > 0 {
                assert(d[i] == rest[i - 1]);
            }
        }
        if d.len() < s.len() {
            assert(s[d.len() as int] == s.skip(1)[rest.len() as int]);
        }
    } else {
        assert(s.take(0) =~= digit_run(s));
    }
}

/// Numbers are told apart as they are on the line.
pub proof fn law_rank(a: int, b: int)
    ensures
        rank_of(a, b) is Less <==> b - a > 0,
        rank_of(a, b) is Same <==> a - b == 0,
        rank_of(a, b) is Greater <==> a - b > 0,
{
}

} // verus!
