//! Text primitives: ASCII case, trimming, decimal numbers and splitting, all
//! stated over the characters of a string.

use vstd::prelude::*;
use vstd::string::*;

verus! {

/// `String::push` appends one character and changes nothing else.
pub assume_specification[ String::push ](s: &mut String, c: char)
    ensures
        final(s)@ == old(s)@.push(c),
;

/// The ASCII lower case of one character; every other character is its own.
pub open spec fn lower_char(c: char) -> char {
    if 'A' <= c <= 'Z' {
        (c as u32 + 32) as char
    } else {
        c
    }
}

/// The ASCII lower case of a text, character by character.
pub open spec fn lower(s: Seq<char>) -> Seq<char> {
    s.map_values(|c: char| lower_char(c))
}

/// Lower case is lower case already.
pub proof fn lower_is_idempotent(s: Seq<char>)
    ensures
        lower(lower(s)) == lower(s),
{
    assert(lower(lower(s)) =~= lower(s));
}

/// Lower case of two parts.
pub proof fn lower_of_concat(a: Seq<char>, b: Seq<char>)
    ensures
        lower(a + b) == lower(a) + lower(b),
{
    assert(lower(a + b) =~= lower(a) + lower(b));
}

/// The characters with the Unicode `White_Space` property.
pub open spec fn is_space(c: char) -> bool {
    ||| '\u{9}' <= c <= '\u{d}'
    ||| c == ' '
    ||| c == '\u{85}'
    ||| c == '\u{a0}'
    ||| c == '\u{1680}'
    ||| '\u{2000}' <= c <= '\u{200a}'
    ||| c == '\u{2028}'
    ||| c == '\u{2029}'
    ||| c == '\u{202f}'
    ||| c == '\u{205f}'
    ||| c == '\u{3000}'
}

/// `s` without the longest run of characters that satisfy `drop` at its front.
pub open spec fn trim_front(s: Seq<char>, drop: spec_fn(char) -> bool) -> Seq<char>
    decreases s.len(),
{
    if s.len() > 0 && drop(s[0]) {
        trim_front(s.drop_first(), drop)
    } else {
        s
    }
}

/// `s` without the longest run of characters that satisfy `drop` at its back.
pub open spec fn trim_back(s: Seq<char>, drop: spec_fn(char) -> bool) -> Seq<char>
    decreases s.len(),
{
    if s.len() > 0 && drop(s.last()) {
        trim_back(s.drop_last(), drop)
    } else {
        s
    }
}

/// The characters of `s`.
pub(crate) fn chars_of(s: &str) -> (r: Vec<char>)
    ensures
        r@ == s@,
{
    let mut r: Vec<char> = Vec::new();
    for c in it: s.chars()
        invariant
            it.seq() == s@,
            r@ == s@.take(it.index() as int),
    {
        r.push(c);
    }
    assert(s@.take(s@.len() as int) == s@);
    r
}

/// The ASCII lower case of one character.
fn lower_one(c: char) -> (r: char)
    ensures
        r == lower_char(c),
{
    if 'A' <= c && c <= 'Z' {
        ((c as u8) + 32) as char
    } else {
        c
    }
}

/// The ASCII lower case of a text.
pub fn to_ascii_lowercase(s: &str) -> (r: String)
    ensures
        r@ == lower(s@),
{
    let chars = chars_of(s);
    let mut r = String::new();
    for i in 0..chars.len()
        invariant
            chars@ == s@,
            r@ == lower(s@.take(i as int)),
    {
        r.push(lower_one(chars[i]));
        assert(lower(s@.take(i + 1)) =~= lower(s@.take(i as int)).push(lower_char(s@[i as int])));
    }
    assert(s@.take(s@.len() as int) == s@);
    r
}

/// Whether two texts are the same.
pub fn same(a: &str, b: &str) -> (r: bool)
    ensures
        r == (a@ == b@),
{
    let x = chars_of(a);
    let y = chars_of(b);
    if x.len() != y.len() {
        return false;
    }
    for i in 0..x.len()
        invariant
            x@ == a@,
            y@ == b@,
            x@.len() == y@.len(),
            forall|j: int| 0 <= j < i ==> x@[j] == y@[j],
    {
        if x[i] != y[i] {
            return false;
        }
    }
    assert(a@ =~= b@);
    true
}

/// A fresh copy of a text.
pub(crate) fn copy_text(s: &str) -> (r: String)
    ensures
        r@ == s@,
{
    s.to_owned()
}

/// `a` followed by `b`.
pub(crate) fn concat(a: &str, b: &str) -> (r: String)
    ensures
        r@ == a@ + b@,
{
    let mut r = copy_text(a);
    r.append(b);
    r
}

/// Whether a character has the Unicode `White_Space` property.
pub fn is_space_char(c: char) -> (r: bool)
    ensures
        r == is_space(c),
{
    ('\u{9}' <= c && c <= '\u{d}') || c == ' ' || c == '\u{85}' || c == '\u{a0}' || c == '\u{1680}'
        || ('\u{2000}' <= c && c <= '\u{200a}') || c == '\u{2028}' || c == '\u{2029}' || c
        == '\u{202f}' || c == '\u{205f}' || c == '\u{3000}'
}

/// Every `c` at the front of `s` dropped.
pub fn trim_start_matches(s: &str, c: char) -> (r: &str)
    ensures
        r@ == trim_front(s@, |x: char| x == c),
{
    let chars = chars_of(s);
    let ghost drop = |x: char| x == c;
    let mut i: usize = 0;
    assert(s@.skip(0) == s@);
    while i < chars.len() && chars[i] == c
        invariant
            chars@ == s@,
            i <= chars.len(),
            drop == (|x: char| x == c),
            trim_front(s@, drop) == trim_front(s@.skip(i as int), drop),
        decreases chars.len() - i,
    {
        assert(s@.skip(i as int).drop_first() == s@.skip(i + 1));
        i = i + 1;
    }
    s.substring_char(i, chars.len())
}

/// Every `c` at the back of `s` dropped.
pub fn trim_end_matches(s: &str, c: char) -> (r: &str)
    ensures
        r@ == trim_back(s@, |x: char| x == c),
{
    let chars = chars_of(s);
    let ghost drop = |x: char| x == c;
    let mut n: usize = chars.len();
    assert(s@.take(n as int) == s@);
    while n > 0 && chars[n - 1] == c
        invariant
            chars@ == s@,
            n <= chars.len(),
            drop == (|x: char| x == c),
            trim_back(s@, drop) == trim_back(s@.take(n as int), drop),
        decreases n,
    {
        assert(s@.take(n as int).drop_last() == s@.take(n - 1));
        n = n - 1;
    }
    s.substring_char(0, n)
}

/// Every `c` at either end of `s` dropped.
pub fn trim_matches(s: &str, c: char) -> (r: &str)
    ensures
        r@ == trim_back(trim_front(s@, |x: char| x == c), |x: char| x == c),
{
    trim_end_matches(trim_start_matches(s, c), c)
}

/// White space dropped at both ends.
pub open spec fn trimmed(s: Seq<char>) -> Seq<char> {
    trim_back(trim_front(s, |x: char| is_space(x)), |x: char| is_space(x))
}

/// White space at either end of `s` dropped.
pub fn trim(s: &str) -> (r: &str)
    ensures
        r@ == trimmed(s@),
{
    let chars = chars_of(s);
    let ghost drop = |x: char| is_space(x);
    let mut i: usize = 0;
    assert(s@.skip(0) == s@);
    while i < chars.len() && is_space_char(chars[i])
        invariant
            chars@ == s@,
            i <= chars.len(),
            drop == (|x: char| is_space(x)),
            trim_front(s@, drop) == trim_front(s@.skip(i as int), drop),
        decreases chars.len() - i,
    {
        assert(s@.skip(i as int).drop_first() == s@.skip(i + 1));
        i = i + 1;
    }
    let ghost front = s@.skip(i as int);
    assert(trim_front(s@, drop) == front);
    let mut n: usize = chars.len();
    assert(s@.subrange(i as int, n as int) == front);
    while n > i && is_space_char(chars[n - 1])
        invariant
            chars@ == s@,
            i <= n <= chars.len(),
            drop == (|x: char| is_space(x)),
            trim_back(front, drop) == trim_back(s@.subrange(i as int, n as int), drop),
        decreases n,
    {
        assert(s@.subrange(i as int, n as int).drop_last() == s@.subrange(i as int, n - 1));
        n = n - 1;
    }
    s.substring_char(i, n)
}

/// Whether `c` is one of the ten decimal digits.
pub open spec fn is_digit(c: char) -> bool {
    '0' <= c <= '9'
}

/// Whether `s` is one decimal digit or more and nothing else.
pub open spec fn all_digits(s: Seq<char>) -> bool {
    s.len() > 0 && forall|i: int| 0 <= i < s.len() ==> is_digit(#[trigger] s[i])
}

/// The number that the decimal digits of `s` write.
pub open spec fn digits_value(s: Seq<char>) -> nat
    decreases s.len(),
{
    if s.len() == 0 {
        0
    } else {
        digits_value(s.drop_last()) * 10 + (s.last() as nat - '0' as nat) as nat
    }
}

/// The unsigned number that `s` writes: decimal digits and nothing else.
pub open spec fn digits(s: Seq<char>) -> Option<nat> {
    if all_digits(s) {
        Some(digits_value(s))
    } else {
        None
    }
}

/// The unsigned number that `s` writes: an optional `+`, then decimal digits.
pub open spec fn decimal(s: Seq<char>) -> Option<nat> {
    if s.len() > 0 && s[0] == '+' {
        digits(s.skip(1))
    } else {
        digits(s)
    }
}

/// `n`, where there is one and it is at most `max`.
pub open spec fn at_most(n: Option<nat>, max: nat) -> Option<nat> {
    match n {
        Some(v) if v <= max => Some(v),
        _ => None,
    }
}

/// More digits never make a smaller number.
proof fn digits_value_grows(s: Seq<char>, k: int)
    requires
        0 <= k <= s.len(),
    ensures
        digits_value(s.take(k)) <= digits_value(s),
    decreases s.len() - k,
{
    if k == s.len() {
        assert(s.take(k) == s);
    } else {
        digits_value_grows(s, k + 1);
        assert(s.take(k + 1).drop_last() == s.take(k));
    }
}

/// The number that the decimal digits from `from` on write, if it is at most `max`.
pub(crate) fn parse_digits(s: &Vec<char>, from: usize, max: u64) -> (r: Option<u64>)
    requires
        from <= s@.len(),
    ensures
        match r {
            Some(v) => at_most(digits(s@.skip(from as int)), max as nat) == Some(v as nat),
            None => at_most(digits(s@.skip(from as int)), max as nat) is None,
        },
{
    let ghost d = s@.skip(from as int);
    if from == s.len() {
        return None;
    }
    let mut v: u64 = 0;
    for i in from..s.len()
        invariant
            from < s@.len(),
            d == s@.skip(from as int),
            v <= max,
            v == digits_value(d.take(i - from)),
            forall|j: int| 0 <= j < i - from ==> is_digit(#[trigger] d[j]),
    {
        let c = s[i];
        assert(d[i - from] == c);
        if !('0' <= c && c <= '9') {
            return None;
        }
        let x: u64 = (c as u8 - '0' as u8) as u64;
        assert(d.take(i - from + 1).drop_last() == d.take(i - from));
        assert(digits_value(d.take(i - from + 1)) == v * 10 + x);
        let next: u128 = v as u128 * 10 + x as u128;
        if next > max as u128 {
            proof {
                digits_value_grows(d, i - from + 1);
            }
            return None;
        }
        v = next as u64;
    }
    assert(d.take(d.len() as int) == d);
    Some(v)
}

/// The unsigned number that `s` writes, if it is at most `max`.
pub fn parse_decimal(s: &str, max: u64) -> (r: Option<u64>)
    ensures
        match r {
            Some(v) => at_most(decimal(s@), max as nat) == Some(v as nat),
            None => at_most(decimal(s@), max as nat) is None,
        },
{
    let chars = chars_of(s);
    assert(s@.skip(0) == s@);
    if chars.len() > 0 && chars[0] == '+' {
        parse_digits(&chars, 1, max)
    } else {
        parse_digits(&chars, 0, max)
    }
}

/// `Some` of the first position of `c` at or behind `from`.
pub(crate) fn find_from(s: &Vec<char>, c: char, from: usize) -> (r: Option<usize>)
    requires
        from <= s@.len(),
    ensures
        match r {
            Some(i) => from <= i < s@.len() && s@.skip(from as int).index_of_first(c) == Some(
                i - from,
            ),
            None => s@.skip(from as int).index_of_first(c) is None,
        },
{
    let ghost d = s@.skip(from as int);
    proof {
        d.index_of_first_ensures(c);
    }
    for i in from..s.len()
        invariant
            d == s@.skip(from as int),
            from <= s@.len(),
            forall|j: int| 0 <= j < i - from ==> d[j] != c,
    {
        if s[i] == c {
            proof {
                d.index_of_first_ensures(c);
                assert(d[i - from] == c);
                assert(d.contains(c));
            }
            return Some(i);
        }
    }
    None
}

/// `Some` of the last position of `c`.
pub(crate) fn find_last(s: &Vec<char>, c: char) -> (r: Option<usize>)
    ensures
        match r {
            Some(i) => i < s@.len() && s@.index_of_last(c) == Some(i as int),
            None => s@.index_of_last(c) is None,
        },
{
    proof {
        s@.index_of_last_ensures(c);
    }
    let mut n: usize = s.len();
    while n > 0
        invariant
            n <= s@.len(),
            forall|j: int| n <= j < s@.len() ==> s@[j] != c,
        decreases n,
    {
        if s[n - 1] == c {
            proof {
                s@.index_of_last_ensures(c);
                assert(s@.contains(c));
            }
            return Some(n - 1);
        }
        n = n - 1;
    }
    proof {
        s@.index_of_last_ensures(c);
    }
    None
}

/// The character of one decimal digit.
pub open spec fn digit_char(d: nat) -> char {
    (48 + d) as char
}

/// The decimal text of a number, without leading zeros.
pub open spec fn decimal_text(n: nat) -> Seq<char>
    decreases n,
{
    if n < 10 {
        seq![digit_char(n)]
    } else {
        decimal_text(n / 10).push(digit_char(n % 10))
    }
}

/// `k` times the character `c`.
pub open spec fn repeated(c: char, k: nat) -> Seq<char> {
    Seq::new(k, |i: int| c)
}

/// The decimal text of a number behind `k` zeros.
pub open spec fn padded_text(k: nat, n: nat) -> Seq<char> {
    repeated('0', k) + decimal_text(n)
}

/// `s` writes the number `n`: an optional `+`, any number of zeros, and the
/// decimal text of `n`.
pub open spec fn writes(s: Seq<char>, n: nat) -> bool {
    exists|k: nat| #[trigger] padded_text(k, n) == s || seq!['+'] + padded_text(k, n) == s
}

/// Decimal text is made of digits, has one to start with, and does not start
/// with a zero unless it is one.
pub proof fn decimal_text_shape(n: nat)
    ensures
        decimal_text(n).len() >= 1,
        forall|i: int|
            0 <= i < decimal_text(n).len() ==> '0' <= #[trigger] decimal_text(n)[i] <= '9',
        n > 0 ==> decimal_text(n)[0] != '0',
        n < 10 ==> decimal_text(n).len() == 1,
        10 <= n < 100 ==> decimal_text(n).len() == 2,
        100 <= n < 1000 ==> decimal_text(n).len() == 3,
    decreases n,
{
    if n >= 10 {
        decimal_text_shape(n / 10);
    }
}

/// The value of decimal text is the number it was made from.
proof fn decimal_text_value(n: nat)
    ensures
        digits_value(decimal_text(n)) == n,
    decreases n,
{
    if n < 10 {
        assert(decimal_text(n).drop_last() =~= Seq::<char>::empty());
        assert(digits_value(decimal_text(n).drop_last()) == 0);
    } else {
        decimal_text_value(n / 10);
        assert(decimal_text(n).drop_last() =~= decimal_text(n / 10));
    }
}

/// Zeros in front do not change a value.
proof fn padded_value(k: nat, s: Seq<char>)
    ensures
        digits_value(repeated('0', k) + s) == digits_value(s),
    decreases s.len(), k,
{
    let t = repeated('0', k) + s;
    if s.len() > 0 {
        padded_value(k, s.drop_last());
        assert(t.drop_last() =~= repeated('0', k) + s.drop_last());
    } else if k > 0 {
        padded_value((k - 1) as nat, s);
        assert(t.drop_last() =~= repeated('0', (k - 1) as nat) + s);
    } else {
        assert(t =~= s);
    }
}

/// Reading a number inverts writing it, leading zeros or not.
pub proof fn written_number_is_read(k: nat, n: nat)
    ensures
        digits(padded_text(k, n)) == Some(n),
{
    let t = padded_text(k, n);
    decimal_text_shape(n);
    decimal_text_value(n);
    padded_value(k, decimal_text(n));
    assert forall|i: int| 0 <= i < t.len() implies is_digit(#[trigger] t[i]) by {
        if i >= k {
            assert(t[i] == decimal_text(n)[i - k]);
        }
    }
}

/// Only what writes a number is read as one.
pub proof fn read_number_was_written(s: Seq<char>, n: nat) -> (k: nat)
    requires
        digits(s) == Some(n),
    ensures
        s == padded_text(k, n),
    decreases s.len(),
{
    let init = s.drop_last();
    let c = s.last();
    assert(is_digit(s[s.len() - 1]));
    let d = (c as nat - '0' as nat) as nat;
    assert(digit_char(d) == c);
    if s.len() == 1 {
        assert(digits_value(init) == 0);
        assert(s =~= padded_text(0, n));
        0
    } else {
        assert forall|i: int| 0 <= i < init.len() implies is_digit(#[trigger] init[i]) by {
            assert(init[i] == s[i]);
        }
        let m = digits_value(init);
        let k = read_number_was_written(init, m);
        assert(n == m * 10 + d);
        assert(s =~= padded_text(k, m).push(c));
        if m == 0 {
            assert(decimal_text(m) =~= seq!['0']);
            assert(decimal_text(n) =~= seq![c]);
            assert(s =~= padded_text(k + 1, n));
            k + 1
        } else {
            assert(n / 10 == m && n % 10 == d);
            assert(decimal_text(n) == decimal_text(m).push(c));
            assert(s =~= padded_text(k, n));
            k
        }
    }
}

/// A text is read as `n` if and only if it writes `n`.
pub proof fn numbers_are_read_as_written(s: Seq<char>, n: nat)
    ensures
        decimal(s) == Some(n) <==> writes(s, n),
{
    if decimal(s) == Some(n) {
        if s[0] == '+' && s.len() > 0 {
            let k = read_number_was_written(s.skip(1), n);
            assert(seq!['+'] + padded_text(k, n) =~= s);
        } else {
            let k = read_number_was_written(s, n);
            assert(padded_text(k, n) == s);
        }
    }
    if writes(s, n) {
        let k = choose|k: nat| #[trigger] padded_text(k, n) == s || seq!['+'] + padded_text(k, n) == s;
        let t = padded_text(k, n);
        written_number_is_read(k, n);
        assert(is_digit(t[0]));
        if t == s {
        } else {
            assert(s.skip(1) =~= t);
        }
    }
}

/// No text writes two numbers.
pub proof fn a_text_writes_one_number(s: Seq<char>, m: nat, n: nat)
    requires
        writes(s, m),
        writes(s, n),
    ensures
        m == n,
{
    numbers_are_read_as_written(s, m);
    numbers_are_read_as_written(s, n);
}

/// A bound keeps the numbers up to it and no others.
pub proof fn a_bound_keeps_what_is_within(n: Option<nat>, max: nat, v: nat)
    ensures
        at_most(n, max) == Some(v) <==> n == Some(v) && v <= max,
{
}

/// Lower case moves the letters from A to Z by 32 and leaves every other
/// character and the length as they are.
pub proof fn lower_moves_letters(s: Seq<char>, i: int)
    requires
        0 <= i < s.len(),
    ensures
        lower(s).len() == s.len(),
        65 <= s[i] as u32 <= 90 ==> lower(s)[i] as u32 == s[i] as u32 + 32,
        !(65 <= s[i] as u32 <= 90) ==> lower(s)[i] == s[i],
{
}

/// Nothing is in lower case already.
pub proof fn lower_of_nothing()
    ensures
        lower(Seq::empty()) == Seq::<char>::empty(),
{
    assert(lower(Seq::empty()) =~= Seq::<char>::empty());
}

/// Trimming the front drops a run of unwanted characters, and stops at the
/// first other one.
pub proof fn front_is_trimmed(a: Seq<char>, m: Seq<char>, drop: spec_fn(char) -> bool)
    requires
        forall|i: int| 0 <= i < a.len() ==> drop(#[trigger] a[i]),
        m.len() > 0 ==> !drop(m[0]),
    ensures
        trim_front(a + m, drop) == m,
    decreases a.len(),
{
    let s = a + m;
    if a.len() == 0 {
        assert(s =~= m);
    } else {
        let rest = a.drop_first();
        assert forall|i: int| 0 <= i < rest.len() implies drop(#[trigger] rest[i]) by {
            assert(rest[i] == a[i + 1]);
        }
        front_is_trimmed(rest, m, drop);
        assert(s[0] == a[0]);
        assert(s.drop_first() =~= rest + m);
    }
}

/// Trimming the back drops a run of unwanted characters, and stops at the last
/// other one.
pub proof fn back_is_trimmed(m: Seq<char>, b: Seq<char>, drop: spec_fn(char) -> bool)
    requires
        forall|i: int| 0 <= i < b.len() ==> drop(#[trigger] b[i]),
        m.len() > 0 ==> !drop(m.last()),
    ensures
        trim_back(m + b, drop) == m,
    decreases b.len(),
{
    let s = m + b;
    if b.len() == 0 {
        assert(s =~= m);
    } else {
        let rest = b.drop_last();
        assert forall|i: int| 0 <= i < rest.len() implies drop(#[trigger] rest[i]) by {
            assert(rest[i] == b[i]);
        }
        back_is_trimmed(m, rest, drop);
        assert(s.last() == b[b.len() - 1]);
        assert(s.drop_last() =~= m + rest);
    }
}

/// Every text is a run of unwanted characters and what trimming its front
/// leaves.
pub proof fn front_comes_apart(s: Seq<char>, drop: spec_fn(char) -> bool) -> (a: Seq<char>)
    ensures
        s == a + trim_front(s, drop),
        forall|i: int| 0 <= i < a.len() ==> drop(#[trigger] a[i]),
        trim_front(s, drop).len() > 0 ==> !drop(trim_front(s, drop)[0]),
    decreases s.len(),
{
    if s.len() > 0 && drop(s[0]) {
        let rest = front_comes_apart(s.drop_first(), drop);
        let a = seq![s[0]] + rest;
        let t = trim_front(s.drop_first(), drop);
        assert(s =~= seq![s[0]] + (rest + t));
        assert(s =~= a + t);
        assert forall|i: int| 0 <= i < a.len() implies drop(#[trigger] a[i]) by {
            if i > 0 {
                assert(a[i] == rest[i - 1]);
            }
        }
        a
    } else {
        assert(s =~= Seq::<char>::empty() + s);
        Seq::empty()
    }
}

/// Every text is what trimming its back leaves and a run of unwanted
/// characters.
pub proof fn back_comes_apart(s: Seq<char>, drop: spec_fn(char) -> bool) -> (b: Seq<char>)
    ensures
        s == trim_back(s, drop) + b,
        forall|i: int| 0 <= i < b.len() ==> drop(#[trigger] b[i]),
        trim_back(s, drop).len() > 0 ==> !drop(trim_back(s, drop).last()),
        trim_back(s, drop).len() > 0 ==> trim_back(s, drop)[0] == s[0],
    decreases s.len(),
{
    if s.len() > 0 && drop(s.last()) {
        let rest = back_comes_apart(s.drop_last(), drop);
        let b = rest.push(s.last());
        let t = trim_back(s.drop_last(), drop);
        assert(s =~= (t + rest).push(s.last()));
        assert(s =~= t + b);
        b
    } else {
        assert(s =~= s + Seq::<char>::empty());
        Seq::empty()
    }
}

/// White space around a text is dropped, and nothing of the text.
pub proof fn space_is_trimmed(a: Seq<char>, m: Seq<char>, b: Seq<char>)
    requires
        forall|i: int| 0 <= i < a.len() ==> is_space(#[trigger] a[i]),
        forall|i: int| 0 <= i < b.len() ==> is_space(#[trigger] b[i]),
        m.len() > 0 ==> !is_space(m[0]) && !is_space(m.last()),
    ensures
        trimmed(a + m + b) == m,
{
    let drop = |x: char| is_space(x);
    if m.len() > 0 {
        assert(a + m + b =~= a + (m + b));
        front_is_trimmed(a, m + b, drop);
        back_is_trimmed(m, b, drop);
    } else {
        let all = a + m + b;
        assert(m =~= Seq::<char>::empty());
        assert(all =~= all + m);
        front_is_trimmed(all, m, drop);
    }
}

} // verus!
