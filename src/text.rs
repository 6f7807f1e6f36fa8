//! Character-level helpers shared by the parsers and the exporter.

use vstd::prelude::*;

verus! {

/// `c` is an ASCII decimal digit.
pub open spec fn is_digit(c: char) -> bool {
    '0' <= c && c <= '9'
}

/// Every character of `s` is an ASCII decimal digit.
pub open spec fn all_digits(s: Seq<char>) -> bool {
    forall|i: int| 0 <= i < s.len() ==> is_digit(#[trigger] s[i])
}

/// The number written by the decimal digits `s` (most significant first).
pub open spec fn digits_value(s: Seq<char>) -> nat
    decreases s.len(),
{
    if s.len() == 0 {
        0
    } else {
        digits_value(s.drop_last()) * 10 + ((s.last() as int - '0' as int) as nat)
    }
}

/// The digit character for `d < 10`.
pub open spec fn digit_char(d: nat) -> char {
    ((d + '0' as nat) as u8) as char
}

/// The shortest decimal writing of `n`.
pub open spec fn nat_decimal(n: nat) -> Seq<char>
    decreases n,
{
    if n < 10 {
        seq![digit_char(n)]
    } else {
        nat_decimal(n / 10).push(digit_char(n % 10))
    }
}

/// The decimal writing of `n`, with a leading `-` when it is negative.
pub open spec fn int_decimal(n: int) -> Seq<char> {
    if n < 0 {
        seq!['-'] + nat_decimal((-n) as nat)
    } else {
        nat_decimal(n as nat)
    }
}

/// The integer that `int_decimal` wrote into `s`.
pub open spec fn decimal_value(s: Seq<char>) -> int {
    if s.len() > 0 && s[0] == '-' {
        -(digits_value(s.drop_first()) as int)
    } else {
        digits_value(s) as int
    }
}

/// `p` occurs in `t` starting at position `i`.
pub open spec fn occurs_at(t: Seq<char>, p: Seq<char>, i: int) -> bool {
    0 <= i && i + p.len() <= t.len() && t.subrange(i, i + p.len()) == p
}

/// `t` ends with `p`.
pub open spec fn ends_with(t: Seq<char>, p: Seq<char>) -> bool {
    occurs_at(t, p, t.len() - p.len())
}

/// `p` occurs somewhere in `t`.
pub open spec fn occurs_in(t: Seq<char>, p: Seq<char>) -> bool {
    exists|i: int| occurs_at(t, p, i)
}

/// A decimal writing is a non-empty run of digits that reads back as `n`.
proof fn lemma_nat_decimal_digits(n: nat)
    ensures
        all_digits(nat_decimal(n)),
        nat_decimal(n).len() > 0,
        digits_value(nat_decimal(n)) == n,
    decreases n,
{
    assert(digit_char(n % 10) as int == n % 10 + '0' as int);
    let s = nat_decimal(n);
    if n < 10 {
        assert(s.drop_last() =~= Seq::<char>::empty());
        assert(digits_value(s) == digits_value(s.drop_last()) * 10 + ((s.last() as int - '0' as int) as nat));
    } else {
        lemma_nat_decimal_digits(n / 10);
        assert(s.drop_last() == nat_decimal(n / 10));
        assert(s.last() == digit_char(n % 10));
        assert(digits_value(s) == digits_value(s.drop_last()) * 10 + ((s.last() as int - '0' as int) as nat));
        assert((n / 10) * 10 + n % 10 == n);
        assert forall|i: int| 0 <= i < s.len() implies is_digit(#[trigger] s[i]) by {
            if i < s.len() - 1 {
                assert(s[i] == nat_decimal(n / 10)[i]);
            }
        }
    }
}

/// Reading back a decimal writing gives the integer that was written.
pub proof fn lemma_decimal_round_trip(n: int)
    ensures
        decimal_value(int_decimal(n)) == n,
{
    if n < 0 {
        lemma_nat_decimal_digits((-n) as nat);
        let s = int_decimal(n);
        assert(s.drop_first() == nat_decimal((-n) as nat));
    } else {
        lemma_nat_decimal_digits(n as nat);
        assert(nat_decimal(n as nat)[0] != '-');
    }
}

/// Relies on `String::push`: the character is added at the end.
#[verifier::external_body]
fn push_char(s: &mut String, c: char)
    ensures
        final(s)@ == old(s)@.push(c),
{
    s.push(c);
}

/// The characters of a string slice, in order.
pub fn chars_of(s: &str) -> (r: Vec<char>)
    ensures
        r@ == s@,
{
    let mut r: Vec<char> = Vec::new();
    for c in it: s.chars()
        invariant
            r@ == it.seq().take(it.index() as int),
            it.seq() == s@,
    {
        r.push(c);
    }
    r
}

/// The string made of `cs[lo..hi]`.
pub fn string_of(cs: &Vec<char>, lo: usize, hi: usize) -> (r: String)
    requires
        lo <= hi <= cs.len(),
    ensures
        r@ == cs@.subrange(lo as int, hi as int),
{
    let mut r = String::new();
    let mut i: usize = lo;
    while i < hi
        invariant
            lo <= i <= hi <= cs.len(),
            r@ == cs@.subrange(lo as int, i as int),
        decreases hi - i,
    {
        push_char(&mut r, cs[i]);
        assert(cs@.subrange(lo as int, i + 1) == cs@.subrange(lo as int, i as int).push(cs[i as int]));
        i = i + 1;
    }
    r
}

/// Whether `a` and `b` hold the same characters.
pub fn same_text(a: &str, b: &str) -> (r: bool)
    ensures
        r == (a@ == b@),
{
    a.to_owned() == b.to_owned()
}

/// Whether `p` occurs in `t` starting at position `i`.
fn occurs_at_exec(t: &Vec<char>, p: &Vec<char>, i: usize) -> (r: bool)
    ensures
        r == occurs_at(t@, p@, i as int),
{
    if i > t.len() || p.len() > t.len() - i {
        return false;
    }
    let mut j: usize = 0;
    while j < p.len()
        invariant
            i + p.len() <= t.len(),
            j <= p.len(),
            forall|k: int| 0 <= k < j ==> t[i + k] == p[k],
        decreases p.len() - j,
    {
        if t[i + j] != p[j] {
            assert(t@.subrange(i as int, i + p.len())[j as int] != p@[j as int]);
            return false;
        }
        j = j + 1;
    }
    assert(t@.subrange(i as int, i + p.len()) =~= p@);
    true
}

/// Whether `p` occurs somewhere in `t`.
pub fn occurs_in_exec(t: &Vec<char>, p: &Vec<char>) -> (r: bool)
    ensures
        r == occurs_in(t@, p@),
{
    if p.len() == 0 {
        assert(t@.subrange(0, 0) =~= p@);
        assert(occurs_at(t@, p@, 0));
        return true;
    }
    if p.len() > t.len() {
        return false;
    }
    let last: usize = t.len() - p.len();
    let mut i: usize = 0;
    while i <= last
        invariant
            last == t.len() - p.len(),
            last < usize::MAX,
            i <= last + 1,
            forall|k: int| 0 <= k < i ==> !occurs_at(t@, p@, k),
        decreases last + 1 - i,
    {
        if occurs_at_exec(t, p, i) {
            return true;
        }
        i = i + 1;
    }
    assert forall|k: int| !occurs_at(t@, p@, k) by {
        if 0 <= k < i {
        }
    }
    false
}

/// Whether `t` ends with `p`, on string slices.
pub fn ends_with_text(t: &str, p: &str) -> (r: bool)
    ensures
        r == ends_with(t@, p@),
{
    let tc = chars_of(t);
    let pc = chars_of(p);
    if pc.len() > tc.len() {
        return false;
    }
    occurs_at_exec(&tc, &pc, tc.len() - pc.len())
}

/// Whether `p` occurs in `t`, on string slices.
pub fn contains_text(t: &str, p: &str) -> (r: bool)
    ensures
        r == occurs_in(t@, p@),
{
    occurs_in_exec(&chars_of(t), &chars_of(p))
}

/// The decimal writing of `n`.
pub fn u64_decimal(n: u64) -> (r: String)
    ensures
        r@ == nat_decimal(n as nat),
{
    let mut rev: Vec<char> = Vec::new();
    let mut m: u64 = n;
    while m >= 10
        invariant
            nat_decimal(n as nat) == nat_decimal(m as nat) + rev@.reverse(),
        decreases m,
    {
        let d = m % 10;
        let c = (d as u8 + 48u8) as char;
        assert(nat_decimal(m as nat) == nat_decimal((m / 10) as nat).push(c));
        assert(rev@.push(c).reverse() =~= seq![c] + rev@.reverse());
        assert(nat_decimal((m / 10) as nat).push(c) + rev@.reverse() =~= nat_decimal((m / 10) as nat) + rev@.push(c).reverse());
        rev.push(c);
        m = m / 10;
    }
    let c = (m as u8 + 48u8) as char;
    assert(nat_decimal(m as nat) == seq![c]);
    rev.push(c);
    assert(rev@.reverse() =~= seq![c] + rev@.drop_last().reverse());
    let mut r = String::new();
    let mut k: usize = rev.len();
    while k > 0
        invariant
            k <= rev.len(),
            r@ == rev@.reverse().take((rev.len() - k) as int),
        decreases k,
    {
        k = k - 1;
        push_char(&mut r, rev[k]);
        assert(rev@.reverse().take((rev.len() - k) as int) =~= rev@.reverse().take((rev.len() - k - 1) as int).push(rev[k as int]));
    }
    assert(rev@.reverse().take(rev.len() as int) =~= rev@.reverse());
    r
}

/// The decimal writing of `n`, with a leading `-` when it is negative.
pub fn i32_decimal(n: i32) -> (r: String)
    ensures
        r@ == int_decimal(n as int),
{
    if n < 0 {
        let m: u64 = (0 - (n as i64)) as u64;
        let mut r = String::new();
        push_char(&mut r, '-');
        let digits = u64_decimal(m);
        r.append(digits.as_str());
        r
    } else {
        u64_decimal(n as u64)
    }
}

/// The number written by the digits `cs[lo..hi]`.
pub fn digits_to_i32(cs: &Vec<char>, lo: usize, hi: usize) -> (r: i32)
    requires
        lo <= hi <= cs.len(),
        hi - lo <= 4,
        all_digits(cs@.subrange(lo as int, hi as int)),
    ensures
        r as int == digits_value(cs@.subrange(lo as int, hi as int)),
{
    let mut v: i32 = 0;
    let mut i: usize = lo;
    while i < hi
        invariant
            lo <= i <= hi <= cs.len(),
            hi - lo <= 4,
            all_digits(cs@.subrange(lo as int, hi as int)),
            v as int == digits_value(cs@.subrange(lo as int, i as int)),
            0 <= v < if i - lo == 0 { 1int } else if i - lo == 1 { 10int } else if i - lo == 2 { 100int } else if i - lo == 3 { 1000int } else { 10000int },
        decreases hi - i,
    {
        let c = cs[i];
        assert(cs@.subrange(lo as int, hi as int)[i - lo] == c);
        assert(cs@.subrange(lo as int, i + 1).drop_last() == cs@.subrange(lo as int, i as int));
        let d: i32 = (c as u32 - 48u32) as i32;
        v = v * 10 + d;
        i = i + 1;
    }
    v
}

} // verus!
