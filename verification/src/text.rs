//! Character-level string helpers the rest of the crate is built on.

use vstd::prelude::*;

verus! {

broadcast use vstd::string::group_string_axioms;

/// `String::push` appends one character.
pub assume_specification[ String::push ](s: &mut String, ch: char)
    ensures
        final(s)@ == old(s)@.push(ch),
;

/// The characters of `s`, in order.
pub fn chars_of(s: &str) -> (out: Vec<char>)
    ensures
        out@ == s@,
{
    let mut out: Vec<char> = Vec::new();
    for c in it: s.chars()
        invariant
            out@ == it.seq().take(it.index() as int),
    {
        out.push(c);
    }
    out
}

} // verus!

verus! {

/// Unicode `White_Space`, the set `char::is_whitespace` tests for.
pub open spec fn is_ws(c: char) -> bool {
    let u = c as u32;
    ||| 0x09 <= u <= 0x0D
    ||| u == 0x20
    ||| u == 0x85
    ||| u == 0xA0
    ||| u == 0x1680
    ||| 0x2000 <= u <= 0x200A
    ||| u == 0x2028
    ||| u == 0x2029
    ||| u == 0x202F
    ||| u == 0x205F
    ||| u == 0x3000
}

pub open spec fn trim_start(s: Seq<char>) -> Seq<char>
    decreases s.len(),
{
    if s.len() > 0 && is_ws(s[0]) {
        trim_start(s.drop_first())
    } else {
        s
    }
}

pub open spec fn trim_end(s: Seq<char>) -> Seq<char>
    decreases s.len(),
{
    if s.len() > 0 && is_ws(s.last()) {
        trim_end(s.drop_last())
    } else {
        s
    }
}

/// `str::trim`: leading and trailing white space removed.
pub open spec fn spec_trim(s: Seq<char>) -> Seq<char> {
    trim_end(trim_start(s))
}

/// Whether `c` is white space, as `char::is_whitespace` has it.
fn is_white(c: char) -> (r: bool)
    ensures
        r == is_ws(c),
{
    let u = c as u32;
    (0x09 <= u && u <= 0x0D) || u == 0x20 || u == 0x85 || u == 0xA0 || u == 0x1680 || (0x2000 <= u && u
        <= 0x200A) || u == 0x2028 || u == 0x2029 || u == 0x202F || u == 0x205F || u == 0x3000
}

/// `str::trim`: the slice of `s` without its leading and trailing Unicode
/// white space.
pub(crate) fn trim(s: &str) -> (r: &str)
    ensures
        r@ == spec_trim(s@),
{
    let cs = chars_of(s);
    let ghost v = s@;
    let n = cs.len();
    let mut a: usize = 0;
    assert(v.subrange(0, n as int) =~= v);
    while a < n && is_white(cs[a])
        invariant
            a <= n,
            n == cs.len(),
            cs@ == v,
            trim_start(v) == trim_start(v.subrange(a as int, n as int)),
        decreases n - a,
    {
        assert(v.subrange(a as int, n as int).drop_first() =~= v.subrange(a as int + 1, n as int));
        a = a + 1;
    }
    proof {
        if a == n {
            assert(v.subrange(a as int, n as int) =~= Seq::<char>::empty());
        }
    }
    let mut b: usize = n;
    while b > a && is_white(cs[b - 1])
        invariant
            a <= b <= n,
            n == cs.len(),
            cs@ == v,
            trim_start(v) == v.subrange(a as int, n as int),
            trim_end(v.subrange(a as int, n as int)) == trim_end(v.subrange(a as int, b as int)),
        decreases b - a,
    {
        assert(v.subrange(a as int, b as int).drop_last() =~= v.subrange(a as int, b as int - 1));
        b = b - 1;
    }
    proof {
        if b == a {
            assert(v.subrange(a as int, b as int) =~= Seq::<char>::empty());
        }
    }
    s.substring_char(a, b)
}

/// `str::strip_prefix`: the rest of `s` after `prefix`, if `s` starts with it.
pub(crate) fn strip_prefix<'a>(s: &'a str, prefix: &str) -> (r: Option<&'a str>)
    ensures
        match r {
            Some(rest) => prefix@.is_prefix_of(s@) && rest@ == s@.skip(prefix@.len() as int),
            None => !prefix@.is_prefix_of(s@),
        },
{
    let cs = chars_of(s);
    let ps = chars_of(prefix);
    if ps.len() > cs.len() {
        return None;
    }
    let mut i: usize = 0;
    while i < ps.len()
        invariant
            i <= ps.len() <= cs.len(),
            cs@ == s@,
            ps@ == prefix@,
            forall|j: int| 0 <= j < i ==> ps@[j] == cs@[j],
        decreases ps.len() - i,
    {
        if ps[i] != cs[i] {
            proof {
                assert(s@.subrange(0, prefix@.len() as int)[i as int] == cs@[i as int]);
            }
            return None;
        }
        i = i + 1;
    }
    proof {
        assert(prefix@ =~= s@.subrange(0, prefix@.len() as int));
    }
    let rest = s.substring_char(ps.len(), cs.len());
    proof {
        assert(rest@ =~= s@.skip(prefix@.len() as int));
    }
    Some(rest)
}

/// `a` followed by `b`, as a new string.
pub fn concat(a: &str, b: &str) -> (r: String)
    ensures
        r@ == a@ + b@,
{
    let mut r = a.to_string();
    r.append(b);
    r
}

/// The string made of these characters.
pub fn string_of(cs: &[char]) -> (r: String)
    ensures
        r@ == cs@,
{
    let mut r = String::new();
    let mut i: usize = 0;
    while i < cs.len()
        invariant
            i <= cs.len(),
            r@ == cs@.take(i as int),
        decreases cs.len() - i,
    {
        r.push(cs[i]);
        assert(cs@.take(i + 1) =~= cs@.take(i as int).push(cs@[i as int]));
        i = i + 1;
    }
    assert(cs@.take(cs.len() as int) =~= cs@);
    r
}

} // verus!

verus! {

/// The decimal digit for `d`.
pub open spec fn digit(d: nat) -> char {
    ((d % 10) + 48) as char
}

/// The decimal form of `n`, as `to_string` writes an unsigned integer.
pub open spec fn decimal(n: nat) -> Seq<char>
    decreases n,
{
    if n < 10 {
        seq![digit(n)]
    } else {
        decimal(n / 10).push(digit(n % 10))
    }
}

pub proof fn lemma_decimal_len(n: nat)
    ensures
        decimal(n).len() >= 1,
        n < 10 ==> decimal(n).len() == 1,
        n >= 10 ==> decimal(n).len() == decimal(n / 10).len() + 1,
    decreases n,
{
    if n >= 10 {
        lemma_decimal_len(n / 10);
    }
}

/// `n.to_string()` for an unsigned integer.
pub fn u64_to_decimal(n: u64) -> (r: String)
    ensures
        r@ == decimal(n as nat),
{
    let mut digits: Vec<char> = Vec::new();
    let mut m: u64 = n;
    // digits holds the low digits in reverse order
    while m >= 10
        invariant
            decimal(n as nat) == decimal(m as nat) + digits@.reverse(),
        decreases m,
    {
        let d = (m % 10) as u32;
        let c = char_of_digit(d);
        assert(decimal(m as nat) == decimal((m / 10) as nat).push(digit((m % 10) as nat)));
        assert(digits@.push(c).reverse() =~= seq![c] + digits@.reverse());
        digits.push(c);
        m = m / 10;
    }
    let c = char_of_digit(m as u32);
    digits.push(c);
    assert(decimal(m as nat) =~= seq![c]);
    let mut r = String::new();
    let mut i: usize = digits.len();
    while i > 0
        invariant
            i <= digits.len(),
            r@ == digits@.skip(i as int).reverse(),
        decreases i,
    {
        i = i - 1;
        r.push(digits[i]);
        assert(digits@.skip(i as int).reverse() =~= digits@.skip(i + 1).reverse().push(digits@[i as int]));
    }
    assert(digits@.skip(0) =~= digits@);
    assert(digits@.reverse() =~= decimal(n as nat)) by {
        assert(seq![c].reverse() =~= seq![c]);
        assert(digits@ =~= digits@.drop_last().push(c));
    }
    r
}

fn char_of_digit(d: u32) -> (c: char)
    requires
        d < 10,
    ensures
        c == digit(d as nat),
{
    if d == 0 { '0' }
    else if d == 1 { '1' }
    else if d == 2 { '2' }
    else if d == 3 { '3' }
    else if d == 4 { '4' }
    else if d == 5 { '5' }
    else if d == 6 { '6' }
    else if d == 7 { '7' }
    else if d == 8 { '8' }
    else { '9' }
}

} // verus!
