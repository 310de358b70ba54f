use vstd::prelude::*;

verus! {

/// Appends one character with `String::push`; the string's characters gain `c` at the end.
#[verifier::external_body]
pub(crate) fn push_char(s: &mut String, c: char)
    ensures
        final(s)@ == old(s)@.push(c),
{
    s.push(c);
}

/// The characters of a string slice, in order.
pub fn chars_of(s: &str) -> (v: Vec<char>)
    ensures
        v@ == s@,
{
    let mut v: Vec<char> = Vec::new();
    for c in it: s.chars()
        invariant
            v@ == it.seq().take(it.index() as int),
    {
        v.push(c);
        assert(v@ =~= it.seq().take(it.index() + 1));
    }
    v
}

/// Appends characters in order.
pub(crate) fn push_all(s: &mut String, cs: &Vec<char>)
    ensures
        final(s)@ == old(s)@ + cs@,
{
    let ghost start = s@;
    let mut k: usize = 0;
    while k < cs.len()
        invariant
            k <= cs.len(),
            s@ == start + cs@.take(k as int),
        decreases cs.len() - k,
    {
        push_char(s, cs[k]);
        k = k + 1;
        assert(s@ =~= start + cs@.take(k as int));
    }
    assert(cs@.take(k as int) =~= cs@);
}

/// Whether two strings hold the same characters.
pub(crate) fn same_text(a: &str, b: &str) -> (r: bool)
    ensures
        r == (a@ == b@),
{
    let x = chars_of(a);
    let y = chars_of(b);
    if x.len() != y.len() {
        return false;
    }
    let mut k: usize = 0;
    while k < x.len()
        invariant
            k <= x.len(),
            x.len() == y.len(),
            x@ == a@,
            y@ == b@,
            forall|j: int| 0 <= j < k ==> x@[j] == y@[j],
        decreases x.len() - k,
    {
        if x[k] != y[k] {
            assert(x@[k as int] != y@[k as int]);
            return false;
        }
        k = k + 1;
    }
    assert(x@ =~= y@);
    true
}

/// Decimal digits of a number.
pub open spec fn decimal_text(n: nat) -> Seq<char>
    decreases n,
{
    if n < 10 {
        seq![(48 + n) as char]
    } else {
        decimal_text(n / 10).push((48 + n % 10) as char)
    }
}

pub(crate) fn digit_char(d: u8) -> (c: char)
    requires
        d < 10,
    ensures
        c == (48 + d) as char,
{
    (48 + d) as char
}

/// Appends the decimal digits of `n`.
pub(crate) fn push_decimal(s: &mut String, n: u8)
    ensures
        final(s)@ == old(s)@ + decimal_text(n as nat),
{
    if n >= 100 {
        push_char(s, digit_char(n / 100));
    }
    if n >= 10 {
        push_char(s, digit_char((n / 10) % 10));
    }
    push_char(s, digit_char(n % 10));
    proof {
        let m = n as nat;
        if m >= 100 {
            assert(decimal_text(m / 100) == seq![(48 + m / 100) as char]);
            assert(decimal_text(m / 10) == decimal_text(m / 100).push((48 + (m / 10) % 10) as char));
        } else if m >= 10 {
            assert(decimal_text(m / 10) == seq![(48 + m / 10) as char]);
        }
    }
    assert(final(s)@ =~= old(s)@ + decimal_text(n as nat));
}

/// Decimal digits of a number, as characters.
pub(crate) fn decimal_chars(n: u64) -> (t: Vec<char>)
    ensures
        t@ == decimal_text(n as nat),
{
    let mut digits: Vec<char> = Vec::new();
    let mut m: u64 = n;
    digits.insert(0, digit_char((m % 10) as u8));
    m = m / 10;
    while m > 0
        invariant
            m == 0 ==> decimal_text(n as nat) == digits@,
            m > 0 ==> decimal_text(n as nat) == decimal_text(m as nat) + digits@,
        decreases m,
    {
        let d = digit_char((m % 10) as u8);
        proof {
            let ghost old_digits = digits@;
            if m >= 10 {
                assert(decimal_text(m as nat) == decimal_text((m / 10) as nat).push(d));
                assert(decimal_text((m / 10) as nat).push(d) + old_digits
                    =~= decimal_text((m / 10) as nat) + old_digits.insert(0, d));
            } else {
                assert(decimal_text(m as nat) == seq![d]);
                assert(seq![d] + old_digits =~= old_digits.insert(0, d));
            }
        }
        digits.insert(0, d);
        m = m / 10;
    }
    digits
}

} // verus!
