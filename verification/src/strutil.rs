use vstd::prelude::*;

verus! {

/// Character-for-character equality of two string slices, stated over views.
pub fn str_is(a: &str, b: &str) -> (r: bool)
    ensures
        r == (a@ == b@),
{
    let sa: String = a.to_owned();
    let sb: String = b.to_owned();
    sa == sb
}

/// Relies on std's `String::push_str`: appends the characters of `s` to `dst`.
#[verifier::external_body]
pub fn push_str(dst: &mut String, s: &str)
    ensures
        final(dst)@ == old(dst)@ + s@,
{
    dst.push_str(s);
}

/// Relies on std's `String::push`: appends the character `c` to `dst`.
#[verifier::external_body]
pub fn push_char(dst: &mut String, c: char)
    ensures
        final(dst)@ == old(dst)@.push(c),
{
    dst.push(c);
}

/// The character for a single decimal digit.
pub open spec fn digit_char(d: int) -> char {
    if d == 0 {
        '0'
    } else if d == 1 {
        '1'
    } else if d == 2 {
        '2'
    } else if d == 3 {
        '3'
    } else if d == 4 {
        '4'
    } else if d == 5 {
        '5'
    } else if d == 6 {
        '6'
    } else if d == 7 {
        '7'
    } else if d == 8 {
        '8'
    } else {
        '9'
    }
}

/// The usual decimal rendering of a non-negative integer, most significant
/// digit first, with no leading zeros (except for the number zero itself).
pub open spec fn dec_rep(n: int) -> Seq<char>
    decreases n,
{
    if n < 10 {
        seq![digit_char(n)]
    } else {
        dec_rep(n / 10).push(digit_char(n % 10))
    }
}

fn digit_to_char(d: u64) -> (r: char)
    requires
        d < 10,
    ensures
        r == digit_char(d as int),
{
    if d == 0 {
        '0'
    } else if d == 1 {
        '1'
    } else if d == 2 {
        '2'
    } else if d == 3 {
        '3'
    } else if d == 4 {
        '4'
    } else if d == 5 {
        '5'
    } else if d == 6 {
        '6'
    } else if d == 7 {
        '7'
    } else if d == 8 {
        '8'
    } else {
        '9'
    }
}

/// Renders `n` in decimal.
pub fn u64_to_dec(n: u64) -> (r: String)
    ensures
        r@ == dec_rep(n as int),
{
    let mut digits: Vec<char> = Vec::new();
    if n == 0 {
        digits.push('0');
        assert(digits@.reverse() =~= dec_rep(0));
    } else {
        let mut m: u64 = n;
        while m > 0
            invariant
                dec_rep(n as int) == (if m > 0 {
                    dec_rep(m as int)
                } else {
                    Seq::<char>::empty()
                }) + digits@.reverse(),
            decreases m,
        {
            let d: u64 = m % 10;
            let dc = digit_to_char(d);
            let ghost pre = digits@;
            digits.push(dc);
            assert(digits@.reverse() =~= seq![digit_char(d as int)] + pre.reverse());
            let m2: u64 = m / 10;
            if m2 == 0 {
                assert(m < 10);
                assert(dec_rep(m as int) == seq![digit_char(m as int)]);
                assert(dec_rep(n as int) =~= Seq::<char>::empty() + digits@.reverse());
            } else {
                assert(dec_rep(m as int) == dec_rep(m2 as int).push(digit_char(d as int)));
                assert(dec_rep(m2 as int) + digits@.reverse() =~= dec_rep(m as int)
                    + pre.reverse());
                assert(dec_rep(n as int) =~= dec_rep(m2 as int) + digits@.reverse());
            }
            m = m2;
        }
    }
    let mut r = String::new();
    let mut i: usize = digits.len();
    assert(r@ =~= digits@.subrange(i as int, digits@.len() as int).reverse());
    while i > 0
        invariant
            i <= digits@.len(),
            r@ == digits@.subrange(i as int, digits@.len() as int).reverse(),
            digits@.reverse() == dec_rep(n as int),
        decreases i,
    {
        i = i - 1;
        push_char(&mut r, digits[i]);
        assert(r@ =~= digits@.subrange(i as int, digits@.len() as int).reverse());
    }
    assert(digits@.subrange(0, digits@.len() as int) =~= digits@);
    r
}

} // verus!
