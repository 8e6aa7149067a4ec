//! Decimal rendering and parsing of single bytes, the shared core of the
//! wire codec: device ids travel as lists of base-ten numbers, both in
//! the JSON control messages and in the rendered list labels.
use vstd::prelude::*;

verus! {

/// Is `b` the code of a decimal digit?
pub open spec fn is_digit(b: u8) -> bool {
    48 <= b <= 57
}

/// The code of the digit `d` (for `d < 10`).
pub open spec fn digit(d: u8) -> u8 {
    (48 + d) as u8
}

/// The numeric value of a digit code.
pub open spec fn digit_val(b: u8) -> u8 {
    (b - 48) as u8
}

/// The canonical decimal rendering of a byte: one to three digits,
/// no leading zero.
pub open spec fn dec_of_u8(n: u8) -> Seq<u8> {
    if n < 10 {
        seq![digit(n)]
    } else if n < 100 {
        seq![digit(n / 10), digit(n % 10)]
    } else {
        seq![digit(n / 100), digit((n / 10) % 10), digit(n % 10)]
    }
}

/// The value of a digit string, most significant digit first.
pub open spec fn dec_val(ds: Seq<u8>) -> nat
    decreases ds.len(),
{
    if ds.len() == 0 {
        0
    } else {
        dec_val(ds.drop_last()) * 10 + digit_val(ds.last()) as nat
    }
}

/// Is `ds` the canonical rendering of some byte: all digits, one to
/// three of them, no leading zero, value at most 255?
pub open spec fn is_canonical_u8(ds: Seq<u8>) -> bool {
    &&& forall|i: int| 0 <= i < ds.len() ==> is_digit(ds[i])
    &&& (ds.len() == 1 || (2 <= ds.len() <= 3 && ds[0] != 48))
    &&& dec_val(ds) <= 255
}

/// The length of the maximal digit prefix of `s`.
pub open spec fn digits_len(s: Seq<u8>) -> nat
    decreases s.len(),
{
    if s.len() == 0 || !is_digit(s[0]) {
        0
    } else {
        1 + digits_len(s.drop_first())
    }
}

/// The canonical rendering of a byte is canonical and reads back to
/// that byte.
pub proof fn lemma_dec_of_u8_canonical(n: u8)
    ensures
        is_canonical_u8(dec_of_u8(n)),
        dec_val(dec_of_u8(n)) == n,
        1 <= dec_of_u8(n).len() <= 3,
        forall|i: int| 0 <= i < dec_of_u8(n).len() ==> is_digit(dec_of_u8(n)[i]),
{
    let ds = dec_of_u8(n);
    assert(dec_val(Seq::<u8>::empty()) == 0);
    if n < 10 {
        assert(ds.drop_last() =~= Seq::<u8>::empty());
        assert(dec_val(ds) == n);
    } else if n < 100 {
        let d1 = ds.drop_last();
        assert(d1 =~= seq![digit(n / 10)]);
        assert(d1.drop_last() =~= Seq::<u8>::empty());
        assert(dec_val(d1) == n / 10);
        assert(dec_val(ds) == (n / 10) * 10 + n % 10);
        assert((n / 10) * 10 + n % 10 == n) by (nonlinear_arith);
    } else {
        let d2 = ds.drop_last();
        let d1 = d2.drop_last();
        assert(d1 =~= seq![digit(n / 100)]);
        assert(d2 =~= seq![digit(n / 100), digit((n / 10) % 10)]);
        assert(d1.drop_last() =~= Seq::<u8>::empty());
        assert(dec_val(d1) == n / 100);
        assert(dec_val(d2) == (n / 100) * 10 + (n / 10) % 10);
        assert((n / 100) * 10 + (n / 10) % 10 == n / 10) by (nonlinear_arith);
        assert(dec_val(ds) == (n / 10) * 10 + n % 10);
        assert((n / 10) * 10 + n % 10 == n) by (nonlinear_arith);
    }
}

/// A digit string followed by anything that does not start with a digit
/// has exactly that digit string as its maximal digit prefix.
pub proof fn lemma_digits_len_concat(a: Seq<u8>, b: Seq<u8>)
    requires
        forall|i: int| 0 <= i < a.len() ==> is_digit(a[i]),
        b.len() == 0 || !is_digit(b[0]),
    ensures
        digits_len(a + b) == a.len(),
    decreases a.len(),
{
    if a.len() == 0 {
        assert(a + b =~= b);
    } else {
        assert((a + b)[0] == a[0]);
        assert((a + b).drop_first() =~= a.drop_first() + b);
        lemma_digits_len_concat(a.drop_first(), b);
    }
}

/// Append the canonical decimal rendering of `n`.
pub fn push_dec_u8(out: &mut Vec<u8>, n: u8)
    ensures
        final(out)@ == old(out)@ + dec_of_u8(n),
{
    if n < 10 {
        out.push(48 + n);
    } else if n < 100 {
        out.push(48 + n / 10);
        out.push(48 + n % 10);
    } else {
        out.push(48 + n / 100);
        out.push(48 + (n / 10) % 10);
        out.push(48 + n % 10);
    }
    assert(out@ =~= old(out)@ + dec_of_u8(n));
}


/// A canonical digit string is the canonical rendering of its value:
/// for each byte there is exactly one canonical spelling.
pub proof fn lemma_canonical_unique(ds: Seq<u8>)
    requires
        is_canonical_u8(ds),
    ensures
        ds == dec_of_u8(dec_val(ds) as u8),
{
    assert(dec_val(Seq::<u8>::empty()) == 0);
    if ds.len() == 1 {
        let d = ds[0];
        assert(ds.drop_last() =~= Seq::<u8>::empty());
        assert(dec_val(ds) == d - 48);
        assert(dec_of_u8((d - 48) as u8) =~= ds);
    } else if ds.len() == 2 {
        let a = (ds[0] - 48) as u8;
        let b = (ds[1] - 48) as u8;
        assert(ds.drop_last() =~= seq![ds[0]]);
        assert(ds.drop_last().drop_last() =~= Seq::<u8>::empty());
        assert(dec_val(ds.drop_last()) == a);
        assert(dec_val(ds) == a * 10 + b);
        let v = (a * 10 + b) as u8;
        assert(1 <= a <= 9 && b <= 9);
        assert(10 <= v < 100) by (nonlinear_arith)
            requires 1 <= a <= 9 && b <= 9 && v == a * 10 + b,
        ;
        assert(v / 10 == a && v % 10 == b) by (nonlinear_arith)
            requires b < 10 && v == a * 10 + b,
        ;
        assert(dec_of_u8(v) =~= ds);
    } else {
        let a = (ds[0] - 48) as u8;
        let b = (ds[1] - 48) as u8;
        let c = (ds[2] - 48) as u8;
        assert(ds.len() == 3);
        assert(ds.drop_last() =~= seq![ds[0], ds[1]]);
        assert(ds.drop_last().drop_last() =~= seq![ds[0]]);
        assert(ds.drop_last().drop_last().drop_last() =~= Seq::<u8>::empty());
        assert(dec_val(ds.drop_last().drop_last()) == a);
        assert(dec_val(ds.drop_last()) == a * 10 + b);
        assert(dec_val(ds) == (a * 10 + b) * 10 + c);
        assert(dec_val(ds) <= 255);
        let v = ((a as int) * 100 + (b as int) * 10 + (c as int)) as u8;
        assert((a * 10 + b) * 10 + c == a * 100 + b * 10 + c) by (nonlinear_arith);
        assert(1 <= a <= 9 && b <= 9 && c <= 9);
        assert(v >= 100) by (nonlinear_arith)
            requires 1 <= a && v == a * 100 + b * 10 + c,
        ;
        assert(v / 100 == a && (v / 10) % 10 == b && v % 10 == c) by (nonlinear_arith)
            requires b < 10 && c < 10 && v == a * 100 + b * 10 + c && v <= 255,
        ;
        assert(dec_of_u8(v) =~= ds);
    }
}

} // verus!
