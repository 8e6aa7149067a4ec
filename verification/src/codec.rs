//! Wire codec for device-select commands and device-list labels.
//!
//! A device id is a byte sequence; on the wire it travels as a list of
//! base-ten numbers. The outbound control message is the JSON text
//! `{"type":"select_device","device_id":{"type":"Buffer","data":[..]}}`;
//! in the UI a device is displayed as the label `[b0, b1, ..]`, and the
//! change-camera handler reads the id back out of that label.
use vstd::prelude::*;

use crate::num::dec_of_u8;
use crate::num::dec_val;
use crate::num::digits_len;
use crate::num::is_canonical_u8;
use crate::num::is_digit;
use crate::num::lemma_canonical_unique;
use crate::num::lemma_dec_of_u8_canonical;
use crate::num::lemma_digits_len_concat;
use crate::num::push_dec_u8;

verus! {

/// The separator between numbers: a bare comma in JSON, comma and
/// space in a rendered label.
pub open spec fn sep_of(space: bool) -> Seq<u8> {
    if space {
        seq![44u8, 32u8]
    } else {
        seq![44u8]
    }
}

/// The decimal renderings of the bytes of `id`, joined by `sep`.
pub open spec fn dec_list_sep(id: Seq<u8>, sep: Seq<u8>) -> Seq<u8>
    decreases id.len(),
{
    if id.len() == 0 {
        Seq::empty()
    } else if id.len() == 1 {
        dec_of_u8(id[0])
    } else {
        dec_of_u8(id[0]) + sep + dec_list_sep(id.drop_first(), sep)
    }
}

/// Unrolling a joined list at its back: the rendering of a non-empty
/// list is the rendering of its front, a separator when the front is
/// non-empty, and the rendering of the last byte.
pub proof fn lemma_dec_list_snoc(s: Seq<u8>, sep: Seq<u8>)
    requires
        s.len() > 0,
    ensures
        dec_list_sep(s, sep) == dec_list_sep(s.drop_last(), sep) + (if s.len() > 1 {
            sep
        } else {
            Seq::<u8>::empty()
        }) + dec_of_u8(s.last()),
    decreases s.len(),
{
    if s.len() == 1 {
        assert(s.drop_last() =~= Seq::<u8>::empty());
        assert(dec_list_sep(s.drop_last(), sep) + Seq::<u8>::empty() + dec_of_u8(s.last())
            =~= dec_of_u8(s[0]));
    } else {
        let t = s.drop_first();
        lemma_dec_list_snoc(t, sep);
        assert(t.last() == s.last());
        assert(t.drop_last() =~= s.drop_last().drop_first());
        if s.len() == 2 {
            assert(s.drop_last() =~= seq![s[0]]);
            assert(dec_list_sep(s.drop_last(), sep) == dec_of_u8(s[0]));
            assert(dec_list_sep(s, sep) =~= dec_of_u8(s[0]) + sep + dec_of_u8(s.last()));
        } else {
            assert(s.drop_last()[0] == s[0]);
            assert(s.drop_last().len() > 1);
            assert(dec_list_sep(s.drop_last(), sep) == dec_of_u8(s[0]) + sep + dec_list_sep(
                s.drop_last().drop_first(),
                sep,
            ));
            assert(dec_list_sep(s, sep) == dec_of_u8(s[0]) + sep + dec_list_sep(t, sep));
            assert(dec_of_u8(s[0]) + sep + (dec_list_sep(t.drop_last(), sep) + sep + dec_of_u8(
                t.last(),
            )) =~= (dec_of_u8(s[0]) + sep + dec_list_sep(t.drop_last(), sep)) + sep + dec_of_u8(
                s.last(),
            ));
        }
    }
}

/// Append the joined decimal renderings of the bytes of `id`.
fn push_dec_list(out: &mut Vec<u8>, id: &Vec<u8>, space: bool)
    ensures
        final(out)@ == old(out)@ + dec_list_sep(id@, sep_of(space)),
{
    let ghost sep = sep_of(space);
    let mut i: usize = 0;
    while i < id.len()
        invariant
            0 <= i <= id@.len(),
            out@ == old(out)@ + dec_list_sep(id@.subrange(0, i as int), sep),
            sep == sep_of(space),
        decreases id@.len() - i,
    {
        let ghost pre = out@;
        if i > 0 {
            out.push(44);
            if space {
                out.push(32);
            }
            assert(out@ =~= pre + sep);
        }
        push_dec_u8(out, id[i]);
        proof {
            let taken = id@.subrange(0, i + 1);
            lemma_dec_list_snoc(taken, sep);
            assert(taken.drop_last() =~= id@.subrange(0, i as int));
            assert(taken.last() == id@[i as int]);
            if i > 0 {
                assert(taken.len() > 1);
                assert(out@ =~= old(out)@ + dec_list_sep(taken, sep));
            } else {
                assert(id@.subrange(0, 0) =~= Seq::<u8>::empty());
                assert(dec_list_sep(Seq::<u8>::empty(), sep) == Seq::<u8>::empty());
                assert(out@ =~= old(out)@ + dec_list_sep(taken, sep));
            }
        }
        i = i + 1;
    }
    assert(id@.subrange(0, id@.len() as int) =~= id@);
}

/// The label a device id is displayed under: the bytes as base-ten
/// numbers, comma-and-space separated, in square brackets.
pub open spec fn label_of(id: Seq<u8>) -> Seq<u8> {
    seq![91u8] + dec_list_sep(id, sep_of(true)) + seq![93u8]
}

/// Render the display label for a device id.
pub fn render_device_label(id: &Vec<u8>) -> (r: Vec<u8>)
    ensures
        r@ == label_of(id@),
{
    let mut out: Vec<u8> = Vec::new();
    out.push(91);
    push_dec_list(&mut out, id, true);
    out.push(93);
    assert(out@ =~= label_of(id@));
    out
}

/// The opening of the device-select message, up to and including the
/// bracket that starts the id bytes:
/// `{"type":"select_device","device_id":{"type":"Buffer","data":[`.
pub open spec fn select_prefix() -> Seq<u8> {
    seq![
        123u8, 34u8, 116u8, 121u8, 112u8, 101u8, 34u8, 58u8, 34u8, 115u8, 101u8, 108u8, 101u8,
        99u8, 116u8, 95u8, 100u8, 101u8, 118u8, 105u8, 99u8, 101u8, 34u8, 44u8, 34u8, 100u8,
        101u8, 118u8, 105u8, 99u8, 101u8, 95u8, 105u8, 100u8, 34u8, 58u8, 123u8, 34u8, 116u8,
        121u8, 112u8, 101u8, 34u8, 58u8, 34u8, 66u8, 117u8, 102u8, 102u8, 101u8, 114u8, 34u8,
        44u8, 34u8, 100u8, 97u8, 116u8, 97u8, 34u8, 58u8, 91u8,
    ]
}

/// The closing of the device-select message: `]}}`.
pub open spec fn select_suffix() -> Seq<u8> {
    seq![93u8, 125u8, 125u8]
}

/// The select-prefix bytes as a vector.
fn select_prefix_bytes() -> (r: Vec<u8>)
    ensures
        r@ == select_prefix(),
{
    let r: Vec<u8> = vec![
        123u8, 34u8, 116u8, 121u8, 112u8, 101u8, 34u8, 58u8, 34u8, 115u8, 101u8, 108u8, 101u8,
        99u8, 116u8, 95u8, 100u8, 101u8, 118u8, 105u8, 99u8, 101u8, 34u8, 44u8, 34u8, 100u8,
        101u8, 118u8, 105u8, 99u8, 101u8, 95u8, 105u8, 100u8, 34u8, 58u8, 123u8, 34u8, 116u8,
        121u8, 112u8, 101u8, 34u8, 58u8, 34u8, 66u8, 117u8, 102u8, 102u8, 101u8, 114u8, 34u8,
        44u8, 34u8, 100u8, 97u8, 116u8, 97u8, 34u8, 58u8, 91u8,
    ];
    assert(r@ =~= select_prefix());
    r
}

/// The whole JSON text of a device-select command for the id `id`.
pub open spec fn json_of_select(id: Seq<u8>) -> Seq<u8> {
    select_prefix() + dec_list_sep(id, sep_of(false)) + select_suffix()
}

/// Encode a device-select command: exactly the JSON text the server's
/// control channel expects, with the id bytes in order.
pub fn encode_device_select(id: &Vec<u8>) -> (r: Vec<u8>)
    ensures
        r@ == json_of_select(id@),
{
    let mut out = select_prefix_bytes();
    push_dec_list(&mut out, id, false);
    out.push(93);
    out.push(125);
    out.push(125);
    assert(out@ =~= json_of_select(id@));
    out
}

/// The canonical number standing at the front of `m`, with its digit
/// count: the maximal digit prefix read as a byte, or nothing when that
/// prefix is empty, padded, or too large.
pub open spec fn num_at(m: Seq<u8>) -> Option<(u8, nat)> {
    let k = digits_len(m);
    let ds = m.take(k as int);
    if is_canonical_u8(ds) {
        Some((dec_val(ds) as u8, k))
    } else {
        None
    }
}

/// Parse a separator-joined list of canonical numbers covering all of
/// `m`: the inverse direction of `dec_list_sep`.
pub open spec fn parse_dec_list(m: Seq<u8>, sep: Seq<u8>) -> Option<Seq<u8>>
    decreases m.len(),
{
    if m.len() == 0 {
        Some(Seq::empty())
    } else {
        match num_at(m) {
            None => None,
            Some((v, k)) => if k == m.len() {
                Some(seq![v])
            } else if m.len() > k + sep.len() && m.subrange(k as int, (k + sep.len()) as int) == sep {
                match parse_dec_list(m.skip((k + sep.len()) as int), sep) {
                    None => None,
                    Some(t) => Some(seq![v] + t),
                }
            } else {
                None
            },
        }
    }
}

/// Round trip of the number lists: parsing the joined rendering of any
/// id yields exactly that id, for any separator that does not begin
/// with a digit.
pub proof fn lemma_dec_list_round_trip(id: Seq<u8>, sep: Seq<u8>)
    requires
        sep.len() > 0,
        !is_digit(sep[0]),
    ensures
        parse_dec_list(dec_list_sep(id, sep), sep) == Some(id),
    decreases id.len(),
{
    let m = dec_list_sep(id, sep);
    if id.len() == 0 {
        assert(m =~= Seq::<u8>::empty());
        assert(parse_dec_list(m, sep) == Some(id));
    } else if id.len() == 1 {
        lemma_dec_of_u8_canonical(id[0]);
        assert(m == dec_of_u8(id[0]));
        lemma_digits_len_concat(m, Seq::<u8>::empty());
        assert(m + Seq::<u8>::empty() =~= m);
        assert(digits_len(m) == m.len());
        assert(m.take(m.len() as int) =~= m);
        assert(num_at(m) == Some((id[0], m.len() as nat)));
        assert(seq![id[0]] =~= id);
    } else {
        let d0 = dec_of_u8(id[0]);
        let rest = dec_list_sep(id.drop_first(), sep);
        assert(m == d0 + sep + rest);
        lemma_dec_of_u8_canonical(id[0]);
        assert((d0 + sep + rest) =~= d0 + (sep + rest));
        assert((sep + rest)[0] == sep[0]);
        lemma_digits_len_concat(d0, sep + rest);
        assert(digits_len(m) == d0.len());
        let k = digits_len(m);
        assert(m.take(k as int) =~= d0);
        assert(num_at(m) == Some((id[0], k)));
        assert(rest.len() > 0) by {
            if id.drop_first().len() == 1 {
                assert(rest == dec_of_u8(id.drop_first()[0]));
                lemma_dec_of_u8_canonical(id.drop_first()[0]);
            } else {
                lemma_dec_of_u8_canonical(id.drop_first()[0]);
            }
        }
        assert(m.len() > k + sep.len());
        assert(m.subrange(k as int, (k + sep.len()) as int) =~= sep);
        assert(m.skip((k + sep.len()) as int) =~= rest);
        lemma_dec_list_round_trip(id.drop_first(), sep);
        assert(parse_dec_list(rest, sep) == Some(id.drop_first()));
        assert(seq![id[0]] + id.drop_first() =~= id);
    }
}

/// Read the canonical number at `s[from..end]`; the contract is exactly
/// the mathematical `num_at` of that range.
fn parse_u8_at(s: &Vec<u8>, from: usize, end: usize) -> (r: Option<(u8, usize)>)
    requires
        from <= end <= s@.len(),
    ensures
        match r {
            Some((v, k)) => num_at(s@.subrange(from as int, end as int)) == Some((v, k as nat))
                && from + k <= end && k >= 1,
            None => num_at(s@.subrange(from as int, end as int)) is None,
        },
{
    let ghost m = s@.subrange(from as int, end as int);
    let k = scan_digits(s, from, end);
    let ghost ds = m.take(k as int);
    assert(forall|i: int| 0 <= i < ds.len() ==> is_digit(ds[i])) by {
        assert(forall|i: int| 0 <= i < k ==> is_digit(m[i]));
    }
    if k == 0 || k > 3 {
        assert(!is_canonical_u8(ds));
        return None;
    }
    if k >= 2 && s[from] == 48 {
        assert(ds[0] == 48);
        assert(!is_canonical_u8(ds));
        return None;
    }
    proof {
        assert(dec_val(Seq::<u8>::empty()) == 0);
    }
    if k == 1 {
        let v = s[from] - 48;
        proof {
            assert(ds =~= seq![m[0]]);
            assert(ds.drop_last() =~= Seq::<u8>::empty());
            assert(dec_val(ds) == v);
            assert(is_canonical_u8(ds));
        }
        Some((v, 1))
    } else if k == 2 {
        let v = (s[from] - 48) * 10 + (s[from + 1] - 48);
        proof {
            assert(ds =~= seq![m[0], m[1]]);
            assert(ds.drop_last() =~= seq![m[0]]);
            assert(ds.drop_last().drop_last() =~= Seq::<u8>::empty());
            assert(is_digit(m[0]) && m[0] != 48);
            assert(dec_val(ds.drop_last()) == (m[0] - 48));
            assert(dec_val(ds) == (m[0] - 48) * 10 + (m[1] - 48));
            assert(dec_val(ds) <= 255);
            assert(is_canonical_u8(ds));
        }
        Some((v, 2))
    } else {
        let h = s[from] - 48;
        let t = s[from + 1] - 48;
        let u = s[from + 2] - 48;
        proof {
            assert(ds =~= seq![m[0], m[1], m[2]]);
            assert(ds.drop_last() =~= seq![m[0], m[1]]);
            assert(ds.drop_last().drop_last() =~= seq![m[0]]);
            assert(ds.drop_last().drop_last().drop_last() =~= Seq::<u8>::empty());
            assert(dec_val(ds.drop_last().drop_last()) == (m[0] - 48));
            assert(dec_val(ds.drop_last()) == (m[0] - 48) * 10 + (m[1] - 48));
            assert(dec_val(ds) == ((m[0] - 48) * 10 + (m[1] - 48)) * 10 + (m[2] - 48));
        }
        let w: u32 = (h as u32) * 100 + (t as u32) * 10 + (u as u32);
        assert(w == dec_val(ds));
        if w > 255 {
            assert(!is_canonical_u8(ds));
            None
        } else {
            assert(is_canonical_u8(ds));
            Some((w as u8, 3))
        }
    }
}

/// Count the digits standing at `s[from..end]`.
fn scan_digits(s: &Vec<u8>, from: usize, end: usize) -> (k: usize)
    requires
        from <= end <= s@.len(),
    ensures
        k == digits_len(s@.subrange(from as int, end as int)),
        from + k <= end,
        forall|i: int| from <= i < from + k ==> is_digit(s@[i]),
{
    let ghost m = s@.subrange(from as int, end as int);
    let mut j = from;
    while j < end && 48 <= s[j] && s[j] <= 57
        invariant
            from <= j <= end <= s@.len(),
            digits_len(m) == (j - from) + digits_len(s@.subrange(j as int, end as int)),
            forall|i: int| from <= i < j ==> is_digit(s@[i]),
        decreases end - j,
    {
        proof {
            let cur = s@.subrange(j as int, end as int);
            assert(cur[0] == s@[j as int]);
            assert(cur.drop_first() =~= s@.subrange(j + 1, end as int));
        }
        j = j + 1;
    }
    proof {
        let cur = s@.subrange(j as int, end as int);
        if j < end {
            assert(cur[0] == s@[j as int]);
            assert(!is_digit(cur[0]));
        }
        assert(digits_len(cur) == 0);
    }
    j - from
}

/// Parse `s[from..end]` as a separator-joined list of canonical
/// numbers; the contract is exactly the mathematical `parse_dec_list`
/// of that range.
pub(crate) fn parse_dec_list_at(s: &Vec<u8>, from: usize, end: usize, space: bool) -> (r: Option<Vec<u8>>)
    requires
        from <= end <= s@.len(),
    ensures
        match r {
            Some(v) => parse_dec_list(s@.subrange(from as int, end as int), sep_of(space)) == Some(
                v@,
            ),
            None => parse_dec_list(s@.subrange(from as int, end as int), sep_of(space)) is None,
        },
{
    let ghost sep = sep_of(space);
    let sep_len: usize = if space {
        2
    } else {
        1
    };
    let mut out: Vec<u8> = Vec::new();
    let mut p = from;
    loop
        invariant
            from <= p <= end <= s@.len(),
            sep == sep_of(space),
            sep_len == sep.len(),
            parse_dec_list(s@.subrange(from as int, end as int), sep) == match parse_dec_list(
                s@.subrange(p as int, end as int),
                sep,
            ) {
                Some(t) => Some(out@ + t),
                None => None::<Seq<u8>>,
            },
        decreases end - p,
    {
        let ghost m = s@.subrange(p as int, end as int);
        if p == end {
            assert(m =~= Seq::<u8>::empty());
            assert(out@ + Seq::<u8>::empty() =~= out@);
            return Some(out);
        }
        assert(m.len() > 0);
        match parse_u8_at(s, p, end) {
            None => {
                return None;
            },
            Some((v, k)) => {
                if p + k == end {
                    let ghost old_out = out@;
                    out.push(v);
                    proof {
                        assert(parse_dec_list(m, sep) == Some(seq![v]));
                        assert(old_out + seq![v] =~= out@);
                    }
                    return Some(out);
                }
                // a separator, then at least one more number
                let rem = end - (p + k);
                let mut ok = rem > sep_len;
                if ok {
                    ok = {
                        let c = s[p + k];
                        c == 44
                    };
                    if ok && space {
                        let c2 = s[p + k + 1];
                        ok = c2 == 32;
                    }
                }
                proof {
                    let cond = m.len() > k + sep.len() && m.subrange(k as int, (k + sep.len()) as int)
                        == sep;
                    if ok {
                        assert(m.subrange(k as int, (k + sep.len()) as int) =~= sep);
                        assert(cond);
                    } else {
                        if p + k + sep_len < end {
                            assert(m.subrange(k as int, (k + sep.len()) as int) != sep) by {
                                if space {
                                    assert(m.subrange(k as int, k + 2)[0] == s@[p + k]);
                                    assert(m.subrange(k as int, k + 2)[1] == s@[p + k + 1]);
                                } else {
                                    assert(m.subrange(k as int, k + 1)[0] == s@[p + k]);
                                }
                            }
                        }
                        assert(!cond);
                        assert(parse_dec_list(m, sep) is None);
                    }
                }
                if !ok {
                    return None;
                }
                let ghost old_out = out@;
                out.push(v);
                proof {
                    assert(m.skip((k + sep.len()) as int) =~= s@.subrange(
                        p + k + sep_len,
                        end as int,
                    ));
                    assert(parse_dec_list(m, sep) == match parse_dec_list(
                        m.skip((k + sep.len()) as int),
                        sep,
                    ) {
                        Some(t) => Some(seq![v] + t),
                        None => None::<Seq<u8>>,
                    });
                    assert(forall|t: Seq<u8>|
                        old_out + (seq![v] + t) =~= (old_out + seq![v]) + t);
                    assert(out@ =~= old_out + seq![v]);
                }
                p = p + k + sep_len;
            },
        }
    }
}


/// Does `pat` stand at position `at` of `s`?
pub(crate) fn match_at(s: &Vec<u8>, at: usize, pat: &Vec<u8>) -> (r: bool)
    requires
        at + pat@.len() <= s@.len(),
    ensures
        r <==> s@.subrange(at as int, at + pat@.len()) == pat@,
{
    let n = s.len();
    let mut i: usize = 0;
    while i < pat.len()
        invariant
            0 <= i <= pat@.len(),
            at + pat@.len() <= s@.len(),
            n == s@.len(),
            forall|j: int| 0 <= j < i ==> s@[at + j] == pat@[j],
        decreases pat@.len() - i,
    {
        assert(at + i < n);
        if s[at + i] != pat[i] {
            assert(s@.subrange(at as int, at + pat@.len())[i as int] != pat@[i as int]);
            return false;
        }
        i = i + 1;
    }
    assert(s@.subrange(at as int, at + pat@.len()) =~= pat@);
    true
}

/// What a device-select message means: the id whose canonical encoding
/// the text is, if it is one.
pub open spec fn spec_parse_select(s: Seq<u8>) -> Option<Seq<u8>> {
    let p = select_prefix().len();
    let q = select_suffix().len();
    if s.len() >= p + q && s.take(p as int) == select_prefix() && s.skip((s.len() - q) as int)
        == select_suffix() {
        parse_dec_list(s.subrange(p as int, (s.len() - q) as int), sep_of(false))
    } else {
        None
    }
}

/// Decode a device-select message, as the server side of the control
/// channel does: the exact inverse of `encode_device_select` on its
/// range.
pub fn parse_device_select(s: &Vec<u8>) -> (r: Option<Vec<u8>>)
    ensures
        match r {
            Some(v) => spec_parse_select(s@) == Some(v@),
            None => spec_parse_select(s@) is None,
        },
{
    let pfx = select_prefix_bytes();
    let sfx: Vec<u8> = vec![93u8, 125u8, 125u8];
    assert(sfx@ =~= select_suffix());
    if s.len() < pfx.len() + sfx.len() {
        return None;
    }
    if !match_at(s, 0, &pfx) {
        assert(s@.take(select_prefix().len() as int) =~= s@.subrange(
            0,
            select_prefix().len() as int,
        ));
        return None;
    }
    if !match_at(s, s.len() - sfx.len(), &sfx) {
        assert(s@.skip((s@.len() - select_suffix().len()) as int) =~= s@.subrange(
            (s@.len() - select_suffix().len()) as int,
            s@.len() as int,
        ));
        return None;
    }
    proof {
        assert(s@.take(select_prefix().len() as int) =~= s@.subrange(
            0,
            select_prefix().len() as int,
        ));
        assert(s@.skip((s@.len() - select_suffix().len()) as int) =~= s@.subrange(
            (s@.len() - select_suffix().len()) as int,
            s@.len() as int,
        ));
    }
    parse_dec_list_at(s, pfx.len(), s.len() - sfx.len(), false)
}

/// Round trip of the device-select command: decoding the encoding of
/// any id yields exactly that id, byte for byte.
pub proof fn lemma_select_round_trip(id: Seq<u8>)
    ensures
        spec_parse_select(json_of_select(id)) == Some(id),
{
    let s = json_of_select(id);
    let p = select_prefix().len();
    let q = select_suffix().len();
    let mid = dec_list_sep(id, sep_of(false));
    assert(s.len() == p + mid.len() + q);
    assert(s.take(p as int) =~= select_prefix());
    assert(s.skip((s.len() - q) as int) =~= select_suffix());
    assert(s.subrange(p as int, (s.len() - q) as int) =~= mid);
    lemma_dec_list_round_trip(id, sep_of(false));
}

/// What a rendered device label means: the id it displays, if it is a
/// well-formed label.
pub open spec fn spec_parse_label(s: Seq<u8>) -> Option<Seq<u8>> {
    if s.len() >= 2 && s[0] == 91 && s[s.len() - 1] == 93 {
        parse_dec_list(s.subrange(1, (s.len() - 1) as int), sep_of(true))
    } else {
        None
    }
}

/// Read a device id back out of its display label, as the
/// change-camera handler does with the selected row's text: the exact
/// inverse of `render_device_label` on its range.
pub fn device_id_from_label(s: &Vec<u8>) -> (r: Option<Vec<u8>>)
    ensures
        match r {
            Some(v) => spec_parse_label(s@) == Some(v@),
            None => spec_parse_label(s@) is None,
        },
{
    if s.len() < 2 {
        return None;
    }
    if s[0] != 91 {
        return None;
    }
    if s[s.len() - 1] != 93 {
        return None;
    }
    parse_dec_list_at(s, 1, s.len() - 1, true)
}

/// Round trip of the display label: the label rendered for any id
/// reads back as exactly that id.
pub proof fn lemma_label_round_trip(id: Seq<u8>)
    ensures
        spec_parse_label(label_of(id)) == Some(id),
{
    let s = label_of(id);
    let mid = dec_list_sep(id, sep_of(true));
    assert(s.len() == mid.len() + 2);
    assert(s[0] == 91);
    assert(s[s.len() - 1] == 93);
    assert(s.subrange(1, (s.len() - 1) as int) =~= mid);
    lemma_dec_list_round_trip(id, sep_of(true));
}


/// Soundness of the number lists: whenever a text parses, it is
/// exactly the joined rendering of what it parses to — parsing and
/// rendering are mutually inverse on the texts the parser accepts.
pub proof fn lemma_parse_dec_list_sound(m: Seq<u8>, sep: Seq<u8>)
    requires
        parse_dec_list(m, sep) is Some,
    ensures
        m == dec_list_sep(parse_dec_list(m, sep).unwrap(), sep),
        parse_dec_list(m, sep).unwrap().len() == 0 <==> m.len() == 0,
    decreases m.len(),
{
    if m.len() == 0 {
        assert(dec_list_sep(Seq::<u8>::empty(), sep) =~= Seq::<u8>::empty());
    } else {
        let (v, k) = num_at(m).unwrap();
        let ds = m.take(k as int);
        assert(is_canonical_u8(ds));
        lemma_canonical_unique(ds);
        assert(ds == dec_of_u8(v));
        if k == m.len() {
            assert(parse_dec_list(m, sep) == Some(seq![v]));
            assert(ds =~= m);
            assert(dec_list_sep(seq![v], sep) == dec_of_u8(v));
        } else {
            let rest = m.skip((k + sep.len()) as int);
            lemma_parse_dec_list_sound(rest, sep);
            let t = parse_dec_list(rest, sep).unwrap();
            assert(parse_dec_list(m, sep) == Some(seq![v] + t));
            assert(rest == dec_list_sep(t, sep));
            assert(rest.len() > 0);
            assert(t.len() > 0);
            let id = seq![v] + t;
            assert(id.len() > 1);
            assert(id[0] == v);
            assert(id.drop_first() =~= t);
            assert(dec_list_sep(id, sep) == dec_of_u8(v) + sep + dec_list_sep(t, sep));
            assert(m =~= ds + m.subrange(k as int, (k + sep.len()) as int) + rest);
            assert(m.subrange(k as int, (k + sep.len()) as int) == sep);
            assert(m =~= dec_of_u8(v) + sep + dec_list_sep(t, sep));
        }
    }
}

/// Soundness of the device-select decoder: whenever a text parses, it
/// is exactly the encoding of the id it parses to — together with the
/// round trip, encoding and decoding are mutually inverse.
pub proof fn lemma_select_parse_sound(s: Seq<u8>)
    requires
        spec_parse_select(s) is Some,
    ensures
        s == json_of_select(spec_parse_select(s).unwrap()),
{
    let p = select_prefix().len();
    let q = select_suffix().len();
    let mid = s.subrange(p as int, (s.len() - q) as int);
    lemma_parse_dec_list_sound(mid, sep_of(false));
    let id = spec_parse_select(s).unwrap();
    assert(mid == dec_list_sep(id, sep_of(false)));
    assert(s =~= s.take(p as int) + mid + s.skip((s.len() - q) as int));
    assert(s =~= json_of_select(id));
}

/// Soundness of the label reader: whenever a label parses, it is
/// exactly the rendering of the id it parses to.
pub proof fn lemma_label_parse_sound(s: Seq<u8>)
    requires
        spec_parse_label(s) is Some,
    ensures
        s == label_of(spec_parse_label(s).unwrap()),
{
    let mid = s.subrange(1, (s.len() - 1) as int);
    lemma_parse_dec_list_sound(mid, sep_of(true));
    let id = spec_parse_label(s).unwrap();
    assert(mid == dec_list_sep(id, sep_of(true)));
    assert(s =~= seq![s[0]] + mid + seq![s[s.len() - 1]]);
    assert(s =~= label_of(id));
}

} // verus!
