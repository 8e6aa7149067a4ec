//! The inbound device-list control message.
//!
//! The server announces the cameras as the JSON text
//! `{"type":"devices","devices":[{"id":{"type":"Buffer","data":[..]},"createdAt":".."},..]}`.
//! A parseable message replaces the device list wholesale; an
//! unparseable one is dropped. The parser reads the canonical shape the
//! server emits: fields in this order, no added whitespace, and no
//! escape sequences inside the timestamp string.
use vstd::prelude::*;

use crate::codec::dec_list_sep;
use crate::codec::match_at;
use crate::codec::parse_dec_list_at;
use crate::codec::lemma_dec_list_round_trip;
use crate::codec::lemma_parse_dec_list_sound;
use crate::codec::parse_dec_list;
use crate::codec::sep_of;
use crate::num::dec_of_u8;
use crate::num::is_digit;
use crate::num::lemma_dec_of_u8_canonical;
use crate::data::DeviceDescriptor;

verus! {

/// The opening of the whole message: `{"type":"devices","devices":[`.
pub open spec fn list_prefix() -> Seq<u8> {
    seq![
        123u8, 34u8, 116u8, 121u8, 112u8, 101u8, 34u8, 58u8, 34u8, 100u8, 101u8, 118u8, 105u8,
        99u8, 101u8, 115u8, 34u8, 44u8, 34u8, 100u8, 101u8, 118u8, 105u8, 99u8, 101u8, 115u8,
        34u8, 58u8, 91u8,
    ]
}

/// The opening of one device entry: `{"id":{"type":"Buffer","data":[`.
pub open spec fn dev_prefix() -> Seq<u8> {
    seq![
        123u8, 34u8, 105u8, 100u8, 34u8, 58u8, 123u8, 34u8, 116u8, 121u8, 112u8, 101u8, 34u8,
        58u8, 34u8, 66u8, 117u8, 102u8, 102u8, 101u8, 114u8, 34u8, 44u8, 34u8, 100u8, 97u8,
        116u8, 97u8, 34u8, 58u8, 91u8,
    ]
}

/// Between the id bytes and the timestamp, closing the id object:
/// `]},"createdAt":"`.
pub open spec fn dev_mid() -> Seq<u8> {
    seq![93u8, 125u8, 44u8, 34u8, 99u8, 114u8, 101u8, 97u8, 116u8, 101u8, 100u8, 65u8, 116u8,
        34u8, 58u8, 34u8]
}

/// The JSON text of one device entry.
pub open spec fn json_of_device(d: (Seq<u8>, Seq<u8>)) -> Seq<u8> {
    dev_prefix() + dec_list_sep(d.0, sep_of(false)) + dev_mid() + d.1 + seq![34u8, 125u8]
}

/// The comma-joined JSON texts of the device entries.
pub open spec fn json_of_devices(l: Seq<(Seq<u8>, Seq<u8>)>) -> Seq<u8>
    decreases l.len(),
{
    if l.len() == 0 {
        Seq::empty()
    } else if l.len() == 1 {
        json_of_device(l[0])
    } else {
        json_of_device(l[0]) + seq![44u8] + json_of_devices(l.drop_first())
    }
}

/// The whole JSON text of a device-list message.
pub open spec fn json_of_device_list(l: Seq<(Seq<u8>, Seq<u8>)>) -> Seq<u8> {
    list_prefix() + json_of_devices(l) + seq![93u8, 125u8]
}

/// The index of the first occurrence of `b` in `m`, if any.
pub open spec fn find_byte(m: Seq<u8>, b: u8) -> Option<nat>
    decreases m.len(),
{
    if m.len() == 0 {
        None
    } else if m[0] == b {
        Some(0)
    } else {
        match find_byte(m.drop_first(), b) {
            None => None,
            Some(j) => Some(j + 1),
        }
    }
}

/// Searching a text that opens with `b`-free bytes and then shows `b`
/// finds exactly the end of those bytes.
pub proof fn lemma_find_byte_concat(a: Seq<u8>, c: Seq<u8>, b: u8)
    requires
        forall|i: int| 0 <= i < a.len() ==> a[i] != b,
        c.len() > 0,
        c[0] == b,
    ensures
        find_byte(a + c, b) == Some(a.len() as nat),
    decreases a.len(),
{
    if a.len() == 0 {
        assert(a + c =~= c);
    } else {
        assert((a + c)[0] == a[0]);
        assert((a + c).drop_first() =~= a.drop_first() + c);
        lemma_find_byte_concat(a.drop_first(), c, b);
    }
}

/// A joined decimal rendering holds only digits and separator bytes.
pub proof fn lemma_dec_list_no_byte(id: Seq<u8>, sep: Seq<u8>, b: u8)
    requires
        !is_digit(b),
        forall|j: int| 0 <= j < sep.len() ==> sep[j] != b,
    ensures
        forall|i: int| 0 <= i < dec_list_sep(id, sep).len() ==> dec_list_sep(id, sep)[i] != b,
    decreases id.len(),
{
    if id.len() == 0 {
    } else if id.len() == 1 {
        lemma_dec_of_u8_canonical(id[0]);
    } else {
        lemma_dec_of_u8_canonical(id[0]);
        lemma_dec_list_no_byte(id.drop_first(), sep, b);
        let d0 = dec_of_u8(id[0]);
        let rest = dec_list_sep(id.drop_first(), sep);
        assert forall|i: int| 0 <= i < dec_list_sep(id, sep).len() implies dec_list_sep(id, sep)[i]
            != b by {
            let m = dec_list_sep(id, sep);
            assert(m == d0 + sep + rest);
            if i < d0.len() {
                assert(m[i] == d0[i]);
            } else if i < d0.len() + sep.len() {
                assert(m[i] == sep[i - d0.len()]);
            } else {
                assert(m[i] == rest[i - d0.len() - sep.len()]);
            }
        }
    }
}

/// One device entry standing at the front of `m`: its id bytes and
/// timestamp bytes, with how much of `m` the entry covers.
pub open spec fn parse_device(m: Seq<u8>) -> Option<((Seq<u8>, Seq<u8>), nat)> {
    let pp = dev_prefix().len();
    if m.len() >= pp && m.take(pp as int) == dev_prefix() {
        match find_byte(m.skip(pp as int), 93) {
            None => None,
            Some(j) => {
                let nums = m.subrange(pp as int, (pp + j) as int);
                match parse_dec_list(nums, sep_of(false)) {
                    None => None,
                    Some(idb) => {
                        let p1 = pp + j;
                        if m.len() >= p1 + dev_mid().len() && m.subrange(
                            p1 as int,
                            (p1 + dev_mid().len()) as int,
                        ) == dev_mid() {
                            let p2 = p1 + dev_mid().len();
                            match find_byte(m.skip(p2 as int), 34) {
                                None => None,
                                Some(t) => {
                                    let created = m.subrange(p2 as int, (p2 + t) as int);
                                    let p3 = p2 + t;
                                    if m.len() >= p3 + 2 && m[(p3 + 1) as int] == 125 {
                                        Some(((idb, created), (p3 + 2) as nat))
                                    } else {
                                        None
                                    }
                                },
                            }
                        } else {
                            None
                        }
                    },
                }
            },
        }
    } else {
        None
    }
}

/// The comma-joined device entries covering all of `m`.
pub open spec fn parse_devices(m: Seq<u8>) -> Option<Seq<(Seq<u8>, Seq<u8>)>>
    decreases m.len(),
{
    if m.len() == 0 {
        Some(Seq::empty())
    } else {
        match parse_device(m) {
            None => None,
            Some((d, c)) => if c == m.len() {
                Some(seq![d])
            } else if c < m.len() && m[c as int] == 44 && c + 1 < m.len() {
                match parse_devices(m.skip((c + 1) as int)) {
                    None => None,
                    Some(t) => Some(seq![d] + t),
                }
            } else {
                None
            },
        }
    }
}

/// What a device-list message means: the announced devices, if the
/// text is a well-formed message.
pub open spec fn spec_parse_device_list(s: Seq<u8>) -> Option<Seq<(Seq<u8>, Seq<u8>)>> {
    let lp = list_prefix().len();
    if s.len() >= lp + 2 && s.take(lp as int) == list_prefix() && s.skip((s.len() - 2) as int)
        == seq![93u8, 125u8] {
        parse_devices(s.subrange(lp as int, (s.len() - 2) as int))
    } else {
        None
    }
}


/// A byte string free of the quote byte, so it can stand inside a
/// JSON string without escaping.
pub open spec fn quote_free(s: Seq<u8>) -> bool {
    forall|i: int| 0 <= i < s.len() ==> s[i] != 34
}

/// Every timestamp in the list is quote-free.
pub open spec fn quote_free_list(l: Seq<(Seq<u8>, Seq<u8>)>) -> bool {
    forall|k: int| 0 <= k < l.len() ==> quote_free(#[trigger] l[k].1)
}

/// One device entry parses back from its rendering, whatever follows
/// it, provided its timestamp holds no quote byte.
pub proof fn lemma_device_round_trip(d: (Seq<u8>, Seq<u8>), tail: Seq<u8>)
    requires
        quote_free(d.1),
    ensures
        parse_device(json_of_device(d) + tail) == Some((d, json_of_device(d).len() as nat)),
{
    let dev = json_of_device(d);
    let m = dev + tail;
    let pp = dev_prefix().len();
    let nums = dec_list_sep(d.0, sep_of(false));
    let after_nums = dev_mid() + d.1 + seq![34u8, 125u8] + tail;
    assert(m.take(pp as int) =~= dev_prefix());
    assert(m.len() >= pp);
    assert(m.skip(pp as int) =~= nums + after_nums);
    lemma_dec_list_no_byte(d.0, sep_of(false), 93);
    assert(after_nums[0] == 93);
    lemma_find_byte_concat(nums, after_nums, 93);
    assert(find_byte(m.skip(pp as int), 93) == Some(nums.len() as nat));
    let j = nums.len() as nat;
    assert(m.subrange(pp as int, (pp + j) as int) =~= nums);
    lemma_dec_list_round_trip(d.0, sep_of(false));
    assert(parse_dec_list(nums, sep_of(false)) == Some(d.0));
    let p1 = pp + j;
    assert(m.len() >= p1 + dev_mid().len());
    assert(m.subrange(p1 as int, (p1 + dev_mid().len()) as int) =~= dev_mid());
    let p2 = p1 + dev_mid().len();
    let after_created = seq![34u8, 125u8] + tail;
    assert(m.skip(p2 as int) =~= d.1 + after_created);
    assert(after_created[0] == 34);
    lemma_find_byte_concat(d.1, after_created, 34);
    let t = d.1.len() as nat;
    assert(find_byte(m.skip(p2 as int), 34) == Some(t));
    assert(m.subrange(p2 as int, (p2 + t) as int) =~= d.1);
    let p3 = p2 + t;
    assert(m.len() >= p3 + 2);
    assert(m[(p3 + 1) as int] == 125);
    assert(dev.len() == p3 + 2);
}

/// A joined list of device entries parses back to exactly those
/// entries, provided no timestamp holds a quote byte.
#[verifier::rlimit(100)]
pub proof fn lemma_devices_round_trip(l: Seq<(Seq<u8>, Seq<u8>)>)
    requires
        quote_free_list(l),
    ensures
        parse_devices(json_of_devices(l)) == Some(l),
    decreases l.len(),
{
    let m = json_of_devices(l);
    if l.len() == 0 {
        assert(m =~= Seq::<u8>::empty());
    } else if l.len() == 1 {
        lemma_device_round_trip(l[0], Seq::empty());
        assert(json_of_device(l[0]) + Seq::<u8>::empty() =~= m);
        let c = json_of_device(l[0]).len() as nat;
        assert(c == m.len());
        assert(seq![l[0]] =~= l);
    } else {
        let rest = json_of_devices(l.drop_first());
        let tail = seq![44u8] + rest;
        lemma_device_round_trip(l[0], tail);
        assert(json_of_device(l[0]) + tail =~= m);
        let c = json_of_device(l[0]).len() as nat;
        assert(parse_device(m) == Some((l[0], c)));
        assert(rest.len() > 0) by {
            if l.drop_first().len() == 1 {
                assert(rest == json_of_device(l.drop_first()[0]));
            }
        }
        assert(c < m.len());
        assert(m[c as int] == 44);
        assert(m.skip((c + 1) as int) =~= rest);
        assert(quote_free_list(l.drop_first())) by {
            assert(forall|k: int|
                0 <= k < l.drop_first().len() ==> #[trigger] l.drop_first()[k] == l[k + 1]);
        }
        lemma_devices_round_trip(l.drop_first());
        assert(seq![l[0]] + l.drop_first() =~= l);
    }
}

/// Round trip of the device-list message: the rendering of any device
/// list whose timestamps hold no quote byte parses back to exactly
/// that list.
pub proof fn lemma_device_list_round_trip(l: Seq<(Seq<u8>, Seq<u8>)>)
    requires
        quote_free_list(l),
    ensures
        spec_parse_device_list(json_of_device_list(l)) == Some(l),
{
    let s = json_of_device_list(l);
    let lp = list_prefix().len();
    let mid = json_of_devices(l);
    assert(s.len() == lp + mid.len() + 2);
    assert(s.take(lp as int) =~= list_prefix());
    assert(s.skip((s.len() - 2) as int) =~= seq![93u8, 125u8]);
    assert(s.subrange(lp as int, (s.len() - 2) as int) =~= mid);
    lemma_devices_round_trip(l);
}


/// The mathematical value of a descriptor vector: id and timestamp
/// bytes of each entry, in order.
pub open spec fn devices_view(v: Seq<DeviceDescriptor>) -> Seq<(Seq<u8>, Seq<u8>)> {
    v.map_values(|d: DeviceDescriptor| d.view())
}

/// The list-prefix bytes as a vector.
fn list_prefix_bytes() -> (r: Vec<u8>)
    ensures
        r@ == list_prefix(),
{
    let r: Vec<u8> = vec![
        123u8, 34u8, 116u8, 121u8, 112u8, 101u8, 34u8, 58u8, 34u8, 100u8, 101u8, 118u8, 105u8,
        99u8, 101u8, 115u8, 34u8, 44u8, 34u8, 100u8, 101u8, 118u8, 105u8, 99u8, 101u8, 115u8,
        34u8, 58u8, 91u8,
    ];
    assert(r@ =~= list_prefix());
    r
}

/// The device-prefix bytes as a vector.
fn dev_prefix_bytes() -> (r: Vec<u8>)
    ensures
        r@ == dev_prefix(),
{
    let r: Vec<u8> = vec![
        123u8, 34u8, 105u8, 100u8, 34u8, 58u8, 123u8, 34u8, 116u8, 121u8, 112u8, 101u8, 34u8,
        58u8, 34u8, 66u8, 117u8, 102u8, 102u8, 101u8, 114u8, 34u8, 44u8, 34u8, 100u8, 97u8,
        116u8, 97u8, 34u8, 58u8, 91u8,
    ];
    assert(r@ =~= dev_prefix());
    r
}

/// The mid-section bytes as a vector.
fn dev_mid_bytes() -> (r: Vec<u8>)
    ensures
        r@ == dev_mid(),
{
    let r: Vec<u8> = vec![
        93u8, 125u8, 44u8, 34u8, 99u8, 114u8, 101u8, 97u8, 116u8, 101u8, 100u8, 65u8, 116u8,
        34u8, 58u8, 34u8,
    ];
    assert(r@ =~= dev_mid());
    r
}

/// Find the first occurrence of `b` in `s[from..end]`.
fn scan_to_byte(s: &Vec<u8>, from: usize, end: usize, b: u8) -> (r: Option<usize>)
    requires
        from <= end <= s@.len(),
    ensures
        match r {
            Some(j) => find_byte(s@.subrange(from as int, end as int), b) == Some(j as nat) && j
                < end - from && s@[from + j] == b,
            None => find_byte(s@.subrange(from as int, end as int), b) is None,
        },
{
    let mut p = from;
    while p < end
        invariant
            from <= p <= end <= s@.len(),
            find_byte(s@.subrange(from as int, end as int), b) == (match find_byte(
                s@.subrange(p as int, end as int),
                b,
            ) {
                None => None::<nat>,
                Some(t) => Some((t + p - from) as nat),
            }),
        decreases end - p,
    {
        proof {
            let cur = s@.subrange(p as int, end as int);
            assert(cur[0] == s@[p as int]);
            assert(cur.drop_first() =~= s@.subrange(p + 1, end as int));
        }
        if s[p] == b {
            return Some(p - from);
        }
        p = p + 1;
    }
    proof {
        assert(s@.subrange(p as int, end as int) =~= Seq::<u8>::empty());
    }
    None
}

/// Copy `s[from..end]` out.
fn copy_range(s: &Vec<u8>, from: usize, end: usize) -> (r: Vec<u8>)
    requires
        from <= end <= s@.len(),
    ensures
        r@ == s@.subrange(from as int, end as int),
{
    let mut out: Vec<u8> = Vec::new();
    let mut p = from;
    while p < end
        invariant
            from <= p <= end <= s@.len(),
            out@ == s@.subrange(from as int, p as int),
        decreases end - p,
    {
        out.push(s[p]);
        assert(out@ =~= s@.subrange(from as int, p + 1));
        p = p + 1;
    }
    out
}

/// Read one device entry at `s[from..end]`; the contract is exactly
/// the mathematical `parse_device` of that range.
fn parse_device_at(s: &Vec<u8>, from: usize, end: usize) -> (r: Option<(DeviceDescriptor, usize)>)
    requires
        from <= end <= s@.len(),
    ensures
        match r {
            Some((d, c)) => parse_device(s@.subrange(from as int, end as int)) == Some(
                (d.view(), c as nat),
            ) && 1 <= c <= end - from,
            None => parse_device(s@.subrange(from as int, end as int)) is None,
        },
{
    let ghost m = s@.subrange(from as int, end as int);
    let dp = dev_prefix_bytes();
    if end - from < dp.len() {
        return None;
    }
    proof {
        assert(m.take(dev_prefix().len() as int) =~= s@.subrange(
            from as int,
            from + dev_prefix().len(),
        ));
    }
    if !match_at(s, from, &dp) {
        return None;
    }
    let p0 = from + dp.len();
    let j = match scan_to_byte(s, p0, end, 93) {
        None => {
            proof {
                assert(m.skip(dev_prefix().len() as int) =~= s@.subrange(p0 as int, end as int));
            }
            return None;
        },
        Some(j) => j,
    };
    proof {
        assert(m.skip(dev_prefix().len() as int) =~= s@.subrange(p0 as int, end as int));
        assert(m.subrange(dev_prefix().len() as int, (dev_prefix().len() + j) as int) =~= s@
            .subrange(p0 as int, p0 + j));
    }
    let idb = match parse_dec_list_at(s, p0, p0 + j, false) {
        None => {
            return None;
        },
        Some(v) => v,
    };
    let p1 = p0 + j;
    let mid = dev_mid_bytes();
    if end - p1 < mid.len() {
        return None;
    }
    proof {
        assert(m.subrange((p1 - from) as int, (p1 - from + dev_mid().len()) as int) =~= s@
            .subrange(p1 as int, p1 + dev_mid().len()));
    }
    if !match_at(s, p1, &mid) {
        return None;
    }
    let p2 = p1 + mid.len();
    let t = match scan_to_byte(s, p2, end, 34) {
        None => {
            proof {
                assert(m.skip((p2 - from) as int) =~= s@.subrange(p2 as int, end as int));
            }
            return None;
        },
        Some(t) => t,
    };
    proof {
        assert(m.skip((p2 - from) as int) =~= s@.subrange(p2 as int, end as int));
        assert(m.subrange((p2 - from) as int, (p2 - from + t) as int) =~= s@.subrange(
            p2 as int,
            p2 + t,
        ));
    }
    let p3 = p2 + t;
    if end - p3 < 2 {
        return None;
    }
    assert(m[(p3 - from + 1) as int] == s@[p3 + 1]);
    if s[p3 + 1] != 125 {
        return None;
    }
    let created = copy_range(s, p2, p3);
    let d = DeviceDescriptor { id: idb, created_at: created };
    proof {
        let pp = dev_prefix().len() as int;
        assert(m.len() >= pp);
        assert(m.take(pp) == dev_prefix());
        assert(find_byte(m.skip(pp), 93) == Some(j as nat));
        let nums = m.subrange(pp, pp + j);
        assert(parse_dec_list(nums, sep_of(false)) == Some(d.id@));
        let r1 = pp + j;
        assert(m.len() >= r1 + dev_mid().len());
        assert(m.subrange(r1, r1 + dev_mid().len() as int) == dev_mid());
        let r2 = r1 + dev_mid().len();
        assert(find_byte(m.skip(r2), 34) == Some(t as nat));
        assert(m.subrange(r2, r2 + t) == created@);
        let r3 = r2 + t;
        assert(m.len() >= r3 + 2);
        assert(m[r3 + 1] == 125);
        assert(parse_device(m) == Some(((d.id@, created@), (r3 + 2) as nat)));
        assert(r3 + 2 == p3 + 2 - from);
    }
    Some((d, p3 + 2 - from))
}

/// Parse a device-list message, the one text message kind of the
/// streaming channel: the devices it announces, or nothing for any
/// other text. The contract is exactly the mathematical
/// `spec_parse_device_list`.
pub fn parse_device_list(s: &Vec<u8>) -> (r: Option<Vec<DeviceDescriptor>>)
    ensures
        match r {
            Some(v) => spec_parse_device_list(s@) == Some(devices_view(v@)),
            None => spec_parse_device_list(s@) is None,
        },
{
    let lp = list_prefix_bytes();
    if s.len() < lp.len() + 2 {
        return None;
    }
    proof {
        assert(s@.take(list_prefix().len() as int) =~= s@.subrange(
            0,
            list_prefix().len() as int,
        ));
    }
    if !match_at(s, 0, &lp) {
        return None;
    }
    proof {
        assert(s@.skip((s@.len() - 2) as int) =~= seq![
            s@[s@.len() - 2],
            s@[s@.len() - 1],
        ]);
    }
    if s[s.len() - 2] != 93 {
        assert(s@.skip((s@.len() - 2) as int) != seq![93u8, 125u8]);
        return None;
    }
    if s[s.len() - 1] != 125 {
        assert(s@.skip((s@.len() - 2) as int) != seq![93u8, 125u8]);
        return None;
    }
    proof {
        assert(s@.skip((s@.len() - 2) as int) =~= seq![93u8, 125u8]);
    }
    let from = lp.len();
    let end = s.len() - 2;
    let mut out: Vec<DeviceDescriptor> = Vec::new();
    let mut p = from;
    assert(devices_view(out@) =~= Seq::<(Seq<u8>, Seq<u8>)>::empty());
    loop
        invariant
            from <= p <= end <= s@.len(),
            end == s@.len() - 2,
            from == list_prefix().len(),
            s@.len() >= list_prefix().len() + 2,
            s@.take(list_prefix().len() as int) == list_prefix(),
            s@.skip((s@.len() - 2) as int) == seq![93u8, 125u8],
            parse_devices(s@.subrange(from as int, end as int)) == (match parse_devices(
                s@.subrange(p as int, end as int),
            ) {
                None => None::<Seq<(Seq<u8>, Seq<u8>)>>,
                Some(t) => Some(devices_view(out@) + t),
            }),
        decreases end - p,
    {
        let ghost m = s@.subrange(p as int, end as int);
        if p == end {
            assert(m =~= Seq::<u8>::empty());
            assert(devices_view(out@) + Seq::<(Seq<u8>, Seq<u8>)>::empty() =~= devices_view(
                out@,
            ));
            return Some(out);
        }
        match parse_device_at(s, p, end) {
            None => {
                return None;
            },
            Some((d, c)) => {
                let ghost old_view = devices_view(out@);
                let ghost dv = d.view();
                if p + c == end {
                    out.push(d);
                    proof {
                        assert(parse_devices(m) == Some(seq![dv]));
                        assert(devices_view(out@) =~= old_view + seq![dv]);
                    }
                    return Some(out);
                }
                assert(m[(c) as int] == s@[p + c]);
                if s[p + c] != 44 {
                    proof {
                        assert(parse_devices(m) is None);
                    }
                    return None;
                }
                if end - (p + c) == 1 {
                    proof {
                        assert(!(c + 1 < m.len()));
                        assert(parse_devices(m) is None);
                    }
                    return None;
                }
                out.push(d);
                proof {
                    assert(m.skip((c + 1) as int) =~= s@.subrange(p + c + 1, end as int));
                    assert(devices_view(out@) =~= old_view + seq![dv]);
                    assert(forall|t: Seq<(Seq<u8>, Seq<u8>)>|
                        old_view + (seq![dv] + t) =~= (old_view + seq![dv]) + t);
                }
                p = p + c + 1;
            },
        }
    }
}


/// What a successful search means: the byte stands at the found index
/// and nowhere before it.
pub proof fn lemma_find_byte_sound(m: Seq<u8>, b: u8)
    requires
        find_byte(m, b) is Some,
    ensures
        ({
            let j = find_byte(m, b).unwrap();
            &&& j < m.len()
            &&& m[j as int] == b
            &&& forall|i: int| 0 <= i < j ==> m[i] != b
        }),
    decreases m.len(),
{
    if m[0] == b {
    } else {
        lemma_find_byte_sound(m.drop_first(), b);
        let j = find_byte(m, b).unwrap();
        assert(find_byte(m.drop_first(), b) == Some((j - 1) as nat));
        assert(forall|i: int| 1 <= i < j ==> m[i] == m.drop_first()[i - 1]);
    }
}

/// Soundness of one device entry: whenever an entry parses, the bytes
/// it covers are exactly the rendering of what it parses to, and the
/// timestamp it recovers holds no quote byte.
pub proof fn lemma_parse_device_sound(m: Seq<u8>)
    requires
        parse_device(m) is Some,
    ensures
        ({
            let ((idb, created), c) = parse_device(m).unwrap();
            &&& 1 <= c <= m.len()
            &&& m.take(c as int) == json_of_device((idb, created))
            &&& quote_free(created)
        }),
{
    let pp = dev_prefix().len();
    let j = find_byte(m.skip(pp as int), 93).unwrap();
    lemma_find_byte_sound(m.skip(pp as int), 93);
    let nums = m.subrange(pp as int, (pp + j) as int);
    lemma_parse_dec_list_sound(nums, sep_of(false));
    let ((idb, created), c) = parse_device(m).unwrap();
    assert(nums == dec_list_sep(idb, sep_of(false)));
    let p1 = pp + j;
    let p2 = p1 + dev_mid().len();
    let t = find_byte(m.skip(p2 as int), 34).unwrap();
    lemma_find_byte_sound(m.skip(p2 as int), 34);
    let p3 = p2 + t;
    assert(created == m.subrange(p2 as int, (p2 + t) as int));
    assert(quote_free(created)) by {
        assert(forall|i: int|
            0 <= i < t ==> created[i] == m.skip(p2 as int)[i]);
    }
    assert(c == p3 + 2);
    assert(m[p3 as int] == m.skip(p2 as int)[t as int]);
    assert(m[p3 as int] == 34);
    assert(m[(p3 + 1) as int] == 125);
    assert(m.take(c as int) =~= dev_prefix() + nums + dev_mid() + created + seq![34u8, 125u8])
        by {
        assert(m.take(pp as int) == dev_prefix());
        assert(forall|i: int| 0 <= i < pp ==> m[i] == dev_prefix()[i]);
        assert(m.subrange(p1 as int, (p1 + dev_mid().len()) as int) == dev_mid());
        assert(forall|i: int|
            0 <= i < dev_mid().len() ==> m[p1 + i] == dev_mid()[i]);
        assert(forall|i: int| 0 <= i < j ==> m[pp + i] == nums[i]);
        assert(forall|i: int| 0 <= i < t ==> m[p2 + i] == created[i]);
    }
}

/// Soundness of the joined device entries: whenever a text parses, it
/// is exactly the rendering of the entries it parses to, and every
/// recovered timestamp is quote-free.
#[verifier::rlimit(100)]
pub proof fn lemma_parse_devices_sound(m: Seq<u8>)
    requires
        parse_devices(m) is Some,
    ensures
        m == json_of_devices(parse_devices(m).unwrap()),
        quote_free_list(parse_devices(m).unwrap()),
        parse_devices(m).unwrap().len() == 0 <==> m.len() == 0,
    decreases m.len(),
{
    if m.len() == 0 {
    } else {
        let (d, c) = parse_device(m).unwrap();
        lemma_parse_device_sound(m);
        if c == m.len() {
            let l = seq![d];
            assert(parse_devices(m) == Some(l));
            assert(m.take(c as int) =~= m);
            assert(json_of_devices(l) == json_of_device(d));
            assert(quote_free_list(l)) by {
                assert(forall|k: int| 0 <= k < l.len() ==> l[k] == d);
            }
        } else {
            let rest = m.skip((c + 1) as int);
            lemma_parse_devices_sound(rest);
            let t = parse_devices(rest).unwrap();
            let l = seq![d] + t;
            assert(parse_devices(m) == Some(l));
            assert(rest == json_of_devices(t));
            assert(rest.len() > 0);
            assert(t.len() > 0);
            assert(l.len() > 1);
            assert(l[0] == d);
            assert(l.drop_first() =~= t);
            assert(json_of_devices(l) == json_of_device(d) + seq![44u8] + json_of_devices(t));
            assert(m[c as int] == 44);
            assert(m =~= m.take(c as int) + seq![m[c as int]] + rest);
            assert(m =~= json_of_device(d) + seq![44u8] + json_of_devices(t));
            assert(quote_free_list(l)) by {
                assert(forall|k: int| 1 <= k < l.len() ==> l[k] == t[k - 1]);
            }
        }
    }
}

/// Soundness of the device-list message: whenever a text parses, it is
/// exactly the rendering of the device list it parses to — together
/// with the round trip, the message grammar and the parser are
/// mutually inverse on accepted texts.
pub proof fn lemma_device_list_parse_sound(s: Seq<u8>)
    requires
        spec_parse_device_list(s) is Some,
    ensures
        s == json_of_device_list(spec_parse_device_list(s).unwrap()),
        quote_free_list(spec_parse_device_list(s).unwrap()),
{
    let lp = list_prefix().len();
    let mid = s.subrange(lp as int, (s.len() - 2) as int);
    lemma_parse_devices_sound(mid);
    let l = spec_parse_device_list(s).unwrap();
    assert(mid == json_of_devices(l));
    assert(s =~= s.take(lp as int) + mid + s.skip((s.len() - 2) as int));
    assert(s =~= json_of_device_list(l));
}

} // verus!
