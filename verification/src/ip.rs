//! IP addresses as plain values: a validated v4 or v6 host address, its
//! textual grammar, and a verified parser.
//!
//! The grammar is the usual textual form. A v4 address is four decimal
//! octets separated by dots, each 0 to 255 with no leading zero. A v6
//! address is eight groups of one to four hex digits separated by colons,
//! or fewer groups with one `::` standing for the missing zero groups; the
//! last group may instead be a dotted v4 address, standing for the final
//! two groups.

use vstd::prelude::*;

verus! {

/// A single validated IP address, v4 or v6. A v6 address is its eight
/// 16-bit groups in order.
#[derive(Clone, Copy, Debug, PartialEq, Eq)]
pub enum HostAddress {
    V4(u8, u8, u8, u8),
    V6(u16, u16, u16, u16, u16, u16, u16, u16),
}

pub open spec fn is_digit(b: u8) -> bool {
    0x30 <= b <= 0x39
}

pub open spec fn digit_val(b: u8) -> nat {
    (b - 0x30) as nat
}

pub open spec fn is_hex_digit(b: u8) -> bool {
    is_digit(b) || 0x61 <= b <= 0x66 || 0x41 <= b <= 0x46
}

pub open spec fn hex_digit_val(b: u8) -> nat {
    if is_digit(b) {
        digit_val(b)
    } else if 0x61 <= b <= 0x66 {
        (b - 0x61 + 10) as nat
    } else {
        (b - 0x41 + 10) as nat
    }
}

pub open spec fn all_digits(s: Seq<u8>) -> bool {
    forall|i: int| 0 <= i < s.len() ==> is_digit(s[i])
}

pub open spec fn all_hex_digits(s: Seq<u8>) -> bool {
    forall|i: int| 0 <= i < s.len() ==> is_hex_digit(s[i])
}

/// Value of a decimal digit string.
pub open spec fn dec_val(s: Seq<u8>) -> nat
    decreases s.len(),
{
    if s.len() == 0 {
        0
    } else {
        dec_val(s.drop_last()) * 10 + digit_val(s.last())
    }
}

/// Value of a hex digit string.
pub open spec fn hex_val(s: Seq<u8>) -> nat
    decreases s.len(),
{
    if s.len() == 0 {
        0
    } else {
        hex_val(s.drop_last()) * 16 + hex_digit_val(s.last())
    }
}

/// A valid v4 octet: one to three decimal digits, no leading zero, at most
/// 255.
pub open spec fn valid_octet(s: Seq<u8>) -> bool {
    &&& 1 <= s.len() <= 3
    &&& all_digits(s)
    &&& (s.len() > 1 ==> s[0] != 0x30)
    &&& dec_val(s) <= 255
}

/// A valid v6 group: one to four hex digits.
pub open spec fn valid_group(s: Seq<u8>) -> bool {
    1 <= s.len() <= 4 && all_hex_digits(s)
}

/// Position of the first occurrence of `sep`.
pub open spec fn spec_find(s: Seq<u8>, sep: u8) -> Option<nat>
    decreases s.len(),
{
    if s.len() == 0 {
        None
    } else if s[0] == sep {
        Some(0nat)
    } else {
        match spec_find(s.drop_first(), sep) {
            None => None,
            Some(i) => Some((i + 1) as nat),
        }
    }
}

pub(crate) proof fn lemma_find_some(s: Seq<u8>, sep: u8, j: int)
    requires
        0 <= j < s.len(),
        s[j] == sep,
        forall|i: int| 0 <= i < j ==> s[i] != sep,
    ensures
        spec_find(s, sep) == Some(j as nat),
    decreases j,
{
    if j > 0 {
        lemma_find_some(s.drop_first(), sep, j - 1);
    }
}

pub(crate) proof fn lemma_find_none(s: Seq<u8>, sep: u8)
    requires
        forall|i: int| 0 <= i < s.len() ==> s[i] != sep,
    ensures
        spec_find(s, sep) is None,
    decreases s.len(),
{
    if s.len() > 0 {
        lemma_find_none(s.drop_first(), sep);
    }
}

pub(crate) proof fn lemma_find_in_range(s: Seq<u8>, sep: u8)
    ensures
        match spec_find(s, sep) {
            None => forall|i: int| 0 <= i < s.len() ==> s[i] != sep,
            Some(j) => j < s.len() && s[j as int] == sep && (forall|i: int|
                0 <= i < j ==> s[i] != sep),
        },
    decreases s.len(),
{
    if s.len() > 0 && s[0] != sep {
        lemma_find_in_range(s.drop_first(), sep);
        match spec_find(s.drop_first(), sep) {
            Some(j) => {
                assert forall|i: int| 0 <= i < j + 1 implies s[i] != sep by {
                    if i > 0 {
                        assert(s.drop_first()[i - 1] == s[i]);
                    }
                }
            },
            None => {},
        }
        if spec_find(s.drop_first(), sep) is None {
            assert forall|i: int| 0 <= i < s.len() implies s[i] != sep by {
                if i > 0 {
                    assert(s.drop_first()[i - 1] == s[i]);
                }
            }
        }
    }
}

/// Find the first occurrence of `sep` in `s[start..end]`.
pub(crate) fn find_byte(s: &[u8], start: usize, end: usize, sep: u8) -> (r: Option<usize>)
    requires
        start <= end <= s@.len(),
    ensures
        match r {
            None => spec_find(s@.subrange(start as int, end as int), sep) is None,
            Some(j) => start <= j < end && s@[j as int] == sep && spec_find(
                s@.subrange(start as int, end as int),
                sep,
            ) == Some((j - start) as nat),
        },
{
    let ghost sub = s@.subrange(start as int, end as int);
    let mut i: usize = start;
    while i < end
        invariant
            start <= i <= end <= s@.len(),
            sub == s@.subrange(start as int, end as int),
            forall|k: int| start <= k < i ==> s@[k] != sep,
        decreases end - i,
    {
        if s[i] == sep {
            proof {
                lemma_find_some(sub, sep, i - start);
            }
            return Some(i);
        }
        i = i + 1;
    }
    proof {
        lemma_find_none(sub, sep);
    }
    None
}

proof fn lemma_dec_val_bounds(s: Seq<u8>)
    requires
        all_digits(s),
        s.len() <= 3,
    ensures
        dec_val(s) <= 999,
        s.len() <= 2 ==> dec_val(s) <= 99,
        s.len() <= 1 ==> dec_val(s) <= 9,
    decreases s.len(),
{
    if s.len() > 0 {
        assert forall|i: int| 0 <= i < s.drop_last().len() implies is_digit(s.drop_last()[i]) by {
            assert(s.drop_last()[i] == s[i]);
        }
        lemma_dec_val_bounds(s.drop_last());
        assert(is_digit(s.last()));
    }
}

proof fn lemma_hex_val_bounds(s: Seq<u8>)
    requires
        all_hex_digits(s),
        s.len() <= 4,
    ensures
        hex_val(s) <= 0xffff,
        s.len() <= 3 ==> hex_val(s) <= 0xfff,
        s.len() <= 2 ==> hex_val(s) <= 0xff,
        s.len() <= 1 ==> hex_val(s) <= 0xf,
    decreases s.len(),
{
    if s.len() > 0 {
        assert forall|i: int| 0 <= i < s.drop_last().len() implies is_hex_digit(s.drop_last()[i]) by {
            assert(s.drop_last()[i] == s[i]);
        }
        lemma_hex_val_bounds(s.drop_last());
        assert(is_hex_digit(s.last()));
    }
}

/// Parse `s[start..end]` as one decimal octet.
fn parse_octet_val(s: &[u8], start: usize, end: usize) -> (r: Option<u8>)
    requires
        start <= end <= s@.len(),
    ensures
        ({
            let sub = s@.subrange(start as int, end as int);
            match r {
                None => !valid_octet(sub),
                Some(x) => valid_octet(sub) && x as nat == dec_val(sub),
            }
        }),
{
    let ghost sub = s@.subrange(start as int, end as int);
    let len = end - start;
    if len == 0 || len > 3 {
        return None;
    }
    if len > 1 && s[start] == 0x30 {
        assert(sub[0] == s@[start as int]);
        return None;
    }
    let mut acc: u16 = 0;
    let mut i: usize = start;
    while i < end
        invariant
            start <= i <= end <= s@.len(),
            end - start <= 3,
            sub == s@.subrange(start as int, end as int),
            all_digits(sub.take(i - start)),
            acc as nat == dec_val(sub.take(i - start)),
        decreases end - i,
    {
        let b = s[i];
        assert(sub[i - start] == s@[i as int]);
        if !(0x30 <= b && b <= 0x39) {
            assert(!is_digit(sub[i - start]));
            return None;
        }
        proof {
            lemma_dec_val_bounds(sub.take(i - start));
        }
        acc = acc * 10 + (b - 0x30) as u16;
        proof {
            assert(sub.take(i - start + 1).drop_last() =~= sub.take(i - start));
            assert(sub.take(i - start + 1).last() == s@[i as int]);
            assert forall|k: int| 0 <= k < i + 1 - start implies is_digit(
                #[trigger] sub.take(i - start + 1)[k],
            ) by {
                assert(sub.take(i - start + 1)[k] == sub[k]);
            }
        }
        i = i + 1;
    }
    assert(sub.take(end - start) =~= sub);
    if acc > 255 {
        return None;
    }
    Some(acc as u8)
}

/// Parse `s[start..end]` as one hex group.
fn parse_group_val(s: &[u8], start: usize, end: usize) -> (r: Option<u16>)
    requires
        start <= end <= s@.len(),
    ensures
        ({
            let sub = s@.subrange(start as int, end as int);
            match r {
                None => !valid_group(sub),
                Some(x) => valid_group(sub) && x as nat == hex_val(sub),
            }
        }),
{
    let ghost sub = s@.subrange(start as int, end as int);
    let len = end - start;
    if len == 0 || len > 4 {
        return None;
    }
    let mut acc: u16 = 0;
    let mut i: usize = start;
    while i < end
        invariant
            start <= i <= end <= s@.len(),
            end - start <= 4,
            sub == s@.subrange(start as int, end as int),
            all_hex_digits(sub.take(i - start)),
            acc as nat == hex_val(sub.take(i - start)),
        decreases end - i,
    {
        let b = s[i];
        assert(sub[i - start] == s@[i as int]);
        let d: u16 = if 0x30 <= b && b <= 0x39 {
            (b - 0x30) as u16
        } else if 0x61 <= b && b <= 0x66 {
            (b - 0x61) as u16 + 10
        } else if 0x41 <= b && b <= 0x46 {
            (b - 0x41) as u16 + 10
        } else {
            assert(!is_hex_digit(sub[i - start]));
            return None;
        };
        assert(d as nat == hex_digit_val(sub[i - start]));
        proof {
            lemma_hex_val_bounds(sub.take(i - start));
        }
        acc = acc * 16 + d;
        proof {
            assert(sub.take(i - start + 1).drop_last() =~= sub.take(i - start));
            assert(sub.take(i - start + 1).last() == s@[i as int]);
            assert forall|k: int| 0 <= k < i + 1 - start implies is_hex_digit(
                #[trigger] sub.take(i - start + 1)[k],
            ) by {
                assert(sub.take(i - start + 1)[k] == sub[k]);
            }
        }
        i = i + 1;
    }
    assert(sub.take(end - start) =~= sub);
    Some(acc)
}

/// Values of the dot-separated octets of `s`, if every part is a valid
/// octet; splitting at the first dot is canonical, octets hold no dot.
pub open spec fn spec_octets(s: Seq<u8>) -> Option<Seq<u8>>
    decreases s.len(),
{
    match spec_find(s, 0x2e) {
        None => if valid_octet(s) {
            Some(seq![(dec_val(s) as u8)])
        } else {
            None
        },
        Some(i) => if i + 1 <= s.len() && valid_octet(s.take(i as int)) {
            match spec_octets(s.skip(i as int + 1)) {
                None => None,
                Some(rest) => Some(seq![(dec_val(s.take(i as int)) as u8)] + rest),
            }
        } else {
            None
        },
    }
}

/// Values of the colon-separated hex groups of `s`, if every part is a
/// valid group. With `v4_tail`, the final part may instead be a dotted v4
/// address, which stands for two groups.
pub open spec fn spec_groups(s: Seq<u8>, v4_tail: bool) -> Option<Seq<u16>>
    decreases s.len(),
{
    match spec_find(s, 0x3a) {
        None => if valid_group(s) {
            Some(seq![(hex_val(s) as u16)])
        } else if v4_tail {
            match spec_octets(s) {
                Some(o) => if o.len() == 4 {
                    Some(
                        seq![
                            (((o[0] as nat) * 256 + o[1]) as u16),
                            (((o[2] as nat) * 256 + o[3]) as u16),
                        ],
                    )
                } else {
                    None
                },
                None => None,
            }
        } else {
            None
        },
        Some(i) => if i + 1 <= s.len() && valid_group(s.take(i as int)) {
            match spec_groups(s.skip(i as int + 1), v4_tail) {
                None => None,
                Some(rest) => Some(seq![(hex_val(s.take(i as int)) as u16)] + rest),
            }
        } else {
            None
        },
    }
}

fn parse_octets_rec(s: &[u8], start: usize, end: usize) -> (r: Option<Vec<u8>>)
    requires
        start <= end <= s@.len(),
    ensures
        ({
            let sub = s@.subrange(start as int, end as int);
            match r {
                None => spec_octets(sub) is None,
                Some(v) => spec_octets(sub) == Some(v@),
            }
        }),
    decreases end - start,
{
    let ghost sub = s@.subrange(start as int, end as int);
    match find_byte(s, start, end, 0x2e) {
        None => {
            match parse_octet_val(s, start, end) {
                None => None,
                Some(x) => {
                    let mut v: Vec<u8> = Vec::new();
                    v.push(x);
                    proof {
                        assert(v@ =~= seq![(dec_val(sub) as u8)]);
                    }
                    Some(v)
                },
            }
        },
        Some(j) => {
            proof {
                assert(sub.take(j - start) =~= s@.subrange(start as int, j as int));
            }
            match parse_octet_val(s, start, j) {
                None => None,
                Some(x) => {
                    proof {
                        assert(sub.skip(j - start + 1) =~= s@.subrange(j as int + 1, end as int));
                    }
                    match parse_octets_rec(s, j + 1, end) {
                        None => None,
                        Some(rest) => {
                            let mut rest = rest;
                            let mut v: Vec<u8> = Vec::new();
                            v.push(x);
                            v.append(&mut rest);
                            proof {
                                assert(v@ =~= seq![(dec_val(sub.take(j - start)) as u8)]
                                    + spec_octets(sub.skip(j - start + 1)).unwrap());
                            }
                            Some(v)
                        },
                    }
                },
            }
        },
    }
}

fn parse_groups_rec(s: &[u8], start: usize, end: usize, v4_tail: bool) -> (r: Option<Vec<u16>>)
    requires
        start <= end <= s@.len(),
    ensures
        ({
            let sub = s@.subrange(start as int, end as int);
            match r {
                None => spec_groups(sub, v4_tail) is None,
                Some(v) => spec_groups(sub, v4_tail) == Some(v@),
            }
        }),
    decreases end - start,
{
    let ghost sub = s@.subrange(start as int, end as int);
    match find_byte(s, start, end, 0x3a) {
        None => {
            match parse_group_val(s, start, end) {
                None => {
                    if !v4_tail {
                        return None;
                    }
                    match parse_octets_rec(s, start, end) {
                        None => None,
                        Some(o) => {
                            if o.len() != 4 {
                                None
                            } else {
                                let hi = (o[0] as u16) * 256 + (o[1] as u16);
                                let lo = (o[2] as u16) * 256 + (o[3] as u16);
                                let mut v: Vec<u16> = Vec::new();
                                v.push(hi);
                                v.push(lo);
                                proof {
                                    let og = spec_octets(sub).unwrap();
                                    assert(og == o@);
                                    assert(v@ =~= seq![
                                        (((og[0] as nat) * 256 + og[1]) as u16),
                                        (((og[2] as nat) * 256 + og[3]) as u16),
                                    ]);
                                }
                                Some(v)
                            }
                        },
                    }
                },
                Some(x) => {
                    let mut v: Vec<u16> = Vec::new();
                    v.push(x);
                    proof {
                        assert(v@ =~= seq![(hex_val(sub) as u16)]);
                    }
                    Some(v)
                },
            }
        },
        Some(j) => {
            proof {
                assert(sub.take(j - start) =~= s@.subrange(start as int, j as int));
            }
            match parse_group_val(s, start, j) {
                None => None,
                Some(x) => {
                    proof {
                        assert(sub.skip(j - start + 1) =~= s@.subrange(j as int + 1, end as int));
                    }
                    match parse_groups_rec(s, j + 1, end, v4_tail) {
                        None => None,
                        Some(rest) => {
                            let mut rest = rest;
                            let mut v: Vec<u16> = Vec::new();
                            v.push(x);
                            v.append(&mut rest);
                            proof {
                                assert(v@ =~= seq![(hex_val(sub.take(j - start)) as u16)]
                                    + spec_groups(sub.skip(j - start + 1), v4_tail).unwrap());
                            }
                            Some(v)
                        },
                    }
                },
            }
        },
    }
}


/// Position of the first `::` in `s`.
pub open spec fn spec_find_dc(s: Seq<u8>) -> Option<nat>
    decreases s.len(),
{
    if s.len() < 2 {
        None
    } else if s[0] == 0x3a && s[1] == 0x3a {
        Some(0nat)
    } else {
        match spec_find_dc(s.drop_first()) {
            None => None,
            Some(i) => Some((i + 1) as nat),
        }
    }
}

proof fn lemma_find_dc_some(s: Seq<u8>, j: int)
    requires
        0 <= j,
        j + 1 < s.len(),
        s[j] == 0x3a && s[j + 1] == 0x3a,
        forall|i: int| 0 <= i < j ==> !(#[trigger] s[i] == 0x3a && s[i + 1] == 0x3a),
    ensures
        spec_find_dc(s) == Some(j as nat),
    decreases j,
{
    if j > 0 {
        assert forall|i: int| 0 <= i < j - 1 implies !(#[trigger] s.drop_first()[i] == 0x3a
            && s.drop_first()[i + 1] == 0x3a) by {
            assert(s.drop_first()[i] == s[i + 1]);
            assert(s.drop_first()[i + 1] == s[i + 2]);
        }
        lemma_find_dc_some(s.drop_first(), j - 1);
    }
}

pub(crate) proof fn lemma_find_dc_none(s: Seq<u8>)
    requires
        forall|i: int| 0 <= i && i + 1 < s.len() ==> !(#[trigger] s[i] == 0x3a && s[i + 1] == 0x3a),
    ensures
        spec_find_dc(s) is None,
    decreases s.len(),
{
    if s.len() >= 2 {
        assert forall|i: int| 0 <= i && i + 1 < s.drop_first().len() implies !(#[trigger] s.drop_first()[i]
            == 0x3a && s.drop_first()[i + 1] == 0x3a) by {
            assert(s.drop_first()[i] == s[i + 1]);
            assert(s.drop_first()[i + 1] == s[i + 2]);
        }
        lemma_find_dc_none(s.drop_first());
    }
}

/// Find the first `::` in `s`.
fn find_dc(s: &[u8]) -> (r: Option<usize>)
    ensures
        match r {
            None => spec_find_dc(s@) is None,
            Some(j) => j + 1 < s@.len() && spec_find_dc(s@) == Some(j as nat),
        },
{
    let n = s.len();
    if n < 2 {
        proof {
            lemma_find_dc_none(s@);
        }
        return None;
    }
    let mut i: usize = 0;
    while i < n - 1
        invariant
            2 <= n == s@.len(),
            i <= n - 1,
            forall|k: int| 0 <= k < i ==> !(#[trigger] s@[k] == 0x3a && s@[k + 1] == 0x3a),
        decreases n - i,
    {
        if s[i] == 0x3a && s[i + 1] == 0x3a {
            proof {
                lemma_find_dc_some(s@, i as int);
            }
            return Some(i);
        }
        i = i + 1;
    }
    proof {
        lemma_find_dc_none(s@);
    }
    None
}

/// A run of zero-valued groups.
pub open spec fn zero_groups(n: nat) -> Seq<u16> {
    Seq::new(n, |i: int| 0u16)
}

/// The eight groups of a v6 address text: either eight plain groups with no
/// `::`, or a compressed form where one `::` stands for the zero groups that
/// the sides leave out. A dotted v4 tail may stand for the final two groups.
pub open spec fn spec_parse_ipv6_groups(s: Seq<u8>) -> Option<Seq<u16>> {
    match spec_find_dc(s) {
        None => match spec_groups(s, true) {
            Some(g) => if g.len() == 8 {
                Some(g)
            } else {
                None
            },
            None => None,
        },
        Some(p) => if p + 2 <= s.len() {
            let left = s.take(p as int);
            let right = s.skip(p as int + 2);
            let lg = if left.len() == 0 {
                Some(Seq::<u16>::empty())
            } else {
                spec_groups(left, false)
            };
            let rg = if right.len() == 0 {
                Some(Seq::<u16>::empty())
            } else {
                spec_groups(right, true)
            };
            match (lg, rg) {
                (Some(a), Some(b)) => if a.len() + b.len() <= 7 {
                    Some(a + zero_groups((8 - a.len() - b.len()) as nat) + b)
                } else {
                    None
                },
                _ => None,
            }
        } else {
            None
        },
    }
}

fn parse_ipv6_groups(s: &[u8]) -> (r: Option<Vec<u16>>)
    ensures
        match r {
            None => spec_parse_ipv6_groups(s@) is None,
            Some(v) => spec_parse_ipv6_groups(s@) == Some(v@) && v@.len() == 8,
        },
{
    let n = s.len();
    proof {
        assert(s@.subrange(0, n as int) =~= s@);
    }
    match find_dc(s) {
        None => {
            match parse_groups_rec(s, 0, n, true) {
                None => None,
                Some(v) => {
                    if v.len() == 8 {
                        Some(v)
                    } else {
                        None
                    }
                },
            }
        },
        Some(p) => {
            let left: Option<Vec<u16>> = if p == 0 {
                Some(Vec::new())
            } else {
                proof {
                    assert(s@.subrange(0, p as int) =~= s@.take(p as int));
                }
                parse_groups_rec(s, 0, p, false)
            };
            let right: Option<Vec<u16>> = if p + 2 == n {
                Some(Vec::new())
            } else {
                proof {
                    assert(s@.subrange(p as int + 2, n as int) =~= s@.skip(p as int + 2));
                }
                parse_groups_rec(s, p + 2, n, true)
            };
            match (left, right) {
                (Some(a), Some(b)) => {
                    proof {
                        if p == 0 {
                            assert(a@ =~= Seq::<u16>::empty());
                        }
                        if p + 2 == n {
                            assert(b@ =~= Seq::<u16>::empty());
                        }
                    }
                    if a.len() <= 7 && b.len() <= 7 - a.len() {
                        let fill = 8 - a.len() - b.len();
                        let mut v = a;
                        let ghost a_view = v@;
                        let mut k: usize = 0;
                        while k < fill
                            invariant
                                k <= fill,
                                v@ =~= a_view + zero_groups(k as nat),
                            decreases fill - k,
                        {
                            v.push(0);
                            proof {
                                assert(zero_groups((k + 1) as nat) =~= zero_groups(
                                    k as nat,
                                ).push(0u16));
                            }
                            k = k + 1;
                        }
                        let mut b = b;
                        let ghost b_view = b@;
                        v.append(&mut b);
                        proof {
                            assert(v@ =~= a_view + zero_groups(
                                (8 - a_view.len() - b_view.len()) as nat,
                            ) + b_view);
                        }
                        Some(v)
                    } else {
                        None
                    }
                },
                _ => None,
            }
        },
    }
}

/// A v4 address text: exactly four valid octets.
pub open spec fn spec_parse_ipv4(s: Seq<u8>) -> Option<HostAddress> {
    match spec_octets(s) {
        Some(o) => if o.len() == 4 {
            Some(HostAddress::V4(o[0], o[1], o[2], o[3]))
        } else {
            None
        },
        None => None,
    }
}

/// A v6 address text, as its eight groups.
pub open spec fn spec_parse_ipv6(s: Seq<u8>) -> Option<HostAddress> {
    match spec_parse_ipv6_groups(s) {
        Some(g) => Some(HostAddress::V6(g[0], g[1], g[2], g[3], g[4], g[5], g[6], g[7])),
        None => None,
    }
}

/// A syntactically valid IP address text, v4 or v6.
pub open spec fn spec_parse_ip(s: Seq<u8>) -> Option<HostAddress> {
    if spec_parse_ipv4(s) is Some {
        spec_parse_ipv4(s)
    } else {
        spec_parse_ipv6(s)
    }
}

/// Parse a v4 address text.
pub fn parse_ipv4(s: &[u8]) -> (r: Option<HostAddress>)
    ensures
        r == spec_parse_ipv4(s@),
{
    proof {
        assert(s@.subrange(0, s@.len() as int) =~= s@);
    }
    match parse_octets_rec(s, 0, s.len()) {
        None => None,
        Some(v) => {
            if v.len() == 4 {
                Some(HostAddress::V4(v[0], v[1], v[2], v[3]))
            } else {
                None
            }
        },
    }
}

/// Parse a v6 address text.
pub fn parse_ipv6(s: &[u8]) -> (r: Option<HostAddress>)
    ensures
        r == spec_parse_ipv6(s@),
{
    match parse_ipv6_groups(s) {
        None => None,
        Some(v) => Some(HostAddress::V6(v[0], v[1], v[2], v[3], v[4], v[5], v[6], v[7])),
    }
}

/// Parse an IP address text, trying the v4 form first.
pub fn parse_ip(s: &[u8]) -> (r: Option<HostAddress>)
    ensures
        r == spec_parse_ip(s@),
{
    match parse_ipv4(s) {
        Some(a) => Some(a),
        None => parse_ipv6(s),
    }
}

} // verus!
