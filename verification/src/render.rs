//! Rendering addresses and display numbers as text.
//!
//! A v4 address renders as four decimal octets separated by dots; a v6
//! address as its eight groups in lowercase hex without leading zeros,
//! separated by single colons (no `::` compression). The final display
//! string is the address, a colon, and the decimal display number.

use vstd::prelude::*;

use crate::ip::all_digits;
use crate::ip::all_hex_digits;
use crate::ip::dec_val;
use crate::ip::hex_val;
use crate::ip::is_digit;
use crate::ip::is_hex_digit;
use crate::ip::lemma_find_dc_none;
use crate::ip::lemma_find_none;
use crate::ip::lemma_find_some;
use crate::ip::spec_find_dc;
use crate::ip::spec_groups;
use crate::ip::spec_octets;
use crate::ip::spec_parse_ip;
use crate::ip::valid_group;
use crate::ip::valid_octet;
use crate::ip::HostAddress;

verus! {

/// Decimal digit bytes of `n`, most significant first, no leading zeros.
pub open spec fn spec_dec(n: nat) -> Seq<u8>
    decreases n,
{
    if n < 10 {
        seq![(0x30 + n) as u8]
    } else {
        spec_dec(n / 10).push((0x30 + n % 10) as u8)
    }
}

/// The lowercase hex digit byte of a value below 16.
pub open spec fn hex_digit_byte(d: nat) -> u8 {
    if d < 10 {
        (0x30 + d) as u8
    } else {
        (0x57 + d) as u8
    }
}

/// Lowercase hex digit bytes of `n`, most significant first, no leading
/// zeros.
pub open spec fn spec_hex(n: nat) -> Seq<u8>
    decreases n,
{
    if n < 16 {
        seq![hex_digit_byte(n)]
    } else {
        spec_hex(n / 16).push(hex_digit_byte(n % 16))
    }
}

/// Every byte is an ASCII code point.
pub open spec fn all_ascii(s: Seq<u8>) -> bool {
    forall|i: int| 0 <= i < s.len() ==> s[i] < 0x80
}

fn push_dec(n: u16, out: &mut Vec<u8>)
    requires
        all_ascii(old(out)@),
    ensures
        final(out)@ == old(out)@ + spec_dec(n as nat),
        all_ascii(final(out)@),
    decreases n,
{
    let ghost orig = out@;
    if n >= 10 {
        push_dec(n / 10, out);
    }
    out.push(0x30 + (n % 10) as u8);
    proof {
        assert(out@ =~= orig + spec_dec(n as nat));
        assert forall|i: int| 0 <= i < out@.len() implies out@[i] < 0x80 by {
            if i < out@.len() - 1 {
                assert(out@[i] == out@.drop_last()[i]);
            }
        }
    }
}

fn push_hex(n: u16, out: &mut Vec<u8>)
    requires
        all_ascii(old(out)@),
    ensures
        final(out)@ == old(out)@ + spec_hex(n as nat),
        all_ascii(final(out)@),
    decreases n,
{
    let ghost orig = out@;
    if n >= 16 {
        push_hex(n / 16, out);
    }
    let d = (n % 16) as u8;
    let b: u8 = if d < 10 {
        0x30 + d
    } else {
        0x57 + d
    };
    out.push(b);
    proof {
        assert(out@ =~= orig + spec_hex(n as nat));
        assert forall|i: int| 0 <= i < out@.len() implies out@[i] < 0x80 by {
            if i < out@.len() - 1 {
                assert(out@[i] == out@.drop_last()[i]);
            }
        }
    }
}

/// Text of an address.
pub open spec fn spec_render_addr(a: HostAddress) -> Seq<u8> {
    match a {
        HostAddress::V4(x, y, z, w) => spec_dec(x as nat) + seq![0x2eu8] + spec_dec(y as nat)
            + seq![0x2eu8] + spec_dec(z as nat) + seq![0x2eu8] + spec_dec(w as nat),
        HostAddress::V6(g0, g1, g2, g3, g4, g5, g6, g7) => spec_hex(g0 as nat) + seq![0x3au8]
            + spec_hex(g1 as nat) + seq![0x3au8] + spec_hex(g2 as nat) + seq![0x3au8] + spec_hex(
            g3 as nat,
        ) + seq![0x3au8] + spec_hex(g4 as nat) + seq![0x3au8] + spec_hex(g5 as nat) + seq![0x3au8]
            + spec_hex(g6 as nat) + seq![0x3au8] + spec_hex(g7 as nat),
    }
}

/// Text of the resolved display: address, colon, display number.
pub open spec fn spec_display_output(a: HostAddress, display_number: u16) -> Seq<u8> {
    spec_render_addr(a) + seq![0x3au8] + spec_dec(display_number as nat)
}

/// Render an address as bytes.
pub fn render_addr(a: &HostAddress) -> (r: Vec<u8>)
    ensures
        r@ == spec_render_addr(*a),
        all_ascii(r@),
{
    let mut out: Vec<u8> = Vec::new();
    match a {
        HostAddress::V4(x, y, z, w) => {
            push_dec(*x as u16, &mut out);
            out.push(0x2e);
            push_dec(*y as u16, &mut out);
            out.push(0x2e);
            push_dec(*z as u16, &mut out);
            out.push(0x2e);
            push_dec(*w as u16, &mut out);
        },
        HostAddress::V6(g0, g1, g2, g3, g4, g5, g6, g7) => {
            push_hex(*g0, &mut out);
            out.push(0x3a);
            push_hex(*g1, &mut out);
            out.push(0x3a);
            push_hex(*g2, &mut out);
            out.push(0x3a);
            push_hex(*g3, &mut out);
            out.push(0x3a);
            push_hex(*g4, &mut out);
            out.push(0x3a);
            push_hex(*g5, &mut out);
            out.push(0x3a);
            push_hex(*g6, &mut out);
            out.push(0x3a);
            push_hex(*g7, &mut out);
        },
    }
    proof {
        assert(out@ =~= spec_render_addr(*a));
        assert forall|i: int| 0 <= i < out@.len() implies out@[i] < 0x80 by {}
    }
    out
}

/// Relies on String::from_utf8: bytes below 0x80 are valid UTF-8 and decode
/// to one char each, the char of the byte's value.
#[verifier::external_body]
fn ascii_string(bytes: Vec<u8>) -> (r: String)
    requires
        all_ascii(bytes@),
    ensures
        r@.len() == bytes@.len(),
        forall|i: int| 0 <= i < bytes@.len() ==> r@[i] as int == bytes@[i] as int,
{
    String::from_utf8(bytes).unwrap_or_default()
}

/// `t` spells the display output for `a` and `display_number`.
pub open spec fn is_display_output(t: Seq<char>, a: HostAddress, display_number: u16) -> bool {
    t.len() == spec_display_output(a, display_number).len() && forall|i: int|
        0 <= i < t.len() ==> t[i] as int == spec_display_output(a, display_number)[i] as int
}

/// The formatted success output, `"<address>:<display number>"`.
pub fn render_display(a: &HostAddress, display_number: u16) -> (r: String)
    ensures
        is_display_output(r@, *a, display_number),
{
    let mut out = render_addr(a);
    out.push(0x3a);
    push_dec(display_number, &mut out);
    proof {
        assert(out@ =~= spec_display_output(*a, display_number));
    }
    ascii_string(out)
}

/// Law: the decimal renderer and the decimal reader agree: the text of `n`
/// is all digits and reads back as `n`.
pub proof fn lemma_dec_round_trip(n: nat)
    ensures
        all_digits(spec_dec(n)),
        dec_val(spec_dec(n)) == n,
    decreases n,
{
    assert(dec_val(Seq::<u8>::empty()) == 0);
    assert(spec_dec(n).len() > 0);
    assert(dec_val(spec_dec(n)) == dec_val(spec_dec(n).drop_last()) * 10 + crate::ip::digit_val(
        spec_dec(n).last(),
    ));
    if n < 10 {
        assert(spec_dec(n).drop_last() =~= Seq::<u8>::empty());
        assert(spec_dec(n).last() == (0x30 + n) as u8);
        assert(crate::ip::digit_val((0x30 + n) as u8) == n);
    } else {
        lemma_dec_round_trip(n / 10);
        assert(spec_dec(n).drop_last() =~= spec_dec(n / 10));
        assert(spec_dec(n).last() == (0x30 + n % 10) as u8);
        assert(crate::ip::digit_val((0x30 + n % 10) as u8) == n % 10);
        assert(dec_val(spec_dec(n)) == (n / 10) * 10 + n % 10);
        assert forall|i: int| 0 <= i < spec_dec(n).len() implies crate::ip::is_digit(
            spec_dec(n)[i],
        ) by {
            if i < spec_dec(n).len() - 1 {
                assert(spec_dec(n)[i] == spec_dec(n / 10)[i]);
            }
        }
    }
}

/// Law: the hex renderer and the hex reader agree: the text of `n` is all
/// hex digits and reads back as `n`.
pub proof fn lemma_hex_round_trip(n: nat)
    ensures
        all_hex_digits(spec_hex(n)),
        hex_val(spec_hex(n)) == n,
    decreases n,
{
    assert(hex_val(Seq::<u8>::empty()) == 0);
    assert(spec_hex(n).len() > 0);
    assert(hex_val(spec_hex(n)) == hex_val(spec_hex(n).drop_last()) * 16
        + crate::ip::hex_digit_val(spec_hex(n).last()));
    if n < 16 {
        assert(spec_hex(n).drop_last() =~= Seq::<u8>::empty());
        assert(spec_hex(n).last() == hex_digit_byte(n));
        assert(crate::ip::hex_digit_val(hex_digit_byte(n)) == n);
    } else {
        lemma_hex_round_trip(n / 16);
        assert(spec_hex(n).drop_last() =~= spec_hex(n / 16));
        assert(spec_hex(n).last() == hex_digit_byte(n % 16));
        assert(crate::ip::hex_digit_val(hex_digit_byte(n % 16)) == n % 16);
        assert(hex_val(spec_hex(n)) == (n / 16) * 16 + n % 16);
        assert forall|i: int| 0 <= i < spec_hex(n).len() implies crate::ip::is_hex_digit(
            spec_hex(n)[i],
        ) by {
            if i < spec_hex(n).len() - 1 {
                assert(spec_hex(n)[i] == spec_hex(n / 16)[i]);
            }
        }
    }
}

proof fn lemma_dec_len(n: nat)
    ensures
        spec_dec(n).len() >= 1,
        n < 10 ==> spec_dec(n).len() == 1,
        n < 100 ==> spec_dec(n).len() <= 2,
        n < 1000 ==> spec_dec(n).len() <= 3,
    decreases n,
{
    if n >= 10 {
        lemma_dec_len(n / 10);
    }
}

proof fn lemma_dec_no_leading_zero(n: nat)
    ensures
        n >= 1 ==> spec_dec(n)[0] != 0x30,
    decreases n,
{
    if n >= 10 {
        lemma_dec_no_leading_zero(n / 10);
        lemma_dec_len(n / 10);
        assert(spec_dec(n)[0] == spec_dec(n / 10)[0]);
    }
}

proof fn lemma_hex_len(n: nat)
    ensures
        spec_hex(n).len() >= 1,
        n < 16 ==> spec_hex(n).len() == 1,
        n < 0x100 ==> spec_hex(n).len() <= 2,
        n < 0x1000 ==> spec_hex(n).len() <= 3,
        n < 0x10000 ==> spec_hex(n).len() <= 4,
    decreases n,
{
    if n >= 16 {
        lemma_hex_len(n / 16);
    }
}

proof fn lemma_octet_valid(x: u8)
    ensures
        valid_octet(spec_dec(x as nat)),
        dec_val(spec_dec(x as nat)) == x,
{
    lemma_dec_round_trip(x as nat);
    lemma_dec_len(x as nat);
    lemma_dec_no_leading_zero(x as nat);
}

proof fn lemma_group_valid(g: u16)
    ensures
        valid_group(spec_hex(g as nat)),
        hex_val(spec_hex(g as nat)) == g,
        spec_hex(g as nat).len() >= 1,
        spec_hex(g as nat)[0] != 0x3a,
        spec_hex(g as nat)[0] != 0x2e,
    decreases g,
{
    lemma_hex_round_trip(g as nat);
    lemma_hex_len(g as nat);
    assert(is_hex_digit(spec_hex(g as nat)[0]));
}

proof fn lemma_octets_single(g: Seq<u8>)
    requires
        valid_octet(g),
    ensures
        spec_octets(g) == Some(seq![(dec_val(g) as u8)]),
{
    assert forall|i: int| 0 <= i < g.len() implies g[i] != 0x2e by {
        assert(is_digit(g[i]));
    }
    lemma_find_none(g, 0x2e);
}

proof fn lemma_octets_cons(first: Seq<u8>, rest: Seq<u8>)
    requires
        valid_octet(first),
        spec_octets(rest) is Some,
    ensures
        spec_octets(first + seq![0x2eu8] + rest) == Some(
            seq![(dec_val(first) as u8)] + spec_octets(rest).unwrap(),
        ),
{
    let s = first + seq![0x2eu8] + rest;
    let fl = first.len() as int;
    assert forall|i: int| 0 <= i < fl implies s[i] != 0x2e by {
        assert(s[i] == first[i]);
        assert(is_digit(first[i]));
    }
    assert(s[fl] == 0x2e);
    lemma_find_some(s, 0x2e, fl);
    assert(s.take(fl) =~= first);
    assert(s.skip(fl + 1) =~= rest);
}

proof fn lemma_find_dc_none_char(s: Seq<u8>)
    requires
        spec_find_dc(s) is None,
    ensures
        forall|i: int|
            0 <= i && i + 1 < s.len() ==> !(#[trigger] s[i] == 0x3a && s[i + 1] == 0x3a),
    decreases s.len(),
{
    if s.len() >= 2 {
        lemma_find_dc_none_char(s.drop_first());
        assert forall|i: int| 0 <= i && i + 1 < s.len() implies !(#[trigger] s[i] == 0x3a && s[i
            + 1] == 0x3a) by {
            if i > 0 {
                assert(s.drop_first()[i - 1] == s[i]);
                assert(s.drop_first()[i] == s[i + 1]);
            }
        }
    }
}

proof fn lemma_groups_single(g: Seq<u8>, v4_tail: bool)
    requires
        valid_group(g),
    ensures
        spec_groups(g, v4_tail) == Some(seq![(hex_val(g) as u16)]),
        spec_find_dc(g) is None,
        forall|i: int| 0 <= i < g.len() ==> g[i] != 0x2e,
{
    assert forall|i: int| 0 <= i < g.len() implies g[i] != 0x3a && g[i] != 0x2e by {
        assert(is_hex_digit(g[i]));
    }
    lemma_find_none(g, 0x3a);
    lemma_find_dc_none(g);
}

proof fn lemma_groups_cons(first: Seq<u8>, rest: Seq<u8>, v4_tail: bool)
    requires
        valid_group(first),
        spec_groups(rest, v4_tail) is Some,
        spec_find_dc(rest) is None,
        rest.len() > 0,
        rest[0] != 0x3a,
        forall|i: int| 0 <= i < rest.len() ==> rest[i] != 0x2e,
    ensures
        spec_groups(first + seq![0x3au8] + rest, v4_tail) == Some(
            seq![(hex_val(first) as u16)] + spec_groups(rest, v4_tail).unwrap(),
        ),
        spec_find_dc(first + seq![0x3au8] + rest) is None,
        (first + seq![0x3au8] + rest).len() > 0,
        (first + seq![0x3au8] + rest)[0] != 0x3a,
        forall|i: int|
            0 <= i < (first + seq![0x3au8] + rest).len() ==> (first + seq![0x3au8] + rest)[i]
                != 0x2e,
{
    let s = first + seq![0x3au8] + rest;
    let fl = first.len() as int;
    assert forall|i: int| 0 <= i < fl implies s[i] != 0x3a && s[i] != 0x2e by {
        assert(s[i] == first[i]);
        assert(is_hex_digit(first[i]));
    }
    assert(s[fl] == 0x3a);
    lemma_find_some(s, 0x3a, fl);
    assert(s.take(fl) =~= first);
    assert(s.skip(fl + 1) =~= rest);
    lemma_find_dc_none_char(rest);
    assert forall|i: int| 0 <= i && i + 1 < s.len() implies !(#[trigger] s[i] == 0x3a && s[i + 1]
        == 0x3a) by {
        if i + 1 <= fl {
            assert(s[i] == first[i]);
        } else if i == fl {
            assert(s[i + 1] == rest[0]);
        } else {
            assert(s[i] == rest[i - fl - 1]);
            assert(s[i + 1] == rest[i - fl]);
            assert(!(rest[i - fl - 1] == 0x3a && rest[i - fl] == 0x3a));
        }
    }
    lemma_find_dc_none(s);
    assert(s[0] == first[0]);
    assert(is_hex_digit(first[0]));
    assert forall|i: int| 0 <= i < s.len() implies s[i] != 0x2e by {
        if i < fl {
            assert(s[i] == first[i]);
        } else if i > fl {
            assert(s[i] == rest[i - fl - 1]);
        }
    }
}

#[verifier::rlimit(100)]
#[verifier::spinoff_prover]
proof fn lemma_rt_v4(x: u8, y: u8, z: u8, w: u8)
    ensures
        spec_parse_ip(spec_render_addr(HostAddress::V4(x, y, z, w))) == Some(
            HostAddress::V4(x, y, z, w),
        ),
{
    lemma_octet_valid(x);
    lemma_octet_valid(y);
    lemma_octet_valid(z);
    lemma_octet_valid(w);
    let sx = spec_dec(x as nat);
    let sy = spec_dec(y as nat);
    let sz = spec_dec(z as nat);
    let sw = spec_dec(w as nat);
    let dot = seq![0x2eu8];
    lemma_octets_single(sw);
    let r1 = sz + dot + sw;
    lemma_octets_cons(sz, sw);
    assert(spec_octets(r1).unwrap() =~= seq![z, w]);
    let r2 = sy + dot + r1;
    lemma_octets_cons(sy, r1);
    assert(spec_octets(r2).unwrap() =~= seq![y, z, w]);
    let r3 = sx + dot + r2;
    lemma_octets_cons(sx, r2);
    assert(spec_octets(r3).unwrap() =~= seq![x, y, z, w]);
    assert(spec_render_addr(HostAddress::V4(x, y, z, w)) =~= r3);
}

/// The colon-separated text of a nonempty list of groups.
pub open spec fn render_groups(gs: Seq<u16>) -> Seq<u8>
    recommends
        gs.len() >= 1,
    decreases gs.len(),
{
    if gs.len() <= 1 {
        spec_hex(gs[0] as nat)
    } else {
        spec_hex(gs[0] as nat) + seq![0x3au8] + render_groups(gs.drop_first())
    }
}

proof fn lemma_render_groups(gs: Seq<u16>, v4_tail: bool)
    requires
        gs.len() >= 1,
    ensures
        spec_groups(render_groups(gs), v4_tail) == Some(gs),
        spec_find_dc(render_groups(gs)) is None,
        render_groups(gs).len() >= gs.len(),
        render_groups(gs)[0] != 0x3a,
        forall|i: int| 0 <= i < render_groups(gs).len() ==> render_groups(gs)[i] != 0x2e,
    decreases gs.len(),
{
    if gs.len() == 1 {
        lemma_group_valid(gs[0]);
        lemma_groups_single(spec_hex(gs[0] as nat), v4_tail);
        assert(seq![gs[0]] =~= gs);
        assert(is_hex_digit(spec_hex(gs[0] as nat)[0]));
        assert forall|i: int| 0 <= i < render_groups(gs).len() implies render_groups(gs)[i]
            != 0x2e by {
            assert(is_hex_digit(spec_hex(gs[0] as nat)[i]));
        }
    } else {
        lemma_render_groups(gs.drop_first(), v4_tail);
        lemma_group_valid(gs[0]);
        lemma_groups_cons(spec_hex(gs[0] as nat), render_groups(gs.drop_first()), v4_tail);
        assert(seq![gs[0]] + gs.drop_first() =~= gs);
    }
}

#[verifier::rlimit(100)]
#[verifier::spinoff_prover]
proof fn lemma_rt_v6(g0: u16, g1: u16, g2: u16, g3: u16, g4: u16, g5: u16, g6: u16, g7: u16)
    ensures
        spec_parse_ip(spec_render_addr(HostAddress::V6(g0, g1, g2, g3, g4, g5, g6, g7))) == Some(
            HostAddress::V6(g0, g1, g2, g3, g4, g5, g6, g7),
        ),
{
    let a = HostAddress::V6(g0, g1, g2, g3, g4, g5, g6, g7);
    let gs0 = seq![g0, g1, g2, g3, g4, g5, g6, g7];
    let gs1 = seq![g1, g2, g3, g4, g5, g6, g7];
    let gs2 = seq![g2, g3, g4, g5, g6, g7];
    let gs3 = seq![g3, g4, g5, g6, g7];
    let gs4 = seq![g4, g5, g6, g7];
    let gs5 = seq![g5, g6, g7];
    let gs6 = seq![g6, g7];
    let gs7 = seq![g7];
    assert(gs0.drop_first() =~= gs1);
    assert(gs1.drop_first() =~= gs2);
    assert(gs2.drop_first() =~= gs3);
    assert(gs3.drop_first() =~= gs4);
    assert(gs4.drop_first() =~= gs5);
    assert(gs5.drop_first() =~= gs6);
    assert(gs6.drop_first() =~= gs7);
    assert(render_groups(gs7) == spec_hex(g7 as nat));
    assert(render_groups(gs6) == spec_hex(g6 as nat) + seq![0x3au8] + render_groups(gs7));
    assert(render_groups(gs5) == spec_hex(g5 as nat) + seq![0x3au8] + render_groups(gs6));
    assert(render_groups(gs4) == spec_hex(g4 as nat) + seq![0x3au8] + render_groups(gs5));
    assert(render_groups(gs3) == spec_hex(g3 as nat) + seq![0x3au8] + render_groups(gs4));
    assert(render_groups(gs2) == spec_hex(g2 as nat) + seq![0x3au8] + render_groups(gs3));
    assert(render_groups(gs1) == spec_hex(g1 as nat) + seq![0x3au8] + render_groups(gs2));
    assert(render_groups(gs0) == spec_hex(g0 as nat) + seq![0x3au8] + render_groups(gs1));
    assert(spec_render_addr(a) =~= render_groups(gs0));
    lemma_render_groups(gs0, true);
    // the text is no v4 address: it has no dot and is far too long
    lemma_find_none(render_groups(gs0), 0x2e);
    assert(render_groups(gs0).len() > 3);
    assert(crate::ip::spec_parse_ipv4(render_groups(gs0)) is None);
    assert(crate::ip::spec_parse_ipv6_groups(render_groups(gs0)) == Some(gs0));
}

/// Law: rendering is faithful to the grammar: the text of any address
/// parses back to that address.
pub proof fn lemma_render_parse_round_trip(a: HostAddress)
    ensures
        spec_parse_ip(spec_render_addr(a)) == Some(a),
{
    match a {
        HostAddress::V4(x, y, z, w) => lemma_rt_v4(x, y, z, w),
        HostAddress::V6(g0, g1, g2, g3, g4, g5, g6, g7) => lemma_rt_v6(
            g0,
            g1,
            g2,
            g3,
            g4,
            g5,
            g6,
            g7,
        ),
    }
}

} // verus!
