//! Scanning resolver-file contents for the first `nameserver` directive.
//!
//! The contents must be valid text (UTF-8); anything else fails with
//! `DecodeError`. Valid contents are line-oriented: lines are split on
//! newlines and each line is tokenized by ASCII whitespace. The first line
//! whose first token is `nameserver` yields its second token as the
//! candidate address; later lines are ignored, mirroring resolver
//! precedence.

use vstd::prelude::*;

use vstd::slice::slice_subrange;
use vstd::slice::slice_to_vec;

use crate::errors::ResolveError;
use crate::ip::find_byte;
use crate::ip::parse_ip;
use crate::ip::spec_find;
use crate::ip::spec_parse_ip;
use crate::ip::HostAddress;

use vstd::utf8::valid_utf8;

verus! {

/// Relies on std str::from_utf8: it accepts exactly the valid UTF-8 byte
/// sequences.
#[verifier::external_body]
fn is_valid_utf8(bytes: &[u8]) -> (r: bool)
    ensures
        r == valid_utf8(bytes@),
{
    std::str::from_utf8(bytes).is_ok()
}

/// An ASCII whitespace byte: space, tab, newline, form feed, carriage
/// return.
pub open spec fn is_space(b: u8) -> bool {
    b == 0x20 || b == 0x09 || b == 0x0a || b == 0x0c || b == 0x0d
}

/// First position at or after `i` holding a non-whitespace byte, or the end.
pub open spec fn spec_skip_ws(s: Seq<u8>, i: int) -> int
    recommends
        0 <= i <= s.len(),
    decreases s.len() - i,
{
    if i < 0 || i >= s.len() {
        s.len() as int
    } else if is_space(s[i]) {
        spec_skip_ws(s, i + 1)
    } else {
        i
    }
}

/// First position at or after `i` holding a whitespace byte, or the end.
pub open spec fn spec_token_end(s: Seq<u8>, i: int) -> int
    recommends
        0 <= i <= s.len(),
    decreases s.len() - i,
{
    if i < 0 || i >= s.len() {
        s.len() as int
    } else if !is_space(s[i]) {
        spec_token_end(s, i + 1)
    } else {
        i
    }
}

proof fn lemma_skip_ws_is(s: Seq<u8>, i: int, j: int)
    requires
        0 <= i <= j <= s.len(),
        forall|k: int| i <= k < j ==> is_space(s[k]),
        j == s.len() || !is_space(s[j]),
    ensures
        spec_skip_ws(s, i) == j,
    decreases j - i,
{
    if i < j {
        lemma_skip_ws_is(s, i + 1, j);
    }
}

proof fn lemma_token_end_is(s: Seq<u8>, i: int, j: int)
    requires
        0 <= i <= j <= s.len(),
        forall|k: int| i <= k < j ==> !is_space(s[k]),
        j == s.len() || is_space(s[j]),
    ensures
        spec_token_end(s, i) == j,
    decreases j - i,
{
    if i < j {
        lemma_token_end_is(s, i + 1, j);
    }
}

/// The `nameserver` keyword.
pub open spec fn nameserver_kw() -> Seq<u8> {
    seq![0x6eu8, 0x61, 0x6d, 0x65, 0x73, 0x65, 0x72, 0x76, 0x65, 0x72]
}

/// The second whitespace-separated token of a line whose first token is
/// `nameserver`, if both tokens exist.
pub open spec fn line_token2(line: Seq<u8>) -> Option<Seq<u8>> {
    let a = spec_skip_ws(line, 0);
    let b = spec_token_end(line, a);
    if line.subrange(a, b) == nameserver_kw() {
        let c = spec_skip_ws(line, b);
        if c < line.len() {
            Some(line.subrange(c, spec_token_end(line, c)))
        } else {
            None
        }
    } else {
        None
    }
}

fn is_space_byte(b: u8) -> (r: bool)
    ensures
        r == is_space(b),
{
    b == 0x20 || b == 0x09 || b == 0x0a || b == 0x0c || b == 0x0d
}

/// Scan past whitespace within the line `s[base..end]`, starting at `from`.
fn scan_ws(s: &[u8], base: usize, end: usize, from: usize) -> (r: usize)
    requires
        base <= from,
        from <= end <= s@.len(),
    ensures
        from <= r <= end,
        spec_skip_ws(s@.subrange(base as int, end as int), from - base) == r - base,
        r < end ==> !is_space(s@[r as int]),
    decreases end - from,
{
    let ghost line = s@.subrange(base as int, end as int);
    let mut i: usize = from;
    while i < end && is_space_byte(s[i])
        invariant
            from <= i <= end <= s@.len(),
            base <= from,
            forall|k: int| from <= k < i ==> is_space(s@[k]),
        decreases end - i,
    {
        i = i + 1;
    }
    proof {
        assert forall|k: int| from - base <= k < i - base implies is_space(line[k]) by {
            assert(line[k] == s@[base + k]);
        }
        if i < end {
            assert(line[i - base] == s@[i as int]);
        }
        lemma_skip_ws_is(line, from - base, i - base);
    }
    i
}

/// Scan to the end of the token within the line `s[base..end]`, starting at
/// `from`.
fn scan_token(s: &[u8], base: usize, end: usize, from: usize) -> (r: usize)
    requires
        base <= from,
        from <= end <= s@.len(),
    ensures
        from <= r <= end,
        spec_token_end(s@.subrange(base as int, end as int), from - base) == r - base,
    decreases end - from,
{
    let ghost line = s@.subrange(base as int, end as int);
    let mut i: usize = from;
    while i < end && !is_space_byte(s[i])
        invariant
            from <= i <= end <= s@.len(),
            base <= from,
            forall|k: int| from <= k < i ==> !is_space(s@[k]),
        decreases end - i,
    {
        i = i + 1;
    }
    proof {
        assert forall|k: int| from - base <= k < i - base implies !is_space(line[k]) by {
            assert(line[k] == s@[base + k]);
        }
        if i < end {
            assert(line[i - base] == s@[i as int]);
        }
        lemma_token_end_is(line, from - base, i - base);
    }
    i
}

/// Does `s[a..b]` spell `nameserver`?
fn is_nameserver_kw(s: &[u8], a: usize, b: usize) -> (r: bool)
    requires
        a <= b <= s@.len(),
    ensures
        r == (s@.subrange(a as int, b as int) == nameserver_kw()),
{
    let ghost sub = s@.subrange(a as int, b as int);
    proof {
        assert(nameserver_kw().len() == 10);
    }
    if b - a != 10 {
        return false;
    }
    proof {
        assert(sub[0] == s@[a as int]);
        assert(sub[1] == s@[a as int + 1]);
        assert(sub[2] == s@[a as int + 2]);
        assert(sub[3] == s@[a as int + 3]);
        assert(sub[4] == s@[a as int + 4]);
        assert(sub[5] == s@[a as int + 5]);
        assert(sub[6] == s@[a as int + 6]);
        assert(sub[7] == s@[a as int + 7]);
        assert(sub[8] == s@[a as int + 8]);
        assert(sub[9] == s@[a as int + 9]);
    }
    let r = s[a] == 0x6e && s[a + 1] == 0x61 && s[a + 2] == 0x6d && s[a + 3] == 0x65 && s[a + 4]
        == 0x73 && s[a + 5] == 0x65 && s[a + 6] == 0x72 && s[a + 7] == 0x76 && s[a + 8] == 0x65
        && s[a + 9] == 0x72;
    proof {
        if r {
            assert(sub =~= nameserver_kw());
        }
    }
    r
}

/// The nameserver token of the line `s[start..end]`, if the line has one.
fn line_token2_exec(s: &[u8], start: usize, end: usize) -> (r: Option<Vec<u8>>)
    requires
        start <= end <= s@.len(),
    ensures
        ({
            let line = s@.subrange(start as int, end as int);
            match r {
                None => line_token2(line) is None,
                Some(v) => line_token2(line) == Some(v@),
            }
        }),
{
    let ghost line = s@.subrange(start as int, end as int);
    let a = scan_ws(s, start, end, start);
    let b = scan_token(s, start, end, a);
    proof {
        assert(line.subrange(a - start, b - start) =~= s@.subrange(a as int, b as int));
    }
    if !is_nameserver_kw(s, a, b) {
        return None;
    }
    let c = scan_ws(s, start, end, b);
    if c == end {
        return None;
    }
    let d = scan_token(s, start, end, c);
    let v = slice_to_vec(slice_subrange(s, c, d));
    proof {
        assert(line.subrange(c - start, d - start) =~= s@.subrange(c as int, d as int));
    }
    Some(v)
}

/// The second token of the first line whose first token is `nameserver`.
pub open spec fn spec_first_nameserver(s: Seq<u8>) -> Option<Seq<u8>>
    decreases s.len(),
{
    match spec_find(s, 0x0a) {
        None => line_token2(s),
        Some(i) => if i + 1 <= s.len() {
            match line_token2(s.take(i as int)) {
                Some(tok) => Some(tok),
                None => spec_first_nameserver(s.skip(i as int + 1)),
            }
        } else {
            None
        },
    }
}

fn first_nameserver_rec(s: &[u8], start: usize) -> (r: Option<Vec<u8>>)
    requires
        start <= s@.len(),
    ensures
        ({
            let rest = s@.skip(start as int);
            match r {
                None => spec_first_nameserver(rest) is None,
                Some(v) => spec_first_nameserver(rest) == Some(v@),
            }
        }),
    decreases s@.len() - start,
{
    let ghost rest = s@.skip(start as int);
    let n = s.len();
    proof {
        assert(rest =~= s@.subrange(start as int, n as int));
    }
    match find_byte(s, start, n, 0x0a) {
        None => line_token2_exec(s, start, n),
        Some(j) => {
            proof {
                assert(rest.take(j - start) =~= s@.subrange(start as int, j as int));
            }
            match line_token2_exec(s, start, j) {
                Some(v) => Some(v),
                None => {
                    proof {
                        assert(rest.skip(j - start + 1) =~= s@.skip(j as int + 1));
                    }
                    first_nameserver_rec(s, j + 1)
                },
            }
        },
    }
}

/// Resolve the host address from resolver-file contents. Contents that are
/// not valid text fail with `DecodeError`. Otherwise the second token of
/// the first `nameserver` line is parsed as an IP address; the resolution
/// fails with `NotFound` when no such line exists, and with `ParseError`
/// when the token is not a valid address.
pub fn host_ip_from_resolv_conf(contents: &[u8]) -> (r: Result<HostAddress, ResolveError>)
    ensures
        !valid_utf8(contents@) ==> r == Err::<HostAddress, ResolveError>(ResolveError::DecodeError),
        valid_utf8(contents@) ==> match spec_first_nameserver(contents@) {
            None => r == Err::<HostAddress, ResolveError>(ResolveError::NotFound),
            Some(tok) => match spec_parse_ip(tok) {
                None => r == Err::<HostAddress, ResolveError>(ResolveError::ParseError),
                Some(a) => r == Ok::<HostAddress, ResolveError>(a),
            },
        },
{
    if !is_valid_utf8(contents) {
        return Err(ResolveError::DecodeError);
    }
    proof {
        assert(contents@.skip(0) =~= contents@);
    }
    match first_nameserver_rec(contents, 0) {
        None => Err(ResolveError::NotFound),
        Some(tok) => match parse_ip(tok.as_slice()) {
            None => Err(ResolveError::ParseError),
            Some(a) => Ok(a),
        },
    }
}

proof fn lemma_find_extend(s: Seq<u8>, more: Seq<u8>, sep: u8, j: int)
    requires
        spec_find(s, sep) == Some(j as nat),
        0 <= j,
    ensures
        spec_find(s + more, sep) == Some(j as nat),
{
    crate::ip::lemma_find_in_range(s, sep);
    assert forall|k: int| 0 <= k < j implies (s + more)[k] != sep by {
        assert((s + more)[k] == s[k]);
    }
    assert((s + more)[j] == s[j]);
    crate::ip::lemma_find_some(s + more, sep, j);
}

/// Law: the first `nameserver` line wins whatever follows it. Once some
/// newline-terminated contents yield a nameserver token, appending any
/// further contents leaves the resolved token unchanged.
pub proof fn lemma_first_nameserver_prefix_wins(s: Seq<u8>, more: Seq<u8>)
    requires
        spec_first_nameserver(s) is Some,
        s.len() > 0,
        s.last() == 0x0a,
    ensures
        spec_first_nameserver(s + more) == spec_first_nameserver(s),
    decreases s.len(),
{
    crate::ip::lemma_find_in_range(s, 0x0a);
    match spec_find(s, 0x0a) {
        None => {
            assert(s[s.len() - 1] == 0x0a);
        },
        Some(i) => {
            lemma_find_extend(s, more, 0x0a, i as int);
            assert((s + more).take(i as int) =~= s.take(i as int));
            match line_token2(s.take(i as int)) {
                Some(tok) => {},
                None => {
                    let rest = s.skip(i as int + 1);
                    if i + 1 == s.len() {
                        assert(spec_first_nameserver(rest) is None);
                    } else {
                        assert(rest.last() == s.last());
                        lemma_first_nameserver_prefix_wins(rest, more);
                        assert((s + more).skip(i as int + 1) =~= rest + more);
                    }
                },
            }
        },
    }
}

} // verus!
