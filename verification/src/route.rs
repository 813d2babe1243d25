//! Resolving the host address from a default-route listing.
//!
//! The route query command produces a JSON array of route records. The
//! decode of those bytes goes through serde_json behind trusted wrappers
//! whose results are named by uninterpreted spec functions of the bytes:
//! [`route_records_of`] for the record count and [`route_field_of`] for a
//! string field of the first record. Everything decided about the decoded
//! values — which record is chosen, the `dst` sanity check, gateway
//! extraction and parsing — is stated in [`spec_route_decision`] and
//! verified in [`route_from_fields`]; [`host_ip_from_route`] promises that
//! exact decision over the named decode results.

use vstd::prelude::*;

use crate::errors::ResolveError;
use crate::ip::parse_ip;
use crate::ip::spec_parse_ip;
use crate::ip::HostAddress;

verus! {

/// What the route-query output decodes to: the number of records when the
/// bytes are a JSON array, and nothing when they are not valid JSON or not
/// an array.
pub uninterp spec fn route_records_of(s: Seq<u8>) -> Option<nat>;

/// The string under `key` in the first record of the route-query output,
/// as its UTF-8 bytes: present only when the output is a JSON array whose
/// first element is an object holding a string under that key.
pub uninterp spec fn route_field_of(s: Seq<u8>, key: Seq<char>) -> Option<Seq<u8>>;

/// Relies on serde_json::from_slice and serde_json::Value::as_array: the
/// record count of the output when it is a JSON array, and nothing
/// otherwise. The decode depends on the bytes alone.
#[verifier::external_body]
fn decode_route_array(output: &[u8]) -> (r: Option<usize>)
    ensures
        route_records_of(output@) == (match r {
            Some(n) => Some(n as nat),
            None => None::<nat>,
        }),
{
    let v: serde_json::Value = match serde_json::from_slice(output) {
        Ok(v) => v,
        Err(_) => return None,
    };
    match v.as_array() {
        Some(a) => Some(a.len()),
        None => None,
    }
}

/// Relies on serde_json::from_slice, serde_json::Value::as_array,
/// serde_json::Value::get and serde_json::Value::as_str: the string under
/// `key` in the first record of the output, as bytes. The decode depends
/// on the bytes and the key alone.
#[verifier::external_body]
fn decode_route_field(output: &[u8], key: &str) -> (r: Option<Vec<u8>>)
    ensures
        route_field_of(output@, key@) == (match r {
            Some(v) => Some(v@),
            None => None::<Seq<u8>>,
        }),
{
    let v: serde_json::Value = match serde_json::from_slice(output) {
        Ok(v) => v,
        Err(_) => return None,
    };
    let arr = match v.as_array() {
        Some(a) => a,
        None => return None,
    };
    match arr.get(0).and_then(|rec| rec.get(key)).and_then(serde_json::Value::as_str) {
        Some(s) => Some(s.as_bytes().to_vec()),
        None => None,
    }
}

/// The required `dst` field value, `default`.
pub open spec fn default_kw() -> Seq<u8> {
    seq![0x64u8, 0x65, 0x66, 0x61, 0x75, 0x6c, 0x74]
}

/// Does `s` spell `default`?
fn is_default_kw(s: &[u8]) -> (r: bool)
    ensures
        r == (s@ == default_kw()),
{
    proof {
        assert(default_kw().len() == 7);
    }
    if s.len() != 7 {
        return false;
    }
    let r = s[0] == 0x64 && s[1] == 0x65 && s[2] == 0x66 && s[3] == 0x61 && s[4] == 0x75 && s[5]
        == 0x6c && s[6] == 0x74;
    proof {
        if r {
            assert(s@ =~= default_kw());
        }
    }
    r
}

/// The route decision over plain decoded values: with no record at all the
/// resolution fails with `NotFound`; otherwise the first record must name
/// `default` as its destination (`ValidationError` otherwise), and its
/// gateway must be present and a valid IP address text (`ParseError`
/// otherwise), which is then the resolved address.
pub open spec fn spec_route_decision(
    n: nat,
    dst: Option<Seq<u8>>,
    gateway: Option<Seq<u8>>,
) -> Result<HostAddress, ResolveError> {
    if n == 0 {
        Err(ResolveError::NotFound)
    } else if !(dst matches Some(d) && d == default_kw()) {
        Err(ResolveError::ValidationError)
    } else {
        match gateway {
            None => Err(ResolveError::ParseError),
            Some(g) => match spec_parse_ip(g) {
                None => Err(ResolveError::ParseError),
                Some(a) => Ok(a),
            },
        }
    }
}

/// Decide the route resolution from plain values: how many records the
/// query returned, and the `dst` and `gateway` fields of the first record,
/// each as UTF-8 bytes when present as a string.
///
/// The first component says whether more than one record was returned, in
/// which case the caller owes a non-fatal warning whatever else happens;
/// the second is exactly the decision of [`spec_route_decision`].
pub fn route_from_fields(n_records: usize, dst: Option<Vec<u8>>, gateway: Option<Vec<u8>>) -> (r: (
    bool,
    Result<HostAddress, ResolveError>,
))
    ensures
        r.0 == (n_records > 1),
        r.1 == spec_route_decision(
            n_records as nat,
            match dst {
                Some(d) => Some(d@),
                None => None::<Seq<u8>>,
            },
            match gateway {
                Some(g) => Some(g@),
                None => None::<Seq<u8>>,
            },
        ),
{
    let warn = n_records > 1;
    if n_records == 0 {
        return (warn, Err(ResolveError::NotFound));
    }
    let decision = match dst {
        None => Err(ResolveError::ValidationError),
        Some(d) => {
            if !is_default_kw(d.as_slice()) {
                Err(ResolveError::ValidationError)
            } else {
                match gateway {
                    None => Err(ResolveError::ParseError),
                    Some(g) => match parse_ip(g.as_slice()) {
                        None => Err(ResolveError::ParseError),
                        Some(a) => Ok(a),
                    },
                }
            }
        },
    };
    (warn, decision)
}

/// Resolve the host address from the bytes that the default-route query
/// printed. When the bytes are not valid JSON or not a JSON array, the
/// resolution fails with `DecodeError`. Otherwise the result is exactly
/// the decision of [`spec_route_decision`] over the record count and the
/// first record's `dst` and `gateway` fields, and the first component says
/// whether more than one record was returned, in which case the caller
/// owes a non-fatal warning.
pub fn host_ip_from_route(output: &[u8]) -> (r: (bool, Result<HostAddress, ResolveError>))
    ensures
        match route_records_of(output@) {
            None => r == (false, Err::<HostAddress, ResolveError>(ResolveError::DecodeError)),
            Some(n) => r.0 == (n > 1) && r.1 == spec_route_decision(
                n,
                route_field_of(output@, "dst"@),
                route_field_of(output@, "gateway"@),
            ),
        },
{
    let n = match decode_route_array(output) {
        Some(n) => n,
        None => {
            return (false, Err(ResolveError::DecodeError));
        },
    };
    let dst = decode_route_field(output, "dst");
    let gateway = decode_route_field(output, "gateway");
    route_from_fields(n, dst, gateway)
}

} // verus!
