use x11_host_probe::errors::ResolveError;
use x11_host_probe::ip::HostAddress;
use x11_host_probe::route::host_ip_from_route;
use x11_host_probe::route::route_from_fields;

#[test]
fn single_default_route_resolves_gateway() {
    let output = br#"[{"dst":"default","gateway":"172.30.192.1","dev":"eth0","flags":[]}]"#;
    assert_eq!(
        host_ip_from_route(output),
        (false, Ok(HostAddress::V4(172, 30, 192, 1)))
    );
}

#[test]
fn empty_record_array_is_not_found() {
    assert_eq!(host_ip_from_route(b"[]"), (false, Err(ResolveError::NotFound)));
}

#[test]
fn multiple_records_use_first_and_warn() {
    let output = br#"[
        {"dst":"default","gateway":"10.0.0.1","dev":"eth0","flags":[]},
        {"dst":"default","gateway":"10.0.0.2","dev":"eth1","flags":[]}
    ]"#;
    assert_eq!(host_ip_from_route(output), (true, Ok(HostAddress::V4(10, 0, 0, 1))));
}

#[test]
fn non_default_destination_is_validation_error() {
    let output = br#"[{"dst":"10.0.0.0/8","gateway":"10.0.0.1","dev":"eth0","flags":[]}]"#;
    assert_eq!(host_ip_from_route(output), (false, Err(ResolveError::ValidationError)));
}

#[test]
fn missing_destination_is_validation_error() {
    let output = br#"[{"gateway":"10.0.0.1"}]"#;
    assert_eq!(host_ip_from_route(output), (false, Err(ResolveError::ValidationError)));
}

#[test]
fn missing_gateway_is_parse_error() {
    let output = br#"[{"dst":"default","dev":"eth0"}]"#;
    assert_eq!(host_ip_from_route(output), (false, Err(ResolveError::ParseError)));
}

#[test]
fn non_string_gateway_is_parse_error() {
    let output = br#"[{"dst":"default","gateway":42}]"#;
    assert_eq!(host_ip_from_route(output), (false, Err(ResolveError::ParseError)));
}

#[test]
fn unparseable_gateway_is_parse_error() {
    let output = br#"[{"dst":"default","gateway":"not-an-ip"}]"#;
    assert_eq!(host_ip_from_route(output), (false, Err(ResolveError::ParseError)));
}

#[test]
fn non_array_output_is_decode_error() {
    let output = br#"{"dst":"default","gateway":"10.0.0.1"}"#;
    assert_eq!(host_ip_from_route(output), (false, Err(ResolveError::DecodeError)));
}

#[test]
fn invalid_json_is_decode_error() {
    assert_eq!(host_ip_from_route(b"not json at all"), (false, Err(ResolveError::DecodeError)));
}

#[test]
fn v6_gateway_resolves() {
    let output = br#"[{"dst":"default","gateway":"fe80::1","dev":"eth0"}]"#;
    assert_eq!(
        host_ip_from_route(output),
        (false, Ok(HostAddress::V6(0xfe80, 0, 0, 0, 0, 0, 0, 1)))
    );
}

#[test]
fn v6_dotted_tail_gateway_resolves() {
    let output = br#"[{"dst":"default","gateway":"::ffff:10.0.0.1","dev":"eth0"}]"#;
    assert_eq!(
        host_ip_from_route(output),
        (false, Ok(HostAddress::V6(0, 0, 0, 0, 0, 0xffff, 0x0a00, 0x0001)))
    );
}

#[test]
fn fields_decision_without_json() {
    assert_eq!(route_from_fields(0, None, None), (false, Err(ResolveError::NotFound)));
    assert_eq!(
        route_from_fields(1, Some(b"default".to_vec()), Some(b"1.2.3.4".to_vec())),
        (false, Ok(HostAddress::V4(1, 2, 3, 4)))
    );
    assert_eq!(
        route_from_fields(2, Some(b"default".to_vec()), Some(b"1.2.3.4".to_vec())),
        (true, Ok(HostAddress::V4(1, 2, 3, 4)))
    );
    assert_eq!(
        route_from_fields(2, Some(b"defaulT".to_vec()), Some(b"1.2.3.4".to_vec())),
        (true, Err(ResolveError::ValidationError))
    );
    assert_eq!(
        route_from_fields(1, Some(b"default".to_vec()), None),
        (false, Err(ResolveError::ParseError))
    );
}
