use x11_host_probe::errors::ResolveError;
use x11_host_probe::ip::HostAddress;
use x11_host_probe::resolv::host_ip_from_resolv_conf;

#[test]
fn first_nameserver_line_wins() {
    let contents = b"# generated\nsearch example.test\nnameserver 172.30.192.1\nnameserver 10.0.0.2\n";
    assert_eq!(
        host_ip_from_resolv_conf(contents),
        Ok(HostAddress::V4(172, 30, 192, 1))
    );
}

#[test]
fn nameserver_after_other_directives() {
    let contents = b"options edns0\n\n   nameserver\t8.8.4.4   \n";
    assert_eq!(host_ip_from_resolv_conf(contents), Ok(HostAddress::V4(8, 8, 4, 4)));
}

#[test]
fn nameserver_crlf_line_endings() {
    let contents = b"search lan\r\nnameserver 192.168.0.1\r\n";
    assert_eq!(
        host_ip_from_resolv_conf(contents),
        Ok(HostAddress::V4(192, 168, 0, 1))
    );
}

#[test]
fn no_nameserver_line_is_not_found() {
    let contents = b"# nothing here\nsearch example.test\noptions rotate\n";
    assert_eq!(host_ip_from_resolv_conf(contents), Err(ResolveError::NotFound));
}

#[test]
fn empty_contents_is_not_found() {
    assert_eq!(host_ip_from_resolv_conf(b""), Err(ResolveError::NotFound));
}

#[test]
fn nameserver_without_address_is_not_found() {
    let contents = b"nameserver\nsearch example.test\n";
    assert_eq!(host_ip_from_resolv_conf(contents), Err(ResolveError::NotFound));
}

#[test]
fn nameserver_keyword_must_be_first_token() {
    let contents = b"x nameserver 1.2.3.4\n";
    assert_eq!(host_ip_from_resolv_conf(contents), Err(ResolveError::NotFound));
}

#[test]
fn bad_address_token_is_parse_error() {
    let contents = b"nameserver not-an-address\n";
    assert_eq!(host_ip_from_resolv_conf(contents), Err(ResolveError::ParseError));
}

#[test]
fn first_match_is_taken_even_if_invalid() {
    // First-match-wins also means a broken first entry is not skipped.
    let contents = b"nameserver 999.1.1.1\nnameserver 1.1.1.1\n";
    assert_eq!(host_ip_from_resolv_conf(contents), Err(ResolveError::ParseError));
}

#[test]
fn invalid_utf8_is_decode_error() {
    let contents = b"nameserver 1.2.3.4\n\xff\xfe";
    assert_eq!(host_ip_from_resolv_conf(contents), Err(ResolveError::DecodeError));
}

#[test]
fn nameserver_v6_address() {
    let contents = b"nameserver fe80::1\n";
    assert_eq!(
        host_ip_from_resolv_conf(contents),
        Ok(HostAddress::V6(0xfe80, 0, 0, 0, 0, 0, 0, 1))
    );
}
