use x11_host_probe::display_port;
use x11_host_probe::errors::ResolveError;
use x11_host_probe::errors::ProbeOutcome;
use x11_host_probe::ip::HostAddress;
use x11_host_probe::probe::simulate_probe;
use x11_host_probe::probe::AttemptOutcome;
use x11_host_probe::render::render_display;
use x11_host_probe::report;
use x11_host_probe::run_decision;
use x11_host_probe::resolv::host_ip_from_resolv_conf;
use x11_host_probe::EXIT_ABSENT;
use x11_host_probe::EXIT_FAILURE;
use x11_host_probe::EXIT_SUCCESS;

#[test]
fn display_port_maps_display_number() {
    assert_eq!(display_port(0), Some(6000));
    assert_eq!(display_port(1), Some(6001));
    assert_eq!(display_port(59535), Some(65535));
}

#[test]
fn display_port_overflow_fails_not_wraps() {
    assert_eq!(display_port(65535), None);
    assert_eq!(display_port(59536), None);
}

#[test]
fn render_display_formats_address_and_number() {
    assert_eq!(render_display(&HostAddress::V4(172, 30, 192, 1), 1), "172.30.192.1:1");
    assert_eq!(render_display(&HostAddress::V4(10, 0, 0, 1), 65000), "10.0.0.1:65000");
    assert_eq!(
        render_display(&HostAddress::V6(0, 0, 0, 0, 0, 0, 0, 1), 0),
        "0:0:0:0:0:0:0:1:0"
    );
}

#[test]
fn report_maps_outcomes_to_output_and_exit_code() {
    let a = HostAddress::V4(172, 30, 192, 1);
    let (out, code) = report(&ProbeOutcome::Reachable, &a, 1);
    assert_eq!(out, Some(String::from("172.30.192.1:1")));
    assert_eq!(code, EXIT_SUCCESS);

    let (out, code) = report(&ProbeOutcome::Unreachable, &a, 1);
    assert_eq!(out, None);
    assert_eq!(code, EXIT_ABSENT);

    let (out, code) = report(&ProbeOutcome::Error(String::from("boom")), &a, 1);
    assert_eq!(out, None);
    assert_eq!(code, EXIT_FAILURE);
}

#[test]
fn run_decision_end_to_end() {
    // Listener on port 6001 at the resolved host: print the display, exit 0.
    let host = host_ip_from_resolv_conf(b"nameserver 172.30.192.1\n");
    let (out, code) = run_decision(host, 1, vec![AttemptOutcome::Connected], 1);
    assert_eq!(out, Some(String::from("172.30.192.1:1")));
    assert_eq!(code, EXIT_SUCCESS);

    // Nothing listening, refused at once with one retry: absent, empty stdout.
    let host = host_ip_from_resolv_conf(b"nameserver 172.30.192.1\n");
    let (out, code) = run_decision(host, 1, vec![AttemptOutcome::Refused], 1);
    assert_eq!(out, None);
    assert_eq!(code, EXIT_ABSENT);

    // A resolver failure is a hard failure.
    let (out, code) = run_decision(
        Err(ResolveError::NotFound),
        1,
        vec![AttemptOutcome::Connected],
        1,
    );
    assert_eq!(out, None);
    assert_eq!(code, EXIT_FAILURE);

    // A display number past the port space is a hard failure, not a wrap.
    let host = host_ip_from_resolv_conf(b"nameserver 172.30.192.1\n");
    let (out, code) = run_decision(host, 65535, vec![AttemptOutcome::Connected], 1);
    assert_eq!(out, None);
    assert_eq!(code, EXIT_FAILURE);
}

#[test]
fn pipeline_listener_present_prints_display() {
    // The whole decision pipeline for a host that accepts on port 6001.
    let host = host_ip_from_resolv_conf(b"nameserver 172.30.192.1\n").unwrap();
    assert_eq!(host, HostAddress::V4(172, 30, 192, 1));
    let port = display_port(1).unwrap();
    assert_eq!(port, 6001);
    let (outcome, attempts, delays) = simulate_probe(vec![AttemptOutcome::Connected], 1);
    assert!(matches!(outcome, ProbeOutcome::Reachable));
    assert_eq!((attempts, delays), (1, 0));
    let (out, code) = report(&outcome, &host, 1);
    assert_eq!(out, Some(String::from("172.30.192.1:1")));
    assert_eq!(code, 0);
}

#[test]
fn pipeline_nothing_listening_exits_absent() {
    // Same setup, but the one connection attempt is refused at once.
    let host = host_ip_from_resolv_conf(b"nameserver 172.30.192.1\n").unwrap();
    let (outcome, attempts, delays) = simulate_probe(vec![AttemptOutcome::Refused], 1);
    assert!(matches!(outcome, ProbeOutcome::Unreachable));
    assert_eq!((attempts, delays), (1, 0));
    let (out, code) = report(&outcome, &host, 1);
    assert_eq!(out, None);
    assert_eq!(code, EXIT_ABSENT);
}
