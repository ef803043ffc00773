use buruma::hosts::{validate_host, HostProvider};
use buruma::paths::validate_path;

#[test]
fn valid_paths_pass() {
    assert!(validate_path("/").is_ok());
    assert!(validate_path("/a").is_ok());
    assert!(validate_path("/a/b/c").is_ok());
}

#[test]
fn invalid_paths_fail_before_any_request() {
    assert!(validate_path("").is_err());
    assert!(validate_path("no-slash").is_err());
    assert!(validate_path("/trailing/").is_err());
    assert!(validate_path("/bad\u{1}").is_err());
    assert!(validate_path("/bad\u{7f}").is_err());
    assert!(validate_path("/bad\u{e000}").is_err());
    assert!(validate_path("/bad\u{fff0}").is_err());
}

#[test]
fn endpoints_validate() {
    assert!(validate_host("1.2.3.4:2181").is_ok());
    assert!(validate_host("example.com:2181").is_ok());
    // a numeric label over 255 is a bad octet
    assert!(validate_host("1.2.3.400:2181").is_err());
    // the port must be in range and numeric
    assert!(validate_host("1.2.3.4:0").is_err());
    assert!(validate_host("1.2.3.4:70000").is_err());
    assert!(validate_host("1.2.3.4:abc").is_err());
    // exactly one colon
    assert!(validate_host("1.2.3.4").is_err());
    assert!(validate_host("a:1:2").is_err());
    // a mixed name is an opaque hostname, not a bad address
    assert!(validate_host("node300.rack:2181").is_ok());
}

#[test]
fn host_provider_rotates_and_extracts_chroot() {
    let (mut hp, chroot) = HostProvider::new("1.2.3.4:2181,5.6.7.8:2181/svc").unwrap();
    assert_eq!(chroot, "/svc");
    assert_eq!(hp.pick_host(), "1.2.3.4:2181");
    assert_eq!(hp.pick_host(), "5.6.7.8:2181");
    assert_eq!(hp.pick_host(), "1.2.3.4:2181");
    assert_eq!(hp.pick_host(), "5.6.7.8:2181");
}

#[test]
fn connect_string_without_chroot_means_root() {
    let (mut hp, chroot) = HostProvider::new("127.0.0.1:2181").unwrap();
    assert_eq!(chroot, "/");
    assert_eq!(hp.pick_host(), "127.0.0.1:2181");
}

#[test]
fn bad_connect_strings_are_refused() {
    assert!(HostProvider::new("a:1/b/c").is_err());
    assert!(HostProvider::new("1.2.3.4:0").is_err());
    assert!(HostProvider::new("1.2.3.4:2181,bad").is_err());
}
