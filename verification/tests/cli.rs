use ip_sniffer::addr::IpAddress;
use ip_sniffer::args::{bytes_contains, parse_arguments, parse_u16, ArgError};
use ip_sniffer::config::{ConfigError, ScanConfig};

fn to_args(parts: &[&str]) -> Vec<Vec<u8>> {
    parts.iter().map(|p| p.as_bytes().to_vec()).collect()
}

fn loopback() -> Option<IpAddress> {
    Some(IpAddress::V4(127, 0, 0, 1))
}

#[test]
fn not_enough_arguments() {
    let r = parse_arguments(&to_args(&["program"]), None);
    assert_eq!(r, Err(ArgError::NotEnoughArguments));
}

#[test]
fn too_many_arguments() {
    let args = to_args(&["program", "127.0.0.1", "-p", "1", "10", "extra"]);
    let r = parse_arguments(&args, loopback());
    assert_eq!(r, Err(ArgError::TooManyArguments));
}

#[test]
fn help_flag_alone() {
    let r = parse_arguments(&to_args(&["program", "-h"]), None);
    assert_eq!(r, Err(ArgError::Help));
    let r = parse_arguments(&to_args(&["program", "-help"]), None);
    assert_eq!(r, Err(ArgError::Help));
}

#[test]
fn help_flag_with_extra_arguments() {
    let r = parse_arguments(&to_args(&["program", "-h", "127.0.0.1"]), None);
    assert_eq!(r, Err(ArgError::TooManyArguments));
}

#[test]
fn invalid_ip_address() {
    let r = parse_arguments(&to_args(&["program", "not-an-ip"]), None);
    assert_eq!(r, Err(ArgError::InvalidIpAddress));
}

#[test]
fn defaults_full_range_four_workers() {
    let r = parse_arguments(&to_args(&["program", "127.0.0.1"]), loopback());
    let c = r.unwrap();
    assert_eq!(c.target, IpAddress::V4(127, 0, 0, 1));
    assert_eq!(c.start_port, 1);
    assert_eq!(c.end_port, 65535);
    assert_eq!(c.worker_count, 4);
}

#[test]
fn thread_flag_sets_worker_count() {
    let args = to_args(&["program", "127.0.0.1", "-j", "8"]);
    let c = parse_arguments(&args, loopback()).unwrap();
    assert_eq!(c.worker_count, 8);
    assert_eq!(c.start_port, 1);
    assert_eq!(c.end_port, 65535);
}

#[test]
fn thread_flag_rejects_zero_and_garbage() {
    let args = to_args(&["program", "127.0.0.1", "-j", "0"]);
    assert_eq!(parse_arguments(&args, loopback()), Err(ArgError::InvalidThreadCount));
    let args = to_args(&["program", "127.0.0.1", "-j", "abc"]);
    assert_eq!(parse_arguments(&args, loopback()), Err(ArgError::InvalidThreadCount));
    let args = to_args(&["program", "127.0.0.1", "-j"]);
    assert_eq!(parse_arguments(&args, loopback()), Err(ArgError::MissingThreadCount));
}

#[test]
fn port_flag_sets_range() {
    let args = to_args(&["program", "127.0.0.1", "-p", "80", "90"]);
    let c = parse_arguments(&args, loopback()).unwrap();
    assert_eq!(c.start_port, 80);
    assert_eq!(c.end_port, 90);
    assert_eq!(c.worker_count, 4);
}

#[test]
fn port_flag_missing_or_garbled_bounds() {
    let args = to_args(&["program", "127.0.0.1", "-p"]);
    assert_eq!(parse_arguments(&args, loopback()), Err(ArgError::MissingStartPort));
    let args = to_args(&["program", "127.0.0.1", "-p", "80"]);
    assert_eq!(parse_arguments(&args, loopback()), Err(ArgError::MissingEndPort));
    let args = to_args(&["program", "127.0.0.1", "-p", "eighty", "90"]);
    assert_eq!(parse_arguments(&args, loopback()), Err(ArgError::InvalidStartPort));
    let args = to_args(&["program", "127.0.0.1", "-p", "80", "ninety"]);
    assert_eq!(parse_arguments(&args, loopback()), Err(ArgError::InvalidEndPort));
}

#[test]
fn port_flag_rejects_bounds_past_u16() {
    let args = to_args(&["program", "127.0.0.1", "-p", "1", "65536"]);
    assert_eq!(parse_arguments(&args, loopback()), Err(ArgError::InvalidEndPort));
}

#[test]
fn inverted_range_rejected_before_any_scan() {
    let args = to_args(&["program", "127.0.0.1", "-p", "5000", "4000"]);
    assert_eq!(parse_arguments(&args, loopback()), Err(ArgError::PortRangeOutOfBounds));
}

#[test]
fn config_constructor_validates() {
    let lo = IpAddress::V4(127, 0, 0, 1);
    let c = ScanConfig::new(lo, 80, 90, 2).unwrap();
    assert_eq!((c.start_port, c.end_port, c.worker_count), (80, 90, 2));
    assert_eq!(ScanConfig::new(lo, 5000, 4000, 2), Err(ConfigError::PortRangeOutOfBounds));
    assert_eq!(ScanConfig::new(lo, 0, 10, 2), Err(ConfigError::PortRangeOutOfBounds));
    assert_eq!(ScanConfig::new(lo, 1, 10, 0), Err(ConfigError::ZeroWorkerCount));
}

#[test]
fn parse_u16_accepts_decimal_texts() {
    assert_eq!(parse_u16(&b"0".to_vec()), Some(0));
    assert_eq!(parse_u16(&b"65535".to_vec()), Some(65535));
    assert_eq!(parse_u16(&b"+123".to_vec()), Some(123));
    assert_eq!(parse_u16(&b"007".to_vec()), Some(7));
    assert_eq!(parse_u16(&b"0000000000000042".to_vec()), Some(42));
}

#[test]
fn parse_u16_rejects_non_numbers() {
    assert_eq!(parse_u16(&b"".to_vec()), None);
    assert_eq!(parse_u16(&b"+".to_vec()), None);
    assert_eq!(parse_u16(&b"65536".to_vec()), None);
    assert_eq!(parse_u16(&b"99999999999999999999".to_vec()), None);
    assert_eq!(parse_u16(&b"12a".to_vec()), None);
    assert_eq!(parse_u16(&b"-1".to_vec()), None);
    assert_eq!(parse_u16(&b" 1".to_vec()), None);
}

#[test]
fn substring_search_matches_flag_tests() {
    assert!(bytes_contains(&b"-help".to_vec(), &b"-h".to_vec()));
    assert!(bytes_contains(&b"x-h".to_vec(), &b"-h".to_vec()));
    assert!(!bytes_contains(&b"127.0.0.1".to_vec(), &b"-h".to_vec()));
    assert!(bytes_contains(&b"abc".to_vec(), &b"".to_vec()));
    assert!(!bytes_contains(&b"-h".to_vec(), &b"-help".to_vec()));
}

#[test]
fn flag_anywhere_in_argument_counts() {
    // Flags match by substring, not by equality: an argument that merely
    // contains "-h" is taken as the help request.
    let r = parse_arguments(&to_args(&["program", "127.0.0.1-h"]), None);
    assert_eq!(r, Err(ArgError::Help));
    let r2 = parse_arguments(&to_args(&["program", "x-h", "y"]), None);
    assert_eq!(r2, Err(ArgError::TooManyArguments));
}
