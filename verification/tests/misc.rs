use cs120_project::args::{arg_parser, parse_i32, parse_usize, ArgCommand};
use cs120_project::byte_order::{push_be16, push_be32, read_be16, read_be32};
use cs120_project::checksum::{finish_checksum, sum_words, word_sum_fits_u32};
use cs120_project::number::lcm;

fn args(list: &[&str]) -> Vec<String> {
    list.iter().map(|s| s.to_string()).collect()
}

fn chars(s: &str) -> Vec<char> {
    s.chars().collect()
}

#[test]
fn least_common_multiples() {
    assert_eq!(lcm(4, 6), 12);
    assert_eq!(lcm(48000, 1000), 48000);
    assert_eq!(lcm(7, 13), 91);
    assert_eq!(lcm(0, 5), 0);
    assert_eq!(lcm(1, 1), 1);
}

#[test]
fn big_endian_words() {
    let mut v = Vec::new();
    push_be16(&mut v, 0x1234);
    push_be32(&mut v, 0xDEADBEEF);
    assert_eq!(v, vec![0x12, 0x34, 0xDE, 0xAD, 0xBE, 0xEF]);
    assert_eq!(read_be16(&v, 0), 0x1234);
    assert_eq!(read_be32(&v, 2), 0xDEADBEEF);
    assert_eq!(read_be16(&v, 3), 0xADBE);
}

#[test]
fn internet_checksum_steps() {
    assert_eq!(sum_words(&vec![0x12, 0x34, 0x56], 2), 0x1234 + 0x5600);
    assert_eq!(finish_checksum(0x1_FFFE), 0x0000);
    assert_eq!(finish_checksum(0), 0xFFFF);
    assert_eq!(finish_checksum(0x2_0001), 0xFFFC);
}

#[test]
fn numbers_are_read_like_str_parse() {
    assert_eq!(parse_i32(&chars("42")), Some(42));
    assert_eq!(parse_i32(&chars("-17")), Some(-17));
    assert_eq!(parse_i32(&chars("+8")), Some(8));
    assert_eq!(parse_i32(&chars("2147483647")), Some(i32::MAX));
    assert_eq!(parse_i32(&chars("-2147483648")), Some(i32::MIN));
    assert_eq!(parse_i32(&chars("2147483648")), None);
    assert_eq!(parse_i32(&chars("")), None);
    assert_eq!(parse_i32(&chars("-")), None);
    assert_eq!(parse_i32(&chars("1a")), None);
    assert_eq!(parse_usize(&chars("123")), Some(123));
    assert_eq!(parse_usize(&chars("+5")), Some(5));
    assert_eq!(parse_usize(&chars("-5")), None);
    assert_eq!(parse_usize(&chars("")), None);
    for s in ["0", "007", "-0", "+", "99999999999", "-2147483649", " 1"] {
        assert_eq!(parse_i32(&chars(s)), s.parse::<i32>().ok(), "{}", s);
        assert_eq!(parse_usize(&chars(s)), s.parse::<usize>().ok(), "{}", s);
    }
}

#[test]
fn no_arguments_or_help_shows_the_help() {
    assert!(matches!(arg_parser(vec![]), ArgCommand::ShowHelp));
    assert!(matches!(arg_parser(args(&["-h"])), ArgCommand::ShowHelp));
    assert!(matches!(arg_parser(args(&["-p=1", "--help"])), ArgCommand::ShowHelp));
}

#[test]
fn assignment_objective_and_type_are_read() {
    match arg_parser(args(&["-p=2", "--objective=3", "-t=ofdm"])) {
        ArgCommand::Run(pa, objective, ty) => {
            assert_eq!((pa, objective), (2, 3));
            assert_eq!(ty, "ofdm");
        }
        _ => panic!("the arguments were not read"),
    }
    match arg_parser(args(&["--pa=1"])) {
        ArgCommand::Run(pa, objective, ty) => {
            assert_eq!((pa, objective), (1, 0));
            assert_eq!(ty, "");
        }
        _ => panic!("the arguments were not read"),
    }
}

#[test]
fn later_arguments_override_earlier_ones() {
    match arg_parser(args(&["-p=1", "-p=2", "--type=a=b"])) {
        ArgCommand::Run(pa, _, ty) => {
            assert_eq!(pa, 2);
            assert_eq!(ty, "a");
        }
        _ => panic!("the arguments were not read"),
    }
}

#[test]
fn bad_numbers_and_unknown_arguments_are_reported() {
    assert!(matches!(arg_parser(args(&["-p=x"])), ArgCommand::InvalidPa));
    assert!(matches!(arg_parser(args(&["-o="])), ArgCommand::InvalidObjective));
    assert!(matches!(arg_parser(args(&["--verbose"])), ArgCommand::InvalidArgument));
    assert!(matches!(arg_parser(args(&["-p=1", "-x"])), ArgCommand::InvalidArgument));
}

#[test]
fn devices_and_generation() {
    assert!(matches!(arg_parser(args(&["--device"])), ArgCommand::ShowDevices));
    assert!(matches!(arg_parser(args(&["-g"])), ArgCommand::Generate(10000)));
    assert!(matches!(arg_parser(args(&["-g=500"])), ArgCommand::Generate(500)));
    assert!(matches!(arg_parser(args(&["--generate=abc"])), ArgCommand::Generate(10000)));
    assert!(matches!(arg_parser(args(&["-p=1", "-g=7", "-x"])), ArgCommand::Generate(7)));
}

#[test]
fn word_sums_within_32_bits() {
    assert!(word_sum_fits_u32(&vec![0xFF; 10], 5));
    let big = vec![0xFF; 2 * 65538];
    assert!(word_sum_fits_u32(&big, 65537));
    assert!(!word_sum_fits_u32(&big, 65538));
}
