use rsquake::options::{parse_u32, Options};

fn options(args: &[&str]) -> Options {
    Options::with_args(args.iter().map(|a| a.to_string()).collect())
}

#[test]
fn test_parse_args() {
    let options = Options::with_args(vec!["-windowed".into(), "-alpha".into(), "50".into()]);
    let windowed = options.is_set("-windowed");
    assert_eq!(windowed, true);
    let alpha: Option<u32> = options.check_param("-alpha");
    assert_eq!(alpha, Some(50));
}

#[test]
fn absent_flag_is_not_set() {
    let options = options(&["-windowed"]);
    assert!(!options.is_set("-debug"));
    assert_eq!(options.check_param("-debug"), None);
}

#[test]
fn flag_without_a_parameter_yields_none() {
    let options = options(&["-width"]);
    assert_eq!(options.check_param("-width"), None);
}

#[test]
fn another_option_is_not_a_parameter() {
    let options = options(&["-width", "-height", "600"]);
    assert_eq!(options.check_param("-width"), None);
    assert_eq!(options.check_param("-height"), Some(600));
}

#[test]
fn unparsable_parameter_yields_none() {
    let options = options(&["-width", "eight"]);
    assert_eq!(options.check_param("-width"), None);
}

#[test]
fn first_occurrence_of_a_flag_wins() {
    let options = options(&["-width", "800", "-width", "1024"]);
    assert_eq!(options.check_param("-width"), Some(800));
}

#[test]
fn parse_u32_accepts_plain_and_signed_digits() {
    assert_eq!(parse_u32("0"), Some(0));
    assert_eq!(parse_u32("50"), Some(50));
    assert_eq!(parse_u32("+50"), Some(50));
    assert_eq!(parse_u32("4294967295"), Some(u32::MAX));
}

#[test]
fn parse_u32_rejects_bad_input() {
    assert_eq!(parse_u32(""), None);
    assert_eq!(parse_u32("+"), None);
    assert_eq!(parse_u32("-50"), None);
    assert_eq!(parse_u32("5x0"), None);
    assert_eq!(parse_u32("4294967296"), None);
    assert_eq!(parse_u32("99999999999999999999"), None);
}
