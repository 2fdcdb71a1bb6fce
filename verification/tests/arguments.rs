use largest_files::args::{parse_dir, parse_number_of_files, DEFAULT_NUMBER_OF_FILES};

fn line(args: &[&str]) -> Vec<String> {
    let mut out = Vec::new();
    for arg in args {
        out.push(arg.to_string());
    }
    out
}

fn count(text: &str) -> usize {
    parse_number_of_files(&line(&["largest", "/tmp", text]))
}

#[test]
fn default_is_ten() {
    assert_eq!(DEFAULT_NUMBER_OF_FILES, 10);
}

#[test]
fn number_defaults_where_none_is_given() {
    assert_eq!(parse_number_of_files(&line(&[])), 10);
    assert_eq!(parse_number_of_files(&line(&["largest"])), 10);
    assert_eq!(parse_number_of_files(&line(&["largest", "/tmp"])), 10);
}

#[test]
fn number_is_read_from_the_third_argument() {
    assert_eq!(count("1"), 1);
    assert_eq!(count("5"), 5);
    assert_eq!(count("10"), 10);
    assert_eq!(count("25"), 25);
    assert_eq!(count("1000000"), 1_000_000);
    assert_eq!(parse_number_of_files(&line(&["largest", "/tmp", "3", "9"])), 3);
}

#[test]
fn number_may_have_a_plus_sign_and_leading_zeros() {
    assert_eq!(count("+7"), 7);
    assert_eq!(count("007"), 7);
    assert_eq!(count("+007"), 7);
    assert_eq!(count("0000000000000000000000000000012"), 12);
}

#[test]
fn zero_is_no_number_of_files() {
    assert_eq!(count("0"), 10);
    assert_eq!(count("+0"), 10);
    assert_eq!(count("000"), 10);
}

#[test]
fn number_defaults_where_the_argument_writes_none() {
    for text in ["", "+", "-", "-3", "abc", "12a", "a12", "1 2", " 5", "5 ", "1.5", "++5", "5+", "0x10", "１２"] {
        assert_eq!(count(text), 10, "argument {:?}", text);
    }
}

#[test]
fn number_agrees_with_the_standard_parser() {
    for text in ["1", "+1", "99", "0", "-0", "", "+", "x", "18446744073709551615", "18446744073709551616", "99999999999999999999999"] {
        let expected = match text.parse::<usize>() {
            Ok(n) if n >= 1 => n,
            _ => 10,
        };
        assert_eq!(count(text), expected, "argument {:?}", text);
    }
}

#[test]
fn largest_number_the_machine_holds_is_read() {
    assert_eq!(count(&usize::MAX.to_string()), usize::MAX);
}

#[test]
fn number_too_large_for_the_machine_defaults() {
    let mut text = usize::MAX.to_string();
    text.push('0');
    assert_eq!(count(&text), 10);
    let above = (usize::MAX as u128 + 1).to_string();
    assert_eq!(count(&above), 10);
}

#[test]
fn directory_defaults_to_the_current_one() {
    assert_eq!(parse_dir(&line(&[])), "./");
    assert_eq!(parse_dir(&line(&["largest"])), "./");
}

#[test]
fn directory_is_the_second_argument() {
    assert_eq!(parse_dir(&line(&["largest", "/var/log"])), "/var/log");
    assert_eq!(parse_dir(&line(&["largest", "relative/dir", "5"])), "relative/dir");
    assert_eq!(parse_dir(&line(&["largest", ""])), "");
}
