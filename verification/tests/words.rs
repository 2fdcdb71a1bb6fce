use largest_files::pretty::pretty_listing;
use largest_files::FileInfo;

fn words(num: i128) -> String {
    FileInfo::convert_bytes_to_pretty_string(num)
}

#[test]
fn one_and_a_half_megabytes() {
    assert_eq!(words(1500000), "1.50 MB");
}

#[test]
fn negative_count_shows_its_magnitude_behind_a_minus() {
    assert_eq!(words(-2048), "-2.05 kB");
}

#[test]
fn zero_bytes() {
    assert_eq!(words(0), "0 B");
}

#[test]
fn bytes_below_a_thousand() {
    assert_eq!(words(1), "1.00 B");
    assert_eq!(words(5), "5.00 B");
    assert_eq!(words(42), "42.00 B");
    assert_eq!(words(999), "999.00 B");
    assert_eq!(words(-1), "-1.00 B");
}

#[test]
fn each_unit_starts_at_its_power_of_a_thousand() {
    assert_eq!(words(1_000), "1.00 kB");
    assert_eq!(words(1_000_000), "1.00 MB");
    assert_eq!(words(1_000_000_000), "1.00 GB");
    assert_eq!(words(1_000_000_000_000), "1.00 TB");
    assert_eq!(words(1_000_000_000_000_000), "1.00 PB");
    assert_eq!(words(1_000_000_000_000_000_000), "1.00 EB");
    assert_eq!(words(1_000_000_000_000_000_000_000), "1.00 ZB");
    assert_eq!(words(1_000_000_000_000_000_000_000_000), "1.00 YB");
}

#[test]
fn count_just_below_a_unit_stays_in_the_unit_before() {
    assert_eq!(words(999_994), "999.99 kB");
    assert_eq!(words(999_995), "1000.00 kB");
    assert_eq!(words(999_999), "1000.00 kB");
    assert_eq!(words(999_999_999_999), "1000.00 GB");
}

#[test]
fn hundredths_are_rounded_to_the_nearest() {
    assert_eq!(words(1_234), "1.23 kB");
    assert_eq!(words(1_236), "1.24 kB");
    assert_eq!(words(2_048), "2.05 kB");
    assert_eq!(words(1_004), "1.00 kB");
    assert_eq!(words(1_005), "1.01 kB");
    assert_eq!(words(1_015), "1.02 kB");
    assert_eq!(words(-1_005), "-1.01 kB");
    assert_eq!(words(1_994_999), "1.99 MB");
    assert_eq!(words(1_995_000), "2.00 MB");
}

#[test]
fn tenths_keep_their_zero() {
    assert_eq!(words(1_500), "1.50 kB");
    assert_eq!(words(10_000), "10.00 kB");
    assert_eq!(words(10_010), "10.01 kB");
    assert_eq!(words(100_100), "100.10 kB");
}

#[test]
fn largest_unit_takes_all_that_is_above() {
    assert_eq!(words(1_000_000_000_000_000_000_000_000_000), "1000.00 YB");
    assert_eq!(words(123_456_789_000_000_000_000_000_000_000), "123456.79 YB");
}

#[test]
fn largest_file_size() {
    assert_eq!(words(u64::MAX as i128), "18.45 EB");
}

#[test]
fn ends_of_the_range() {
    assert_eq!(words(i128::MAX), "170141183460469.23 YB");
    assert_eq!(words(i128::MIN), "-170141183460469.23 YB");
}

#[test]
fn same_count_gives_the_same_words() {
    for num in [0i128, 1, 999, 1000, 1_500_000, -2048, u64::MAX as i128, i128::MIN] {
        assert_eq!(words(num), words(num));
    }
}

#[test]
fn description_has_name_path_and_size() {
    let file = FileInfo::new("movie.mkv".to_string(), 1_500_000, "/films/movie.mkv".to_string());
    assert_eq!(
        file.pretty_print(),
        "File Name: movie.mkv\nFile Path: /films/movie.mkv\nFile size: 1.50 MB\n"
    );
}

#[test]
fn description_of_an_empty_file() {
    let file = FileInfo::new("nil".to_string(), 0, "nil".to_string());
    assert_eq!(file.pretty_print(), "File Name: nil\nFile Path: nil\nFile size: 0 B\n");
}

#[test]
fn listing_numbers_the_files_from_one() {
    let files = vec![
        FileInfo::new("a".to_string(), 2_000, "/a".to_string()),
        FileInfo::new("b".to_string(), 10, "/b".to_string()),
    ];
    let rule = "---------------------------------------\n";
    let expected = format!(
        "File Number: 1\nFile Name: a\nFile Path: /a\nFile size: 2.00 kB\n{}File Number: 2\nFile Name: b\nFile Path: /b\nFile size: 10.00 B\n{}",
        rule, rule
    );
    assert_eq!(pretty_listing(&files), expected);
}

#[test]
fn listing_of_nothing_is_empty() {
    assert_eq!(pretty_listing(&Vec::new()), "");
}

#[test]
fn listing_counts_past_nine() {
    let mut files = Vec::new();
    for i in 0..12 {
        files.push(FileInfo::new(format!("f{}", i), 1, format!("/f{}", i)));
    }
    let text = pretty_listing(&files);
    assert!(text.contains("File Number: 9\n"));
    assert!(text.contains("File Number: 10\n"));
    assert!(text.contains("File Number: 12\n"));
    assert!(!text.contains("File Number: 13\n"));
    assert!(!text.contains("File Number: 0\n"));
}
