use stow::size::{parse_size, SizeParseError};

#[test]
fn kilo_is_1024_bytes() {
    assert_eq!(parse_size("1K"), Ok(1024));
    assert_eq!(parse_size("512K"), Ok(524_288));
    assert_eq!(parse_size("0K"), Ok(0));
}

#[test]
fn mega_is_1024_kilo() {
    assert_eq!(parse_size("1M"), Ok(1_048_576));
    assert_eq!(parse_size("3M"), Ok(3_145_728));
    assert_eq!(parse_size("007M"), Ok(7_340_032));
    assert_eq!(parse_size("0M"), Ok(0));
}

#[test]
fn giga_is_1024_mega() {
    assert_eq!(parse_size("1G"), Ok(1_073_741_824));
    assert_eq!(parse_size("2G"), Ok(2_147_483_648));
    assert_eq!(parse_size("0G"), Ok(0));
}

#[test]
fn default_size_is_one_mega() {
    assert_eq!(parse_size("1M"), Ok(1_048_576));
    assert_eq!(parse_size("1M"), parse_size("1024K"));
    assert_eq!(parse_size("1G"), parse_size("1024M"));
}

#[test]
fn a_plus_sign_may_precede_the_number() {
    assert_eq!(parse_size("+5K"), Ok(5 * 1024));
    assert_eq!(parse_size("+12M"), Ok(12 * 1024 * 1024));
}

#[test]
fn empty_text_is_refused() {
    assert_eq!(parse_size(""), Err(SizeParseError));
}

#[test]
fn a_unit_without_a_number_is_refused() {
    assert_eq!(parse_size("K"), Err(SizeParseError));
    assert_eq!(parse_size("+K"), Err(SizeParseError));
    assert_eq!(parse_size("M"), Err(SizeParseError));
}

#[test]
fn a_number_without_a_unit_is_refused() {
    assert_eq!(parse_size("12"), Err(SizeParseError));
    assert_eq!(parse_size("1"), Err(SizeParseError));
}

#[test]
fn unknown_units_are_refused() {
    assert_eq!(parse_size("1X"), Err(SizeParseError));
    assert_eq!(parse_size("1k"), Err(SizeParseError));
    assert_eq!(parse_size("1m"), Err(SizeParseError));
    assert_eq!(parse_size("1T"), Err(SizeParseError));
    assert_eq!(parse_size("1\u{1e30}"), Err(SizeParseError));
}

#[test]
fn anything_but_digits_is_refused() {
    assert_eq!(parse_size("-5K"), Err(SizeParseError));
    assert_eq!(parse_size("1.5M"), Err(SizeParseError));
    assert_eq!(parse_size(" 1M"), Err(SizeParseError));
    assert_eq!(parse_size("1 M"), Err(SizeParseError));
    assert_eq!(parse_size("1_000K"), Err(SizeParseError));
    assert_eq!(parse_size("++1K"), Err(SizeParseError));
    assert_eq!(parse_size("1+K"), Err(SizeParseError));
    assert_eq!(parse_size("0x10K"), Err(SizeParseError));
    assert_eq!(parse_size("\u{0661}K"), Err(SizeParseError));
}

#[test]
fn the_largest_size_that_fits_is_read() {
    let most = usize::MAX / 1024;
    assert_eq!(parse_size(&format!("{}K", most)), Ok(most * 1024));
    assert_eq!(parse_size(&format!("{}K", most + 1)), Err(SizeParseError));
}

#[test]
fn a_number_beyond_the_word_is_refused() {
    assert_eq!(parse_size("340282366920938463463374607431768211456K"), Err(SizeParseError));
    assert_eq!(parse_size(&format!("{}K", usize::MAX)), Err(SizeParseError));
    assert_eq!(parse_size(&format!("{}0K", usize::MAX)), Err(SizeParseError));
    assert_eq!(parse_size(&format!("{}0G", usize::MAX)), Err(SizeParseError));
}

#[test]
fn a_product_beyond_the_word_is_refused() {
    let most = usize::MAX / (1024 * 1024);
    assert_eq!(parse_size(&format!("{}M", most)), Ok(most * 1024 * 1024));
    assert_eq!(parse_size(&format!("{}M", most + 1)), Err(SizeParseError));
    let most = usize::MAX / (1024 * 1024 * 1024);
    assert_eq!(parse_size(&format!("{}G", most)), Ok(most * 1024 * 1024 * 1024));
    assert_eq!(parse_size(&format!("{}G", most + 1)), Err(SizeParseError));
}

#[test]
fn the_number_is_read_as_the_standard_library_reads_it() {
    let numbers = ["0", "7", "42", "+42", "0042", "-1", "", "+", "4 2", "12a", "65536"];
    for number in numbers {
        let text = format!("{}K", number);
        let expected = number.parse::<usize>().ok().map(|n| n * 1024);
        assert_eq!(parse_size(&text).ok(), expected);
    }
}

#[test]
fn the_error_names_the_unit() {
    assert_eq!(SizeParseError.message(), "Invalid size unit");
}
