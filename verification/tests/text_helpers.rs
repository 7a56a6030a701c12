use l4s_bench::text::{
    decimal_string, parse_hex_u16, parse_i32, parse_u16, parse_u32, parse_u64,
    split_by_char, split_whitespace_chars, string_from_chars, trim_chars, IntErrorKind,
};

fn cs(s: &str) -> Vec<char> {
    s.chars().collect()
}

#[test]
fn decimal_notation() {
    assert_eq!(decimal_string(0), "0");
    assert_eq!(decimal_string(7), "7");
    assert_eq!(decimal_string(1234567890), "1234567890");
    assert_eq!(decimal_string(u128::MAX), u128::MAX.to_string());
}

#[test]
fn joining_strings() {
    use_weights_label(&[1, 22, 333], "1-22-333");
    use_weights_label(&[7], "7");
}

// The label of mismatched weights joins them with dashes.
fn use_weights_label(weights: &[u32], expected: &str) {
    let groups = vec![vec!["a".to_string()]; weights.len() + 1];
    let counts = vec![0; weights.len()];
    match l4s_bench::generate::update_recursive(&weights.to_vec(), &counts, &groups) {
        Err(l4s_bench::generate::GenerationError::InvalidWeights(label, _, _)) => assert_eq!(label, expected),
        Ok(_) => panic!("expected an error"),
    }
}

#[test]
fn chars_back_to_string() {
    assert_eq!(string_from_chars(&cs("héllo")), "héllo");
    assert_eq!(string_from_chars(&[]), "");
}

#[test]
fn integer_parsing_matches_std() {
    assert_eq!(parse_u16(&cs("65535")), Ok(65535));
    assert_eq!(parse_u16(&cs("65536")), Err(IntErrorKind::PosOverflow));
    assert_eq!(parse_u16(&cs("+7")), Ok(7));
    assert_eq!(parse_u16(&cs("+")), Err(IntErrorKind::InvalidDigit));
    assert_eq!(parse_u16(&cs("")), Err(IntErrorKind::Empty));
    assert_eq!(parse_u32(&cs("4294967295")), Ok(u32::MAX));
    assert_eq!(parse_u64(&cs("18446744073709551615")), Ok(u64::MAX));
    assert_eq!(parse_u64(&cs("1a")), Err(IntErrorKind::InvalidDigit));
    assert_eq!(parse_hex_u16(&cs("1F90")), Ok(8080));
    assert_eq!(parse_hex_u16(&cs("1f90")), Ok(8080));
    assert_eq!(parse_i32(&cs("-2147483648")), Ok(i32::MIN));
    assert_eq!(parse_i32(&cs("-2147483649")), Err(IntErrorKind::NegOverflow));
    assert_eq!(parse_i32(&cs("2147483648")), Err(IntErrorKind::PosOverflow));
    assert_eq!(parse_i32(&cs("-")), Err(IntErrorKind::InvalidDigit));
    for s in ["0", "12", "+3", "-4", "99999", "x", "", "65535", "65536"] {
        assert_eq!(parse_u16(&cs(s)).ok(), s.parse::<u16>().ok());
        assert_eq!(parse_i32(&cs(s)).ok(), s.parse::<i32>().ok());
    }
}

#[test]
fn splitting_and_trimming() {
    let pieces: Vec<String> = split_by_char(&cs("a,,b,"), ',').iter().map(|p| p.iter().collect()).collect();
    assert_eq!(pieces, vec!["a", "", "b", ""]);
    let words: Vec<String> = split_whitespace_chars(&cs("  a  b\tc \n")).iter().map(|p| p.iter().collect()).collect();
    assert_eq!(words, vec!["a", "b", "c"]);
    let t: String = trim_chars(&cs(" \t x y \n")).iter().collect();
    assert_eq!(t, "x y");
}
