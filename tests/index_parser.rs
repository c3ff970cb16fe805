use git_navigator::index_parser::IndexParser;
use git_navigator::GitNavigatorError;
use git_navigator::Result;

#[test]
fn test_parse_single_number() -> Result<()> {
    let result = IndexParser::parse("5")?;
    assert_eq!(result, vec![5]);
    Ok(())
}

#[test]
fn test_parse_multiple_numbers() -> Result<()> {
    let result = IndexParser::parse("1 3 5")?;
    assert_eq!(result, vec![1, 3, 5]);
    Ok(())
}

#[test]
fn index_parser_test_parse_range() -> Result<()> {
    let result = IndexParser::parse("3-6")?;
    assert_eq!(result, vec![3, 4, 5, 6]);
    Ok(())
}

#[test]
fn test_parse_comma_separated() -> Result<()> {
    let result = IndexParser::parse("1,3,5")?;
    assert_eq!(result, vec![1, 3, 5]);
    Ok(())
}

#[test]
fn index_parser_test_parse_mixed_format() -> Result<()> {
    let result = IndexParser::parse("1 3-5,8")?;
    assert_eq!(result, vec![1, 3, 4, 5, 8]);
    Ok(())
}

#[test]
fn test_parse_duplicates_removed() -> Result<()> {
    let result = IndexParser::parse("1,1,2,2,3")?;
    assert_eq!(result, vec![1, 2, 3]);
    Ok(())
}

#[test]
fn test_parse_empty_input() -> Result<()> {
    let result = IndexParser::parse("")?;
    assert!(result.is_empty());
    Ok(())
}

#[test]
fn test_parse_whitespace_only() -> Result<()> {
    let result = IndexParser::parse("   ")?;
    assert!(result.is_empty());
    Ok(())
}

#[test]
fn test_parse_invalid_number() {
    let result = IndexParser::parse("abc");
    assert!(result.is_err());
    assert!(result
        .unwrap_err()
        .to_string()
        .contains("Invalid number: 'abc'"));
}

#[test]
fn test_parse_invalid_range() {
    let result = IndexParser::parse("5-3");
    assert!(result.is_err());
    assert!(result
        .unwrap_err()
        .to_string()
        .contains("start (5) must be <= end (3)"));
}

#[test]
fn test_parse_malformed_range() {
    let result = IndexParser::parse("1-2-3");
    assert!(result.is_err());
    assert!(result
        .unwrap_err()
        .to_string()
        .contains("Invalid range format"));
}

#[test]
fn test_validate_valid_indices() -> Result<()> {
    IndexParser::validate(&[1, 2, 3], 5)?;
    Ok(())
}

#[test]
fn test_validate_index_too_large() {
    let result = IndexParser::validate(&[1, 2, 6], 5);
    assert!(result.is_err());
    assert!(result
        .unwrap_err()
        .to_string()
        .contains("Index 6 is out of range (1-5 available)"));
}

#[test]
fn test_validate_zero_index() {
    let result = IndexParser::validate(&[0, 1, 2], 5);
    assert!(result.is_err());
    assert!(result
        .unwrap_err()
        .to_string()
        .contains("Index must be positive (got 0)"));
}

#[test]
fn test_validate_no_files_available() {
    let result = IndexParser::validate(&[1], 0);
    assert!(result.is_err());
    assert!(result
        .unwrap_err()
        .to_string()
        .contains("No files available to operate on"));
}

#[test]
fn parse_error_kinds_carry_the_offending_text() {
    match IndexParser::parse("5-3") {
        Err(GitNavigatorError::InvalidRangeOrder { start, end }) => {
            assert_eq!((start, end), (5, 3));
        }
        other => panic!("unexpected: {:?}", other),
    }
    match IndexParser::parse("1-2-3") {
        Err(GitNavigatorError::InvalidRangeFormat { range }) => assert_eq!(range, "1-2-3"),
        other => panic!("unexpected: {:?}", other),
    }
    match IndexParser::parse("abc") {
        Err(GitNavigatorError::InvalidNumber { number }) => assert_eq!(number, "abc"),
        other => panic!("unexpected: {:?}", other),
    }
    match IndexParser::parse("2-x") {
        Err(GitNavigatorError::InvalidRangeNumber { number }) => assert_eq!(number, "x"),
        other => panic!("unexpected: {:?}", other),
    }
    match IndexParser::parse("-4") {
        Err(GitNavigatorError::InvalidRangeNumber { number }) => assert_eq!(number, ""),
        other => panic!("unexpected: {:?}", other),
    }
}

#[test]
fn first_bad_token_decides_the_error() {
    match IndexParser::parse("1 abc 5-3") {
        Err(GitNavigatorError::InvalidNumber { number }) => assert_eq!(number, "abc"),
        other => panic!("unexpected: {:?}", other),
    }
}

#[test]
fn separators_and_whitespace_around_tokens() {
    assert_eq!(IndexParser::parse(" 1,, 3 ,\t4\t").unwrap(), vec![1, 3, 4]);
    assert_eq!(IndexParser::parse("+7").unwrap(), vec![7]);
    assert_eq!(IndexParser::parse("2-2").unwrap(), vec![2]);
    assert_eq!(IndexParser::parse("0").unwrap(), vec![0]);
}

#[test]
fn numbers_beyond_usize_are_rejected() {
    let big = "18446744073709551616";
    match IndexParser::parse(big) {
        Err(GitNavigatorError::InvalidNumber { number }) => assert_eq!(number, big),
        other => panic!("unexpected: {:?}", other),
    }
    assert_eq!(
        IndexParser::parse("18446744073709551615").unwrap(),
        vec![usize::MAX]
    );
}

#[test]
fn reparsing_the_joined_result_gives_the_same_set() {
    for expr in ["1 3-5,8", "9,2,2,7-8", "", "4"] {
        let first = IndexParser::parse(expr).unwrap();
        let joined = first
            .iter()
            .map(|i| i.to_string())
            .collect::<Vec<_>>()
            .join(",");
        assert_eq!(IndexParser::parse(&joined).unwrap(), first);
    }
}

#[test]
fn validate_reports_the_first_failure_in_order() {
    match IndexParser::validate(&[7, 0], 5) {
        Err(GitNavigatorError::IndexOutOfRange { index, max }) => assert_eq!((index, max), (7, 5)),
        other => panic!("unexpected: {:?}", other),
    }
    assert!(matches!(
        IndexParser::validate(&[], 0),
        Err(GitNavigatorError::NoFilesAvailable)
    ));
    assert!(IndexParser::validate(&[], 3).is_ok());
}
