use qs_rust::structured_scan::{
    first_structured_split_index, leading_structured_root, scan_structured_keys,
    StructuredKeyScan,
};
use qs_rust::{DecodeError, DecodeOptions};

fn segments(parts: &[&str]) -> Vec<String> {
    parts.iter().map(|part| (*part).to_owned()).collect()
}

#[test]
fn split_index_finds_the_first_structure_opening() {
    assert_eq!(first_structured_split_index("a%2eb%2Ec", true), Some(1));
    assert_eq!(first_structured_split_index("plain%20text", true), None);
    assert_eq!(first_structured_split_index("a[b]", false), Some(1));
    assert_eq!(first_structured_split_index("a.b", false), None);
    assert_eq!(first_structured_split_index("ab.c[d]", true), Some(2));
    assert_eq!(first_structured_split_index("ab[c].d", true), Some(2));
    assert_eq!(first_structured_split_index("[x]", false), Some(0));
    assert_eq!(first_structured_split_index("a%2", true), None);
    assert_eq!(first_structured_split_index("a%2E", false), None);
    assert_eq!(first_structured_split_index("", true), None);
}

#[test]
fn leading_roots_come_from_the_first_segment() {
    assert_eq!(leading_structured_root("a[b]=1", &segments(&["a", "[b]=1"])), "a");
    assert_eq!(leading_structured_root("[]=x", &segments(&["[]", "=x"])), "0");
    assert_eq!(leading_structured_root("[01]=x", &segments(&["[01]", "=x"])), "01");
    assert_eq!(leading_structured_root("", &segments(&[])), "");
    assert_eq!(leading_structured_root("[abc", &segments(&["[abc"])), "abc");
}

#[test]
fn scans_record_keys_and_roots_once() {
    let mut scan = StructuredKeyScan::default();
    assert!(!scan.has_any_structured_syntax);
    assert!(!scan.contains_structured_key("a[b]"));
    scan.record("a[b]", "a".to_owned());
    scan.record("a[c]", "a".to_owned());
    assert!(scan.has_any_structured_syntax);
    assert!(scan.contains_structured_key("a[b]"));
    assert!(scan.contains_structured_key("a[c]"));
    assert!(scan.contains_structured_root("a"));
    assert!(!scan.contains_structured_root("plain"));
    assert!(!scan.contains_structured_key("plain"));
}

/// A bracket splitter for the keys of these tests: the text before the first
/// `[`, then each `[..]` group up to `depth`, then the rest as one group
/// (refused under strict depth).
fn bracket_segments(
    key: &str,
    _allow_dots: bool,
    depth: usize,
    strict_depth: bool,
) -> Result<Vec<String>, DecodeError> {
    let mut segments = Vec::new();
    let open = key.find('[').unwrap_or(key.len());
    if open > 0 {
        segments.push(key[..open].to_owned());
    }
    let mut rest = &key[open..];
    while rest.starts_with('[') {
        let Some(close) = rest.find(']') else { break };
        if segments.len() >= depth {
            if strict_depth {
                return Err(DecodeError::DepthLimitExceeded { depth });
            }
            segments.push(format!("[{rest}]"));
            return Ok(segments);
        }
        segments.push(rest[..=close].to_owned());
        rest = &rest[close + 1..];
    }
    Ok(segments)
}

fn leading_root(key: &str, options: &DecodeOptions) -> String {
    let segments = bracket_segments(
        key,
        options.allow_dots(),
        options.depth(),
        options.strict_depth(),
    )
    .unwrap();
    leading_structured_root(key, &segments)
}

fn check_helpers_match_expected_behavior() {
    assert_eq!(first_structured_split_index("a%2eb%2Ec", true), Some(1));
    assert_eq!(leading_root("a[b]=1", &DecodeOptions::default()), "a");
    assert_eq!(leading_root("[]=x", &DecodeOptions::default()), "0");

    let scan =
        scan_structured_keys(&["a[b]", "plain"], &DecodeOptions::default(), bracket_segments)
            .unwrap();
    assert!(scan.has_any_structured_syntax);
    assert!(scan.contains_structured_key("a[b]"));
    assert!(scan.contains_structured_root("a"));
    assert!(!scan.contains_structured_root("plain"));
}

fn check_encoded_dots_are_structured_roots() {
    let options = DecodeOptions::new().with_allow_dots(true);
    let scan = scan_structured_keys(&["a%2Eb", "plain"], &options, bracket_segments).unwrap();

    assert!(scan.has_any_structured_syntax);
    assert!(scan.contains_structured_key("a%2Eb"));
    assert!(scan.contains_structured_root("a"));
    assert!(!scan.contains_structured_root("plain"));
}

#[test]
fn structured_scan_structured_scan_helpers_match_expected_behavior() {
    check_helpers_match_expected_behavior();
}

#[test]
fn tests_structured_scan_helpers_match_expected_behavior() {
    check_helpers_match_expected_behavior();
}

#[test]
fn structured_scan_structured_scan_treats_encoded_dots_as_structured_roots() {
    check_encoded_dots_are_structured_roots();
}

#[test]
fn tests_structured_scan_treats_encoded_dots_as_structured_roots() {
    check_encoded_dots_are_structured_roots();
}

#[test]
fn structured_scan_leading_structured_root_preserves_noncanonical_numeric_keys() {
    assert_eq!(leading_root("[01]=x", &DecodeOptions::default()), "01");
}

#[test]
fn tests_leading_structured_root_preserves_noncanonical_numeric_keys() {
    assert_eq!(leading_root("[01]=x", &DecodeOptions::default()), "01");
}

#[test]
fn structured_scan_helpers_cover_plain_percent_inputs_and_empty_segments() {
    assert_eq!(first_structured_split_index("plain%20text", true), None);
    assert_eq!(leading_root("", &DecodeOptions::default()), "");
}

#[test]
fn scan_without_structure_is_empty() {
    let scan = scan_structured_keys(&["a", "b%2Ec", "c.d"], &DecodeOptions::default(), bracket_segments)
        .unwrap();
    assert!(!scan.has_any_structured_syntax);
    assert!(!scan.contains_structured_key("c.d"));
    assert!(!scan.contains_structured_root("c"));
}

#[test]
fn scan_roots_of_leading_brackets_and_dots() {
    let options = DecodeOptions::new().with_allow_dots(true);
    let scan = scan_structured_keys(
        &["[]=x", "[01][b]", "user.name", "é[x]", "a[b]", "a[c]"],
        &options,
        bracket_segments,
    )
    .unwrap();
    assert!(scan.has_any_structured_syntax);
    assert!(scan.contains_structured_root("0"));
    assert!(scan.contains_structured_root("01"));
    assert!(scan.contains_structured_root("user"));
    assert!(scan.contains_structured_root("é"));
    assert!(scan.contains_structured_root("a"));
    assert!(scan.contains_structured_key("[01][b]"));
    assert!(!scan.contains_structured_root("[01]"));
}

#[test]
fn scan_returns_the_splitter_error_for_a_leading_key() {
    let options = DecodeOptions::new().with_depth(1).with_strict_depth(true);
    assert_eq!(
        scan_structured_keys(&["a[b][c]", "[x][y]"], &options, bracket_segments).map(|_| ()),
        Err(DecodeError::DepthLimitExceeded { depth: 1 })
    );
    let scan = scan_structured_keys(&["a[b][c]"], &options, bracket_segments).unwrap();
    assert!(scan.contains_structured_root("a"));
}
