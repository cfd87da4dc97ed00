use simple_regex::{MatchResult, ParseError, Regex};

fn test_match(r: &str, testcase: &str) {
    let regex = Regex::from_str(r).unwrap();
    assert!(regex.match_str(testcase).is_some());
}

fn test_result(r: &str, testcase: &str, mut mr: MatchResult) {
    let regex = Regex::from_str(r).unwrap();
    mr.insert(0, testcase.to_string());
    let res = regex.match_str(testcase);
    assert!(res == Some(mr));
}

fn test_no_match(r: &str, testcase: &str) {
    let regex = Regex::from_str(r).unwrap();
    assert!(regex.match_str(testcase).is_none());
}

fn parse_error(r: &str) -> ParseError {
    match Regex::from_str(r) {
        Ok(_) => panic!("pattern {:?} was accepted", r),
        Err(e) => e,
    }
}

#[test]
fn test_escape_escape() {
    test_match("\\\\", "\\");
}

#[test]
fn test_tab() {
    test_match("\t", "\t");
    test_match("\\t", "\t");
}

#[test]
fn test_char_class_escape() {
    test_match("[\\t]", "\t");
    test_match("[\\^]", "^");
}

#[test]
fn test_star() {
    let mut mr = MatchResult::new();
    mr.insert(1, "aa".to_string());
    test_result("(a*)bc", "aabc", mr);
}

#[test]
fn test_plus() {
    let mut mr = MatchResult::new();
    mr.insert(1, "aaa".to_string());
    test_result("(a+)b", "aaab", mr);
}

#[test]
fn test_groups() {
    let mut mr = MatchResult::new();
    mr.insert(1, "ac".to_string());
    mr.insert(2, "c".to_string());
    mr.insert(3, "cdcdd".to_string());
    mr.insert(4, "d".to_string());
    test_result("(a(b|c))b((c|d)*)", "acbcdcdd", mr);
}

#[test]
fn test_alts() {
    let mut mr = MatchResult::new();
    mr.insert(3, "cdcdd".to_string());
    mr.insert(4, "d".to_string());
    test_result("(a(b|c)*)|((c|d)*)", "cdcdd", mr);
}

#[test]
fn test_char_class() {
    let mut mr = MatchResult::new();
    mr.insert(1, "a".to_string());
    mr.insert(2, "z".to_string());
    test_result("([abc])([xyz])", "az", mr);
}

#[test]
fn test_char_class_negated() {
    test_result("[^z]", "a", MatchResult::new());
}

#[test]
fn same_regex_same_subject_same_result() {
    let regex = Regex::from_str("(a(b|c))b((c|d)*)").unwrap();
    assert_eq!(regex.match_str("acbcdcdd"), regex.match_str("acbcdcdd"));
    assert_eq!(regex.match_str("acbx"), None);
    assert_eq!(regex.match_str("acbx"), regex.match_str("acbx"));
}

#[test]
fn trailing_input_is_no_match() {
    test_match("ab", "ab");
    test_no_match("ab", "abc");
    test_no_match("(a*)bc", "aabcc");
    test_no_match("a|ab", "ab");
}

#[test]
fn group_zero_is_whole_subject() {
    let regex = Regex::from_str("x(y|z)*").unwrap();
    let res = regex.match_str("xyzzy").unwrap();
    assert_eq!(res.get(&0), Some(&"xyzzy".to_string()));
    let empty = Regex::from_str("").unwrap();
    let res = empty.match_str("").unwrap();
    assert_eq!(res.get(&0), Some(&String::new()));
    assert_eq!(res.len(), 1);
    assert!(empty.match_str("a").is_none());
}

#[test]
fn repeat_keeps_last_iteration_capture() {
    let mut mr = MatchResult::new();
    mr.insert(1, "ac".to_string());
    mr.insert(2, "c".to_string());
    test_result("(a(b|c))*", "abac", mr);
}

#[test]
fn negated_class_rejects_member() {
    test_match("[^z]", "a");
    test_no_match("[^z]", "z");
    test_no_match("[^z]", "");
}

#[test]
fn greedy_repeat_does_not_give_back() {
    test_no_match("(a*)a", "aaa");
    test_no_match("a*a", "a");
}

#[test]
fn plus_needs_one_occurrence() {
    test_no_match("(a+)b", "b");
    let mut mr = MatchResult::new();
    mr.insert(1, "a".to_string());
    test_result("(a+)b", "ab", mr);
}

#[test]
fn zero_repeats_leave_no_capture() {
    let mut mr = MatchResult::new();
    mr.insert(1, String::new());
    test_result("x(a(b)*)*y", "xy", MatchResult::new());
    test_result("x(b*)y", "xy", mr);
}

#[test]
fn failed_branch_keeps_its_group_captures() {
    let mut mr = MatchResult::new();
    mr.insert(1, "a".to_string());
    test_result("(a)b|ac", "ac", mr);
}

#[test]
fn repeat_of_empty_match_stops() {
    let mut mr = MatchResult::new();
    mr.insert(1, String::new());
    test_result("(a*)*", "aa", mr);
    test_match("(|a)*b", "b");
}

#[test]
fn unterminated_group_is_closed_by_end() {
    let mut mr = MatchResult::new();
    mr.insert(1, "ab".to_string());
    test_result("(ab", "ab", mr);
}

#[test]
fn blank_escapes() {
    test_match("a\\sb", "a b");
    test_match("a\\sb", "a\tb");
    test_no_match("a\\sb", "axb");
    test_match("\\S", "x");
    test_no_match("\\S", " ");
    test_no_match("\\S", "\t");
}

#[test]
fn literal_escapes() {
    test_match("\\(\\)\\[\\]\\*\\+\\^", "()[]*+^");
    test_match("[\\]\\\\]*", "]\\]");
    test_match("^", "^");
}

#[test]
fn class_has_no_ranges() {
    test_match("[a-c]", "-");
    test_no_match("[a-c]", "b");
}

#[test]
fn match_chars_reads_iterator() {
    let regex = Regex::from_str("(a+)b").unwrap();
    let mut itr = "aab".chars();
    let res = regex.match_chars(&mut itr).unwrap();
    assert_eq!(res.get(&1), Some(&"aa".to_string()));
    assert_eq!(itr.next(), None);
    let mut itr = "aabb".chars();
    assert!(regex.match_chars(&mut itr).is_none());
}

#[test]
fn unmatched_close_is_refused() {
    assert_eq!(parse_error(")"), ParseError::UnmatchedClose);
    assert_eq!(parse_error("(a))"), ParseError::UnmatchedClose);
}

#[test]
fn repeat_without_operand_is_refused() {
    assert_eq!(parse_error("*"), ParseError::NothingToRepeat);
    assert_eq!(parse_error("a|+"), ParseError::NothingToRepeat);
    assert_eq!(parse_error("(*)"), ParseError::NothingToRepeat);
}

#[test]
fn empty_class_is_refused() {
    assert_eq!(parse_error("[]"), ParseError::EmptyClass);
    assert_eq!(parse_error("[^]"), ParseError::EmptyClass);
}

#[test]
fn unterminated_class_is_refused() {
    assert_eq!(parse_error("[ab"), ParseError::UnterminatedClass);
    assert_eq!(parse_error("["), ParseError::UnterminatedClass);
    assert_eq!(parse_error("[^"), ParseError::UnterminatedClass);
}

#[test]
fn bad_escapes_are_refused() {
    assert_eq!(parse_error("\\q"), ParseError::InvalidEscape);
    assert_eq!(parse_error("[\\s]"), ParseError::InvalidEscape);
    assert_eq!(parse_error("a\\"), ParseError::MissingEscapedChar);
    assert_eq!(parse_error("[a\\"), ParseError::MissingEscapedChar);
}

fn rendered(r: &str) -> String {
    Regex::from_str(r).unwrap().debug_render()
}

#[test]
fn render_literals_groups_and_repeats() {
    assert_eq!(rendered("ab"), "Char{a}Char{b}");
    assert_eq!(rendered("(a+)b"), "Grp{Char{a}Char{a}*}Char{b}");
    assert_eq!(rendered("a|b|"), "Char{a}|Char{b}|");
    assert_eq!(rendered("(x(y)*)"), "Grp{Char{x}Grp{Char{y}}*}");
    assert_eq!(rendered(""), "");
}

#[test]
fn render_classes_in_code_point_order() {
    assert_eq!(rendered("[zab]"), "[abz]");
    assert_eq!(rendered("[^zaz]"), "[^az]");
    assert_eq!(rendered("\\s"), "[\t ]");
    assert_eq!(rendered("\\S*"), "[^\t ]*");
}
