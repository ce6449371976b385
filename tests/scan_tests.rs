use ks_text_audit::classify::{classify_line, LineKind};
use ks_text_audit::measure::check_statement_length;
use ks_text_audit::scan::{check_text_length, process_line, segment_line, ScanState};
use ks_text_audit::settings::Settings;
use ks_text_audit::tags::TagStripper;

fn settings() -> Settings {
    Settings::default_settings()
}

fn stripper() -> TagStripper {
    TagStripper::new().unwrap()
}

fn lines(v: &[&str]) -> Vec<String> {
    v.iter().map(|s| s.to_string()).collect()
}

fn chars(s: &str) -> Vec<char> {
    s.chars().collect()
}

fn strings(v: &[&str]) -> Vec<String> {
    lines(v)
}

#[test]
fn default_settings_values() {
    let s = settings();
    assert_eq!(s.linefeed_tag, vec!["[r]".to_string()]);
    assert_eq!(s.page_break_tag, vec!["[p]".to_string()]);
    assert_eq!(s.line_count, 2);
    assert_eq!(s.max_row_length, 30);
}

#[test]
fn open_group_is_carried_not_measured() {
    let mut state = ScanState::new();
    let line = format!("{}[r]{}", "A".repeat(32), "B".repeat(32));
    let n = process_line(&mut state, &line, &settings(), &stripper());
    assert_eq!(n, 0);
    assert_eq!(state.carry, "B".repeat(32));
    assert!(!state.in_script);
}

#[test]
fn page_break_measures_carried_text() {
    let r = check_text_length(&lines(&[&"A".repeat(61), "[p]"]), &settings(), &stripper());
    assert_eq!(r, vec![2]);
}

#[test]
fn page_break_with_short_carry_reports_nothing() {
    let r = check_text_length(&lines(&[&"A".repeat(60), "[p]"]), &settings(), &stripper());
    assert_eq!(r, Vec::<usize>::new());
}

#[test]
fn page_break_alone_after_carry() {
    let mut state = ScanState::new();
    state.carry = "C".repeat(61);
    let n = process_line(&mut state, "[p]", &settings(), &stripper());
    assert_eq!(n, 1);
    assert_eq!(state.carry, "");
}

#[test]
fn comment_line_is_skipped() {
    let mut state = ScanState::new();
    state.carry = "keep".to_string();
    let line = format!(";{}[p]", "A".repeat(100));
    let n = process_line(&mut state, &line, &settings(), &stripper());
    assert_eq!(n, 0);
    assert_eq!(state.carry, "keep");
}

#[test]
fn label_and_directive_lines_are_skipped() {
    let long = "A".repeat(100);
    let r = check_text_length(
        &lines(&[&format!("*{}[p]", long), &format!("  #{}[p]", long)]),
        &settings(),
        &stripper(),
    );
    assert!(r.is_empty());
}

#[test]
fn script_block_contributes_nothing() {
    let long = format!("{}[p]", "A".repeat(100));
    let r = check_text_length(
        &lines(&["[iscript]", &long, &long, "[endscript]", &long]),
        &settings(),
        &stripper(),
    );
    assert_eq!(r, vec![5]);
}

#[test]
fn script_block_flag_follows_markers() {
    let mut state = ScanState::new();
    let s = settings();
    let t = stripper();
    process_line(&mut state, "[iscript]", &s, &t);
    assert!(state.in_script);
    process_line(&mut state, "var x = 1;", &s, &t);
    assert!(state.in_script);
    process_line(&mut state, "[endscript]", &s, &t);
    assert!(!state.in_script);
    assert_eq!(state.carry, "");
}

#[test]
fn inline_tags_are_not_measured() {
    let groups = segment_line(&chars("Hello[wait 100]World"), &settings(), &stripper());
    assert_eq!(groups, vec![vec!["HelloWorld".to_string()]]);
}

#[test]
fn inline_tags_shorten_a_statement() {
    let text = format!("{}[wait time=1000]{}[p]", "A".repeat(30), "B".repeat(30));
    let r = check_text_length(&lines(&[&text]), &settings(), &stripper());
    assert!(r.is_empty());
}

#[test]
fn segment_splits_pages_then_lines() {
    let groups = segment_line(&chars("ab[r]cd[p] ef [r][l]gh"), &settings(), &stripper());
    assert_eq!(
        groups,
        vec![
            vec!["ab".to_string(), "cd".to_string()],
            vec!["ef ".to_string(), "gh".to_string()],
        ]
    );
}

#[test]
fn unclosed_bracket_stays_in_text() {
    let groups = segment_line(&chars("a[b"), &settings(), &stripper());
    assert_eq!(groups, vec![vec!["a[b".to_string()]]);
}

#[test]
fn statement_rows_round_up() {
    let s = settings();
    assert!(!check_statement_length(&strings(&[&"a".repeat(30), &"b".repeat(30)]), &s));
    assert!(check_statement_length(&strings(&[&"a".repeat(31), "b"]), &s));
    assert!(!check_statement_length(&strings(&["", "", &"a".repeat(60)]), &s));
    assert!(check_statement_length(&strings(&[&"a".repeat(61)]), &s));
    assert!(!check_statement_length(&Vec::new(), &s));
}

#[test]
fn statement_rows_with_small_rows() {
    let s = Settings {
        linefeed_tag: vec![],
        page_break_tag: vec![],
        line_count: 3,
        max_row_length: 1,
    };
    assert!(!check_statement_length(&strings(&["ab", "c"]), &s));
    assert!(check_statement_length(&strings(&["ab", "cd"]), &s));
}

#[test]
fn split_statement_matches_single_line() {
    let a = "A".repeat(40);
    let b = "B".repeat(40);
    let split = check_text_length(&lines(&[&a, &format!("{}[p]", b)]), &settings(), &stripper());
    let whole = check_text_length(&lines(&[&format!("{}{}[p]", a, b)]), &settings(), &stripper());
    assert_eq!(split, vec![2]);
    assert_eq!(whole, vec![1]);
}

#[test]
fn carry_does_not_cross_page_break() {
    let s = settings();
    let t = stripper();
    let mut first = ScanState::new();
    first.carry = "X".repeat(100);
    let mut second = ScanState::new();
    let n1 = process_line(&mut first, "short[p]tail", &s, &t);
    let n2 = process_line(&mut second, "short[p]tail", &s, &t);
    assert_eq!(first.carry, "tail");
    assert_eq!(second.carry, "tail");
    assert_eq!(n1, 1);
    assert_eq!(n2, 0);
}

#[test]
fn middle_groups_measured_without_carry() {
    let line = format!("a[p]{}[p]b", "M".repeat(61));
    let r = check_text_length(&lines(&[&line]), &settings(), &stripper());
    assert_eq!(r, vec![1]);
}

#[test]
fn two_violations_on_one_line() {
    let long = "L".repeat(61);
    let line = format!("{}[p]{}[p]", long, long);
    let r = check_text_length(&lines(&[";c", &line]), &settings(), &stripper());
    assert_eq!(r, vec![2, 2]);
}

#[test]
fn trailing_open_statement_is_not_measured() {
    let r = check_text_length(&lines(&[&"A".repeat(200)]), &settings(), &stripper());
    assert!(r.is_empty());
}

#[test]
fn stripping_twice_changes_nothing() {
    let once = segment_line(&chars("x[a]y[b[c]]z"), &settings(), &stripper());
    assert_eq!(once, vec![vec!["xy]z".to_string()]]);
    let again = segment_line(&chars("xy]z"), &settings(), &stripper());
    assert_eq!(again, once);
}

#[test]
fn classify_kinds() {
    assert!(matches!(classify_line("  ;comment", false), LineKind::Skip));
    assert!(matches!(classify_line("*label", false), LineKind::Skip));
    assert!(matches!(classify_line("#dir", true), LineKind::Skip));
    assert!(matches!(classify_line("a[iscript]", false), LineKind::EnterScriptBlock));
    assert!(matches!(classify_line("x[endscript]", true), LineKind::ExitScriptBlock));
    assert!(matches!(classify_line("text", true), LineKind::Skip));
    match classify_line("\t text \u{3000}", false) {
        LineKind::Displayable(t) => assert_eq!(t, chars("text")),
        _ => panic!("expected text"),
    }
}

#[test]
fn several_tags_split_in_turn() {
    let s = Settings {
        linefeed_tag: vec!["[r]".to_string(), "[l]".to_string()],
        page_break_tag: vec!["[p]".to_string(), "[cm]".to_string()],
        line_count: 2,
        max_row_length: 30,
    };
    let groups = segment_line(&chars("a[l]b[cm]c[r]d[p]e"), &s, &stripper());
    assert_eq!(
        groups,
        vec![
            vec!["a".to_string(), "b".to_string()],
            vec!["c".to_string(), "d".to_string()],
            vec!["e".to_string()],
        ]
    );
}

#[test]
fn empty_line_keeps_carry_in_one_group() {
    let mut state = ScanState::new();
    state.carry = "abc".to_string();
    let n = process_line(&mut state, "", &settings(), &stripper());
    assert_eq!(n, 0);
    assert_eq!(state.carry, "abc");
}

#[test]
fn carry_joins_first_fragment() {
    let mut state = ScanState::new();
    state.carry = "C".repeat(29);
    let n = process_line(&mut state, "xx[r]y[p]", &settings(), &stripper());
    assert_eq!(n, 1);
    assert_eq!(state.carry, "");
}

#[test]
fn empty_tag_splits_every_character() {
    let s = Settings {
        linefeed_tag: vec!["".to_string()],
        page_break_tag: vec!["[p]".to_string()],
        line_count: 2,
        max_row_length: 30,
    };
    let groups = segment_line(&chars("ab"), &s, &stripper());
    assert_eq!(
        groups,
        vec![vec!["".to_string(), "a".to_string(), "b".to_string(), "".to_string()]]
    );
}
