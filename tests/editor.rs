use tasklist::editor::{content_from_lines, content_from_marked_lines, initial_text};

fn lines(v: &[&str]) -> Vec<String> {
    v.iter().map(|s| s.to_string()).collect()
}

#[test]
fn first_line_is_subject_and_rest_is_body() {
    let c = content_from_lines(&lines(&["buy milk", "", "two litres", "", "skimmed"])).unwrap();
    assert_eq!(c.subject, "buy milk");
    assert_eq!(c.body, "two litres\n\nskimmed");
}

#[test]
fn leading_and_separating_blank_lines_are_dropped() {
    let c = content_from_lines(&lines(&["", "  ", "subject", "\t", "", "body", "   ", "end"])).unwrap();
    assert_eq!(c.subject, "subject");
    assert_eq!(c.body, "body\n   \nend");
}

#[test]
fn subject_alone_has_empty_body() {
    let c = content_from_lines(&lines(&["only", "", ""])).unwrap();
    assert_eq!(c.subject, "only");
    assert_eq!(c.body, "");
}

#[test]
fn all_blank_lines_give_no_content() {
    assert!(content_from_lines(&lines(&["", "   ", "\t"])).is_none());
    assert!(content_from_lines(&Vec::new()).is_none());
}

#[test]
fn marked_lines_follow_given_marks() {
    let ls = lines(&["x", "y", "z"]);
    let c = content_from_marked_lines(&ls, &vec![true, false, false]).unwrap();
    assert_eq!(c.subject, "y");
    assert_eq!(c.body, "z");
    assert!(content_from_marked_lines(&ls, &vec![true, true, true]).is_none());
}

#[test]
fn initial_text_joins_subject_and_body() {
    assert_eq!(initial_text("s", ""), "s");
    assert_eq!(initial_text("s", "b\nc"), "s\n\nb\nc");
    assert_eq!(initial_text("", ""), "");
}

#[test]
fn unicode_white_space_counts_as_blank() {
    let c = content_from_lines(&lines(&["\u{3000}\u{a0}", "subject", "\u{2028}", "body"])).unwrap();
    assert_eq!(c.subject, "subject");
    assert_eq!(c.body, "body");
    let c = content_from_lines(&lines(&["\u{200b}", "x"])).unwrap();
    assert_eq!(c.subject, "\u{200b}");
    assert_eq!(c.body, "x");
}
