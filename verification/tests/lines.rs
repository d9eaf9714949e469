use mdreplace::lines::{any_line_contains, join_lines, rewrite_lines, split_lines, stage_text};
use std::io::BufRead;

fn strings(items: &[&str]) -> Vec<String> {
    items.iter().map(|s| s.to_string()).collect()
}

#[test]
fn splits_at_line_feeds() {
    assert_eq!(split_lines("a\nb\nc"), strings(&["a", "b", "c"]));
    assert_eq!(split_lines("a\nb\n"), strings(&["a", "b"]));
    assert_eq!(split_lines("a"), strings(&["a"]));
}

#[test]
fn empty_text_has_no_lines() {
    assert_eq!(split_lines(""), Vec::<String>::new());
}

#[test]
fn empty_lines_are_kept_but_for_what_follows_the_last_line_feed() {
    assert_eq!(split_lines("\n"), strings(&[""]));
    assert_eq!(split_lines("a\n\nb"), strings(&["a", "", "b"]));
    assert_eq!(split_lines("a\n\n"), strings(&["a", ""]));
    assert_eq!(split_lines("\n\na"), strings(&["", "", "a"]));
}

#[test]
fn carriage_return_before_line_feed_is_dropped() {
    assert_eq!(split_lines("a\r\nb\r\n"), strings(&["a", "b"]));
    assert_eq!(split_lines("a\r\r\nb"), strings(&["a\r", "b"]));
    assert_eq!(split_lines("\r\n"), strings(&[""]));
}

#[test]
fn carriage_return_elsewhere_is_kept() {
    assert_eq!(split_lines("a\rb\nc\r"), strings(&["a\rb", "c\r"]));
}

#[test]
fn joins_with_one_line_feed_between_lines() {
    assert_eq!(join_lines(&strings(&["a", "b", "c"])), "a\nb\nc");
    assert_eq!(join_lines(&strings(&["a"])), "a");
    assert_eq!(join_lines(&strings(&[])), "");
    assert_eq!(join_lines(&strings(&["", ""])), "\n");
    assert_eq!(join_lines(&strings(&["a", ""])), "a\n");
}

#[test]
fn join_of_split_drops_the_last_line_feed() {
    assert_eq!(join_lines(&split_lines("a\nb\n")), "a\nb");
    assert_eq!(join_lines(&split_lines("a\nb")), "a\nb");
    assert_eq!(join_lines(&split_lines("a\r\nb\r\n")), "a\nb");
}

#[test]
fn a_file_without_the_string_keeps_its_lines() {
    let lines = strings(&["one", "two", "three"]);
    let (out, updated) = rewrite_lines(strings(&["one", "two", "three"]), "alpha", "beta");
    assert_eq!(out, lines);
    assert!(!updated);
    assert!(!any_line_contains(&lines, "alpha"));
}

#[test]
fn every_occurrence_on_every_line_is_replaced() {
    let (out, updated) = rewrite_lines(
        strings(&["alpha and alpha", "none here", "x alpha"]),
        "alpha",
        "beta",
    );
    assert_eq!(out, strings(&["beta and beta", "none here", "x beta"]));
    assert!(updated);
}

#[test]
fn a_string_across_two_lines_is_not_found() {
    let staged = stage_text("al\npha", "al\npha", "beta");
    assert_eq!(staged.text, "al\npha");
    assert!(!staged.updated);
}

#[test]
fn stages_the_rewritten_text() {
    let staged = stage_text("Hello alpha world", "alpha", "beta");
    assert_eq!(staged.text, "Hello beta world");
    assert!(staged.updated);
    let staged = stage_text("# alpha\n\nalpha, alpha\n", "alpha", "beta");
    assert_eq!(staged.text, "# beta\n\nbeta, beta");
    assert!(staged.updated);
    let staged = stage_text("nothing\nto see\n", "alpha", "beta");
    assert_eq!(staged.text, "nothing\nto see");
    assert!(!staged.updated);
}

#[test]
fn empty_file_is_never_updated() {
    let staged = stage_text("", "", "x");
    assert_eq!(staged.text, "");
    assert!(!staged.updated);
    let staged = stage_text("a", "", "x");
    assert_eq!(staged.text, "xax");
    assert!(staged.updated);
}

#[test]
fn rewriting_there_and_back_restores_the_lines() {
    let lines = strings(&["Hello alpha world", "alphaalpha", "", "plain"]);
    let (there, _) = rewrite_lines(strings(&["Hello alpha world", "alphaalpha", "", "plain"]), "alpha", "beta");
    assert_eq!(there, strings(&["Hello beta world", "betabeta", "", "plain"]));
    let (back, _) = rewrite_lines(there, "beta", "alpha");
    assert_eq!(back, lines);
}

#[test]
fn splitting_and_joining_agree_with_the_standard_library() {
    let texts = [
        "", "a", "a\n", "a\nb", "a\n\n", "\n", "\n\n", "a\r\nb", "a\r\n", "a\r", "\r\n", "\r",
        "a\r\r\nb", "a\n\r\nb\n", "日本\n語", "x\ry\nz\r\n\r\n",
    ];
    for text in texts {
        let expected: Vec<String> =
            std::io::Cursor::new(text).lines().map(|line| line.unwrap()).collect();
        assert_eq!(split_lines(text), expected);
        assert_eq!(join_lines(&expected), expected.join("\n"));
    }
}

#[test]
fn plain_text_comes_back_from_its_lines() {
    for text in ["", "a", "a\nb", "\na", "a\n\nb", "a\rb\nc\r", "\r"] {
        assert_eq!(join_lines(&split_lines(text)), text);
    }
    for text in ["a\n", "\n", "a\r\nb", "a\n\n"] {
        assert_ne!(join_lines(&split_lines(text)), text);
    }
}

#[test]
fn staging_there_and_back_restores_a_plain_text() {
    let text = "# alpha\n\nHello alpha world\nalphaalpha\nplain";
    let there = stage_text(text, "alpha", "beta");
    assert_eq!(there.text, "# beta\n\nHello beta world\nbetabeta\nplain");
    let back = stage_text(&there.text, "beta", "alpha");
    assert_eq!(back.text, text);
}

#[test]
fn there_and_back_can_fail_where_the_new_string_is_in_the_text_already() {
    let there = stage_text("alpha beta", "alpha", "beta");
    assert_eq!(there.text, "beta beta");
    let back = stage_text(&there.text, "beta", "alpha");
    assert_eq!(back.text, "alpha alpha");
}
