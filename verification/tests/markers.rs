use jiji_hamster_bridge::markers::{mark_continuation, mark_first_line};

#[test]
fn plain_first_line_gets_continued_marker() {
    assert_eq!(mark_continuation("write report"), ".. write report");
}

#[test]
fn new_marker_is_rewritten_to_continued() {
    assert_eq!(mark_continuation("*write report"), ".. write report");
    assert_eq!(mark_continuation("* write report"), ".. write report");
}

#[test]
fn already_continued_first_line_is_left_unchanged() {
    assert_eq!(mark_continuation(".. write report"), ".. write report");
    assert_eq!(mark_continuation("..write report"), "..write report");
}

#[test]
fn already_marked_multi_block_is_idempotent() {
    // Resuming the same task twice in a day re-runs this over a description
    // already stamped with multiple `..` heads — it must be a no-op.
    let already = ".. write report\n- draft\n.. review pr";
    assert_eq!(mark_continuation(already), already);
}

#[test]
fn bullets_and_extension_lines_are_untouched() {
    let desc = "*write report\n- draft intro\nmore detail";
    assert_eq!(
        mark_continuation(desc),
        ".. write report\n- draft intro\nmore detail"
    );
}

#[test]
fn every_block_first_line_is_marked() {
    let desc = "*write report\n- draft\n*review pr";
    assert_eq!(
        mark_continuation(desc),
        ".. write report\n- draft\n.. review pr"
    );
}

#[test]
fn implicit_first_block_with_body() {
    let desc = "write report\n- draft";
    assert_eq!(mark_continuation(desc), ".. write report\n- draft");
}

#[test]
fn blank_lines_never_open_a_block_and_are_preserved() {
    // The line after the blank belongs to the already-open first block, so
    // it is body, not a new head — only the first line is marked.
    let desc = "write report\n\nmore detail";
    assert_eq!(mark_continuation(desc), ".. write report\n\nmore detail");
}

#[test]
fn leading_blank_lines_are_preserved_then_first_real_line_marked() {
    assert_eq!(mark_continuation("\nwrite report"), "\n.. write report");
}

#[test]
fn leading_indentation_is_preserved() {
    assert_eq!(mark_continuation("  *write report"), "  .. write report");
}

#[test]
fn empty_description_is_unchanged() {
    assert_eq!(mark_continuation(""), "");
}

#[test]
fn marking_is_idempotent() {
    for desc in [
        "write report",
        "*a\n\n  * b\nc\n..d\n",
        "  \n\t\n",
        "*",
        "* ",
        "a\r\nb",
        "\u{3000}*\u{3000}x",
    ] {
        let once = mark_continuation(desc);
        assert_eq!(mark_continuation(&once), once, "{desc:?}");
    }
}

#[test]
fn only_first_lines_of_blocks_change() {
    assert_eq!(
        mark_continuation("a\n*b\nc\n\nd\n  ..e\n* f"),
        ".. a\n.. b\nc\n\nd\n  ..e\n.. f"
    );
}

#[test]
fn a_lone_marker_keeps_its_line() {
    assert_eq!(mark_continuation("*"), ".. ");
    assert_eq!(mark_continuation("\t*  x "), "\t.. x ");
}

#[test]
fn a_single_line_is_rewritten() {
    assert_eq!(mark_first_line("  * a"), "  .. a");
    assert_eq!(mark_first_line(" ..a"), " ..a");
    assert_eq!(mark_first_line("a"), ".. a");
}
