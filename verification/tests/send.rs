//! Sending files: how hostile names are shown, and how many files are under way at once.

use swoosh::send::{
    MAX_INFLIGHT, MAX_RENDERED_NAME, RECV_SERVICE, Sending, cap_escapes, file_name, render_name,
    render_path, sent_line, skip_line, wire_name,
};

/// A hostile filename cannot forge a line or drive the terminal.
#[test]
fn a_hostile_filename_renders_escaped() {
    assert_eq!(
        render_name("evil\nname\u{1b}[31m\r.txt"),
        r"evil\nname\u{1b}[31m\r.txt",
        "a newline, an escape byte, and a carriage return never reach the line raw"
    );
    assert_eq!(
        render_name("a\u{85}b\u{202e}c\u{200b}d"),
        r"a\u{85}b\u{202e}c\u{200b}d",
        "a C1 control, a bidi override, and a zero-width space never reach the line raw"
    );
}

#[test]
fn a_long_filename_renders_capped() {
    let long = "a".repeat(MAX_RENDERED_NAME * 4);
    assert_eq!(
        render_name(&long),
        format!("{}...", "a".repeat(MAX_RENDERED_NAME)),
        "the render holds the cap and marks the cut"
    );
}

/// The cap cuts between escapes, never inside one.
#[test]
fn a_cap_cut_never_splits_an_escape_sequence() {
    let name = format!("{}\u{1b}", "a".repeat(MAX_RENDERED_NAME - 1));
    assert_eq!(
        render_name(&name),
        format!("{}...", "a".repeat(MAX_RENDERED_NAME - 1)),
        "the cut lands before the incomplete escape"
    );
}

/// A name that just fits is shown whole, and an escape that just fits is too.
#[test]
fn a_name_at_the_cap_is_shown_whole() {
    let exact = "a".repeat(MAX_RENDERED_NAME);
    assert_eq!(render_name(&exact), exact);
    let escape = format!("{}\n", "a".repeat(MAX_RENDERED_NAME - 2));
    assert_eq!(
        render_name(&escape),
        format!("{}\\n", "a".repeat(MAX_RENDERED_NAME - 2))
    );
    assert_eq!(
        cap_escapes(&vec!["b".repeat(MAX_RENDERED_NAME + 1), "c".to_owned()]),
        "...",
        "nothing follows the mark"
    );
}

#[test]
fn a_hostile_path_with_no_file_name_renders_escaped() {
    let message = file_name("evil\nname\u{1b}[31m/..", None)
        .expect_err("a path with no final component has no file name");

    assert!(
        message.contains(r"path has no file name: evil\nname\u{1b}[31m/.."),
        "the no-file-name error renders the path escaped: {message:?}"
    );
    assert!(
        !message.contains('\n') && !message.contains('\u{1b}'),
        "no raw newline or ESC reaches the skip line: {message:?}"
    );
}

#[test]
fn the_lines_of_a_send_escape_what_they_name() {
    assert_eq!(sent_line("a\nb", 42), r"sent a\nb (42 bytes)");
    assert_eq!(skip_line("a\u{1b}", "gone"), r"skip a\u{1b}: gone");
    assert_eq!(render_path("a\tb"), r"a\tb");
    assert_eq!(
        file_name("/tmp/x.txt", Some("x.txt")),
        Ok("x.txt".to_owned())
    );
    assert_eq!(wire_name(r"a\b/c"), "a/b/c");
    assert_eq!(RECV_SERVICE, "recv");
}

/// Every file is started once, in order, and at most a pipeline's depth at a time.
#[test]
fn the_pipeline_is_bounded() {
    let total = MAX_INFLIGHT + 3;
    let mut sending = Sending::begin(total, 0);
    assert_eq!(sending.count(), MAX_INFLIGHT);
    for next in MAX_INFLIGHT..total {
        assert_eq!(sending.finished(true), Some(next));
    }
    for _ in 0..MAX_INFLIGHT {
        assert!(!sending.is_done());
        assert_eq!(sending.finished(true), None);
    }
    assert!(sending.is_done());
    assert_eq!(sending.result(), Ok(()));
}

#[test]
fn a_send_that_missed_an_item_ends_in_an_error() {
    let mut sending = Sending::begin(2, 1);
    assert_eq!(sending.count(), 2);
    assert_eq!(sending.finished(false), None);
    assert_eq!(sending.finished(true), None);
    assert_eq!(
        sending.result(),
        Err("2 item(s) could not be sent".to_owned())
    );
    assert!(Sending::begin(0, 0).is_done());
}
