//! The bounded preview: a sink that keeps the first characters of a rendering and refuses the
//! rest, and the verdict on how the rendering ended.

use tokora::trace::{BoundedDebugOutcome, PreviewSink, PREVIEW_WINDOW, bounded_debug, finish_preview};

fn preview(render: impl FnOnce(&mut PreviewSink) -> bool) -> (String, BoundedDebugOutcome) {
    let (chars, outcome) = bounded_debug(render);
    (chars.into_iter().collect(), outcome)
}

/// A renderer that builds its whole output before writing it in one call: correct, but its cost
/// is the whole input whatever the sink does.
#[test]
fn bounded_debug_is_correct_but_unbounded_for_a_front_loading_debug_impl() {
    let long: String = "a".repeat(PREVIEW_WINDOW * 10);
    let mut touched = 0usize;
    let (window, outcome) = preview(|sink| {
        let mut built = String::with_capacity(long.len());
        for ch in long.chars() {
            touched += 1;
            built.push(ch);
        }
        sink.write_str(&built).is_ok()
    });
    assert_eq!(window, "a".repeat(PREVIEW_WINDOW));
    assert_eq!(outcome, BoundedDebugOutcome::WindowTruncated, "content far longer than the window must report truncated");
    assert_eq!(touched, long.chars().count(), "a front-loading renderer costs the whole input");
}

/// A renderer that wrote its complete, short output and then failed for its own reason.
#[test]
fn bounded_debug_is_format_failed_when_debug_fails_for_a_reason_the_sink_did_not_cause() {
    let (window, outcome) = preview(|sink| {
        let _ = sink.write_str("abc");
        false
    });
    assert_eq!(window, "abc");
    assert_eq!(outcome, BoundedDebugOutcome::FormatFailed);
}

/// A renderer that swallows the sink's refusal and then fails for its own reason is absorbed
/// into `WindowTruncated`.
#[test]
fn bounded_debug_absorbs_a_foreign_failure_after_truncation_into_window_truncated() {
    let (window, outcome) = preview(|sink| {
        let _ = sink.write_str(&"a".repeat(PREVIEW_WINDOW + 5));
        false
    });
    assert_eq!(window, "a".repeat(PREVIEW_WINDOW));
    assert_eq!(outcome, BoundedDebugOutcome::WindowTruncated);
}

/// A rendering whose complete text is the failure marker is indistinguishable, once the marker
/// is appended, from a rendering that failed.
#[test]
fn fmt_error_marker_collides_with_a_debug_impl_that_renders_the_same_text() {
    let (window, outcome) = preview(|sink| sink.write_str("abc <fmt error>").is_ok());
    assert_eq!(window, "abc <fmt error>");
    assert_eq!(outcome, BoundedDebugOutcome::Complete);

    let (failure_prefix, failure_outcome) = preview(|sink| {
        let _ = sink.write_str("abc");
        false
    });
    assert_eq!(failure_outcome, BoundedDebugOutcome::FormatFailed);
    let mut rendered_after_failure = failure_prefix;
    rendered_after_failure.push_str(" <fmt error>");
    assert_eq!(window, rendered_after_failure);
}

#[test]
fn a_rendering_exactly_the_window_long_is_complete_and_one_more_is_not() {
    let (w, o) = preview(|sink| sink.write_str(&"b".repeat(PREVIEW_WINDOW)).is_ok());
    assert_eq!((w.chars().count(), o), (PREVIEW_WINDOW, BoundedDebugOutcome::Complete));
    let (w, o) = preview(|sink| sink.write_str(&"b".repeat(PREVIEW_WINDOW + 1)).is_ok());
    assert_eq!((w.chars().count(), o), (PREVIEW_WINDOW, BoundedDebugOutcome::WindowTruncated));
}

/// Renders `dump` the way a streaming `Debug` impl does: a piece at a time, each written as it is
/// produced, stopping at the first refusal.
fn streamed(dump: &str) -> (String, BoundedDebugOutcome) {
    preview(|sink| {
        for ch in dump.chars() {
            if sink.write_str(&ch.to_string()).is_err() {
                return false;
            }
        }
        true
    })
}

/// The window a whole dump would show: its first [`PREVIEW_WINDOW`] characters, then an ellipsis
/// when the dump was longer.
fn reference_preview_window(dump: &str) -> String {
    let mut window: String = dump.chars().take(PREVIEW_WINDOW).collect();
    if dump.chars().count() > PREVIEW_WINDOW {
        window.push('\u{2026}');
    }
    window
}

fn assert_matches_reference(case: &str, dump: &str) {
    let (mut window, outcome) = streamed(dump);
    if outcome == BoundedDebugOutcome::WindowTruncated {
        window.push('\u{2026}');
    }
    assert_eq!(window, reference_preview_window(dump), "case {case:?}");
}

#[test]
fn bounded_debug_matches_the_old_format_and_take_24_logic() {
    assert_matches_reference("empty", &format!("{:?}", ""));
    assert_matches_reference("shorter than the window", &format!("{:?}", "hi"));
    assert_matches_reference("exactly at the window", &format!("{:?}", "a".repeat(22)));
    assert_matches_reference("one character past the window", &format!("{:?}", "a".repeat(23)));
    assert_matches_reference("far longer than the window", &format!("{:?}", "a".repeat(500)));
    assert_matches_reference("newlines", &format!("{:?}", "first line\nsecond line\nthird line"));
    assert_matches_reference("tabs", &format!("{:?}", "col1\tcol2\tcol3"));
    assert_matches_reference("double quotes", &format!("{:?}", "she said \"hello\" and left"));
    assert_matches_reference("single quotes", &format!("{:?}", "it's fine, isn't it"));
    assert_matches_reference("backslashes", &format!("{:?}", r"a\b\c\path\to\thing"));
    assert_matches_reference("non-ASCII", &format!("{:?}", "héllo wörld — 你好，世界 🎉"));
    assert_matches_reference(
        "a multi-byte scalar straddling the cut",
        &format!("{:?}", format!("{}€{}", "a".repeat(22), "b".repeat(10))),
    );
    assert_matches_reference("control characters", &format!("{:?}", "\u{0}\u{1}\u{7}\u{8}\u{b}\u{c}\u{1b}\u{7f}"));
    let bytes: Vec<u8> = (0..40).collect();
    assert_matches_reference("the &[u8] Debug convention", &format!("{:?}", bytes.as_slice()));

    let (window, outcome) = streamed(&format!("{:?}", "a".repeat(22)));
    assert_eq!(window, format!("\"{}\"", "a".repeat(22)));
    assert_eq!(outcome, BoundedDebugOutcome::Complete);

    let (window, outcome) = streamed(&format!("{:?}", "a".repeat(23)));
    assert_eq!(window, format!("\"{}", "a".repeat(23)));
    assert_eq!(outcome, BoundedDebugOutcome::WindowTruncated);
}

#[test]
fn a_finished_preview_marks_how_the_window_ended() {
    let w: Vec<char> = "abc".chars().collect();
    let done = |o| finish_preview(w.clone(), o).into_iter().collect::<String>();
    assert_eq!(done(BoundedDebugOutcome::Complete), "abc");
    assert_eq!(done(BoundedDebugOutcome::WindowTruncated), "abc\u{2026}");
    assert_eq!(done(BoundedDebugOutcome::FormatFailed), "abc <fmt error>");
}
