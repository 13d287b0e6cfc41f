//! Which words changed within a line.

use herdr_strays::intraline::{compare, compute, Span, MAX_LINE};
use herdr_strays::model::DiffLine;

/// Parse raw diff lines the way the diff pane receives them.
fn parsed(raw: &[&str]) -> Vec<DiffLine> {
    raw.iter().map(|l| DiffLine::parse(l)).collect()
}

/// The changed substrings of a line, in order — what the reader sees
/// highlighted.
fn changed<'a>(line: &'a str, spans: &[Span]) -> Vec<&'a str> {
    spans
        .iter()
        .filter(|s| s.changed)
        .map(|s| &line[s.start..s.end])
        .collect()
}

#[test]
fn only_the_word_that_changed_is_marked() {
    let old = "-let widget = compute(a, b);";
    let new = "+let gadget = compute(a, b);";
    let (old_spans, new_spans) = compare(old, new);

    assert_eq!(changed(old, &old_spans), vec!["widget"]);
    assert_eq!(changed(new, &new_spans), vec!["gadget"]);
}

#[test]
fn the_diff_marker_is_never_part_of_the_change() {
    // Otherwise every line would open with a highlighted `+` or `-`. The
    // marker merges into the unchanged run beside it, which is the point:
    // what must never happen is it landing inside a changed span.
    let new = "+alpha beta";
    let (_, new_spans) = compare("-alpha gamma", new);

    assert!(
        !new_spans[0].changed,
        "the line does not open with a change"
    );
    assert!(
        new_spans.iter().any(|s| s.changed),
        "something did change on this line"
    );
    assert_eq!(changed(new, &new_spans), vec!["beta"]);
}

#[test]
fn a_change_at_the_very_start_still_leaves_the_marker_out() {
    // The word next to the marker is what changed, so the two are adjacent
    // and the merge in `spans_from` must not pull the marker in with it.
    let new = "+gadget = 1;";
    let (_, new_spans) = compare("-widget = 1;", new);

    assert_eq!(changed(new, &new_spans), vec!["gadget"]);
    assert_eq!(new_spans[0].end, 1, "the marker stands alone here");
    assert!(!new_spans[0].changed);
}

#[test]
fn spans_tile_the_whole_line_without_gaps() {
    // The renderer walks them in order to rebuild the line; a gap would
    // silently drop text from the pane.
    let new = "+fn alpha(x: u32) -> u32 { x + 1 }";
    let (_, spans) = compare("-fn alpha(x: u32) -> u32 { x }", new);

    let mut at = 0;
    for span in &spans {
        assert_eq!(span.start, at, "spans must be contiguous");
        at = span.end;
    }
    assert_eq!(at, new.len(), "spans must reach the end");
}

#[test]
fn an_added_argument_marks_only_itself() {
    let old = "-call(first)";
    let new = "+call(first, second)";
    let (_, new_spans) = compare(old, new);
    assert_eq!(changed(new, &new_spans), vec![", second"]);
}

#[test]
fn a_removed_argument_marks_only_itself() {
    let old = "-call(first, second)";
    let new = "+call(first)";
    let (old_spans, _) = compare(old, new);
    assert_eq!(changed(old, &old_spans), vec![", second"]);
}

#[test]
fn re_indenting_does_not_mark_the_code_beside_it() {
    // Whitespace is its own token, so the words either side stay put.
    let old = "-  value = 1;";
    let new = "+    value = 1;";
    let (_, new_spans) = compare(old, new);
    assert_eq!(changed(new, &new_spans), vec!["    "]);
}

#[test]
fn punctuation_splits_so_brackets_are_not_swallowed() {
    let old = "-foo(bar)";
    let new = "+foo(baz)";
    let (_, new_spans) = compare(old, new);
    assert_eq!(
        changed(new, &new_spans),
        vec!["baz"],
        "the brackets are common to both"
    );
}

#[test]
fn a_wholesale_rewrite_falls_back_to_the_line_colour() {
    // Marking nearly everything adds nothing the red and green did not
    // already say, and reads as visual noise.
    let old = "-alpha beta gamma delta";
    let new = "+one two three four";
    let (old_spans, new_spans) = compare(old, new);

    assert_eq!(old_spans.len(), 1);
    assert!(!old_spans[0].changed, "left whole");
    assert_eq!(new_spans.len(), 1);
    assert!(!new_spans[0].changed);
}

#[test]
fn an_enormous_line_is_left_alone_rather_than_stalling_the_draw() {
    // A minified bundle is one line; the quadratic middle would be felt.
    let old = format!("-{}", "a ".repeat(MAX_LINE));
    let new = format!("+{}", "b ".repeat(MAX_LINE));
    let (old_spans, _) = compare(&old, &new);
    assert_eq!(old_spans.len(), 1, "no word-level work was attempted");
}

#[test]
fn identical_lines_report_nothing_changed() {
    let (old_spans, new_spans) = compare("-same text", "+same text");
    assert!(changed("-same text", &old_spans).is_empty());
    assert!(changed("+same text", &new_spans).is_empty());
}

#[test]
fn multibyte_text_slices_on_character_boundaries() {
    // The spans are byte offsets used to slice the line; landing inside a
    // character would panic at render time.
    let old = "-let název = 1;";
    let new = "+let hodnota = 1;";
    let (old_spans, new_spans) = compare(old, new);

    // Slicing is the assertion: a bad boundary panics here.
    assert_eq!(changed(old, &old_spans), vec!["název"]);
    assert_eq!(changed(new, &new_spans), vec!["hodnota"]);
}

#[test]
fn an_empty_line_produces_one_span_covering_nothing() {
    let (_, spans) = compare("-", "+");
    let total: usize = spans.iter().map(|s| s.end - s.start).sum();
    assert_eq!(total, 1, "just the marker");
}

#[test]
fn a_removal_and_the_addition_after_it_are_compared() {
    let lines = parsed(&["@@ -1,1 +1,1 @@", "-let a = 1;", "+let b = 1;"]);
    let spans = compute(&lines);

    assert!(spans[0].is_none(), "a hunk header has nothing to pair with");
    let removed = spans[1].as_ref().expect("the removal was compared");
    assert_eq!(changed(&lines[1].text, removed), vec!["a"]);
    let added = spans[2].as_ref().expect("the addition was compared");
    assert_eq!(changed(&lines[2].text, added), vec!["b"]);
}

#[test]
fn runs_pair_up_line_by_line_in_order() {
    // Git emits every removal, then every addition; the first removal
    // belongs with the first addition, not with the one next to it.
    let lines = parsed(&["-one a", "-two b", "+one x", "+two y"]);
    let spans = compute(&lines);

    assert_eq!(
        changed(&lines[0].text, spans[0].as_ref().unwrap()),
        vec!["a"]
    );
    assert_eq!(
        changed(&lines[1].text, spans[1].as_ref().unwrap()),
        vec!["b"]
    );
    assert_eq!(
        changed(&lines[2].text, spans[2].as_ref().unwrap()),
        vec!["x"]
    );
    assert_eq!(
        changed(&lines[3].text, spans[3].as_ref().unwrap()),
        vec!["y"]
    );
}

#[test]
fn an_unpaired_line_keeps_its_whole_line_colour() {
    // Three removals and one addition: only the first pair corresponds to
    // anything, and guessing at the rest would highlight noise.
    let lines = parsed(&["-a", "-b", "-c", "+a!"]);
    let spans = compute(&lines);

    assert!(spans[0].is_some(), "the first removal pairs");
    assert!(spans[1].is_none(), "the second has no counterpart");
    assert!(spans[2].is_none());
}

#[test]
fn a_pure_addition_is_left_whole() {
    // Nothing was replaced, so there is no "which words" question to ask.
    let lines = parsed(&["@@ -1,0 +1,2 @@", "+brand new", "+also new"]);
    let spans = compute(&lines);
    assert!(spans.iter().all(Option::is_none));
}

#[test]
fn a_pure_removal_is_left_whole() {
    let lines = parsed(&["@@ -1,2 +1,0 @@", "-gone", "-also gone"]);
    let spans = compute(&lines);
    assert!(spans.iter().all(Option::is_none));
}

#[test]
fn context_between_two_changes_separates_them() {
    // The addition below the context belongs to the second change, and
    // must not be paired with the removal above it.
    let lines = parsed(&["-first", " context", "+second"]);
    let spans = compute(&lines);
    assert!(spans[0].is_none(), "no addition follows this removal");
    assert!(spans[2].is_none(), "no removal precedes this addition");
}

#[test]
fn the_result_is_indexed_the_same_way_as_the_diff() {
    // The renderer looks spans up by line index; a length mismatch would
    // silently shift every highlight.
    let lines = parsed(&["@@ -1,3 +1,3 @@", " a", "-b", "+c", " d"]);
    assert_eq!(compute(&lines).len(), lines.len());
}

#[test]
fn a_word_moved_within_the_line_is_reported_as_a_change() {
    // Order carries meaning in code: `a - b` is not `b - a`, and a set
    // comparison would call this line unchanged.
    let old = "-x = a - b;";
    let new = "+x = b - a;";
    let (_, new_spans) = compare(old, new);
    assert!(
        !changed(new, &new_spans).is_empty(),
        "the reordering is visible"
    );
}
