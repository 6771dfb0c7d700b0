use embarch_ui::logs::{diff_new_lines, publish_new_lines};

fn lines(strs: &[&str]) -> Vec<String> {
    strs.iter().map(|s| s.to_string()).collect()
}

#[test]
fn no_change_produces_no_new_lines() {
    let a = lines(&["one", "two", "three"]);
    assert!(diff_new_lines(&a, &a.clone()).is_empty());
}

#[test]
fn appended_lines_are_found_past_the_anchor() {
    let previous = lines(&["one", "two", "three"]);
    let new = lines(&["one", "two", "three", "four", "five"]);
    assert_eq!(diff_new_lines(&previous, &new), lines(&["four", "five"]));
}

#[test]
fn window_sliding_forward_still_anchors_correctly() {
    // "one" aged out of the tail window entirely; "three" is still the
    // anchor to find.
    let previous = lines(&["one", "two", "three"]);
    let new = lines(&["two", "three", "four"]);
    assert_eq!(diff_new_lines(&previous, &new), lines(&["four"]));
}

#[test]
fn anchor_aging_out_entirely_falls_back_to_the_whole_new_window() {
    let previous = lines(&["one", "two", "three"]);
    let new = lines(&["ten", "eleven", "twelve"]);
    assert_eq!(diff_new_lines(&previous, &new), new);
}

#[test]
fn empty_previous_replays_the_first_real_window() {
    let new = lines(&["one", "two"]);
    assert_eq!(diff_new_lines(&lines(&[]), &new), new);
}

#[test]
fn a_line_repeating_later_in_the_window_does_not_swallow_what_precedes_it() {
    let previous = lines(&["start", "repeat"]);
    let new = lines(&["start", "repeat", "middle", "repeat", "end"]);
    assert_eq!(diff_new_lines(&previous, &new), lines(&["middle", "repeat", "end"]));
}

#[test]
fn identical_repeated_lines_advance_by_what_was_appended() {
    let previous = lines(&["tick", "tick", "tick"]);
    let new = lines(&["tick", "tick", "tick", "tick"]);
    assert_eq!(diff_new_lines(&previous, &new), lines(&["tick"]));
}

#[test]
fn a_batch_is_published_only_where_there_is_something_new() {
    let mut seen = lines(&["one"]);
    assert_eq!(publish_new_lines(&mut seen, lines(&["one", "two"])), Some(lines(&["two"])));
    assert_eq!(seen, lines(&["one", "two"]));
    assert_eq!(publish_new_lines(&mut seen, lines(&["one", "two"])), None);
}
