use rhythm_gpui::{covering_line_rhythms, drop_cap_line_rhythms};

#[test]
fn covering_keeps_the_tallest_requested_count() {
    // Ink that fits everywhere: the count comes from the members.
    assert_eq!(covering_line_rhythms(&[3, 5], 3), 5);
    // A single member whose ink fits is its own covering count.
    assert_eq!(covering_line_rhythms(&[3], 3), 3);
}

#[test]
fn covering_grows_to_the_combined_ink() {
    // Body and display faces on a three-row line: 34.8px of combined ink on
    // an 8px grid needs five rows.
    assert_eq!(covering_line_rhythms(&[3, 3, 3], 5), 5);
    assert_eq!(covering_line_rhythms(&[3, 6], 5), 6);
}

#[test]
fn a_floor_count_grows_only_when_the_ink_needs_it() {
    assert_eq!(covering_line_rhythms(&[3], 4), 4);
    assert_eq!(covering_line_rhythms(&[6], 4), 6);
}

#[test]
fn covering_is_at_least_one_row() {
    assert_eq!(covering_line_rhythms(&[0], 0), 1);
}

#[test]
fn drop_cap_line_box_spans_the_sunk_lines() {
    assert_eq!(drop_cap_line_rhythms(3, 3), 9);
    assert_eq!(drop_cap_line_rhythms(3, 2), 6);
    assert_eq!(drop_cap_line_rhythms(5, 1), 5);
    assert_eq!(drop_cap_line_rhythms(u32::MAX, 1), u32::MAX);
}
