use rhythm_gpui::{checked_rows, RhythmBlockRows};

// A Georgia-like 16px body on a 3-unit line.
const BODY_LINE_RHYTHMS: u32 = 3;

fn blocks() -> [RhythmBlockRows; 4] {
    [
        RhythmBlockRows::new(BODY_LINE_RHYTHMS, 3, 1),
        RhythmBlockRows::cap(BODY_LINE_RHYTHMS, 3, 0),
        RhythmBlockRows::new(BODY_LINE_RHYTHMS, -2, 1),
        RhythmBlockRows::cap(BODY_LINE_RHYTHMS, -2, -1),
    ]
}

#[test]
fn fragment_rows_partition_the_block_exactly() {
    for block in blocks() {
        let line_rhythms = block.line_rhythms() as i32;
        assert_eq!(
            block.first_rows(2) + block.middle_rows(4) + block.last_rows(3),
            block.rows(9)
        );
        assert_eq!(block.first_rows(1) + block.last_rows(1), block.rows(2));
        assert_eq!(block.first_rows(5), block.top_rhythms() + 5 * line_rhythms);
        assert_eq!(block.middle_rows(4), 4 * line_rhythms);
        let trailing = if block.is_cap_anchored() {
            0
        } else {
            line_rhythms
        };
        assert_eq!(
            block.last_rows(3),
            3 * line_rhythms + block.bottom_rhythms() - trailing
        );
    }
}

#[test]
fn baseline_block_rows_follow_the_closed_form() {
    let block = RhythmBlockRows::new(BODY_LINE_RHYTHMS, 3, 1);
    for lines in [1u32, 2, 5, 40] {
        assert_eq!(block.rows(lines), 3 + 1 + (lines as i32 - 1) * 3);
    }
    // Five wrapped lines cover sixteen whole rhythm rows.
    assert_eq!(block.rows(5), 16);
}

#[test]
fn cap_block_rows_follow_the_closed_form() {
    let cap = RhythmBlockRows::cap(BODY_LINE_RHYTHMS, 3, 0);
    for lines in [1u32, 2, 5] {
        assert_eq!(cap.rows(lines), 3 + lines as i32 * 3);
    }
    assert!(cap.is_cap_anchored());
    assert!(!RhythmBlockRows::new(BODY_LINE_RHYTHMS, 3, 0).is_cap_anchored());
}

#[test]
fn negative_anchor_counts_keep_exact_rows() {
    let block = RhythmBlockRows::new(BODY_LINE_RHYTHMS, 0, -1);
    assert_eq!(block.rows(2), 0 - 1 + 3);
    assert_eq!(block.top_rhythms(), 0);
    assert_eq!(block.bottom_rhythms(), -1);
}

#[test]
fn a_fragment_cursor_reaches_the_whole_block_rows() {
    // Split 2 / 4 / 1 / 3 / 2, accumulated in an i64 cursor.
    for block in blocks() {
        let mut rows = i64::from(block.first_rows(2));
        for lines in [4u32, 1, 3] {
            rows += i64::from(block.middle_rows(lines));
        }
        rows += i64::from(block.last_rows(2));
        assert_eq!(rows, i64::from(block.rows(2 + 4 + 1 + 3 + 2)));
    }
}

#[test]
fn single_line_blocks_span_exactly_their_anchors() {
    let block = RhythmBlockRows::new(5, 4, 2);
    assert_eq!(block.rows(1), 6);
    assert_eq!(block.first_rows(1), 9);
    assert_eq!(block.last_rows(1), 2);
    assert_eq!(block.line_rhythms(), 5);
}

#[test]
fn wide_counts_stay_exact_up_to_the_i32_limit() {
    // u32::MAX / 2 lines of one row each: the product is computed without
    // overflow and still fits the i32 result.
    let block = RhythmBlockRows::cap(1, 0, 0);
    let lines = (i32::MAX as u32) - 1;
    assert_eq!(block.rows(lines), i32::MAX - 1);
    assert_eq!(block.middle_rows(lines), i32::MAX - 1);
}

#[test]
fn checked_rows_keeps_in_range_counts() {
    assert_eq!(checked_rows(0), 0);
    assert_eq!(checked_rows(i128::from(i32::MAX)), i32::MAX);
    assert_eq!(checked_rows(i128::from(i32::MIN)), i32::MIN);
    assert_eq!(checked_rows(-17), -17);
}

#[test]
fn counts_outside_i32_are_reported_instead_of_wrapping() {
    let block = RhythmBlockRows::new(u32::MAX, 0, 0);
    assert_eq!(block.try_rows(2), None);
    assert_eq!(block.try_first_rows(1), None);
    assert_eq!(block.try_middle_rows(1), None);
    assert_eq!(block.try_last_rows(2), None);
    // One line of a baseline block closes on its anchors alone.
    assert_eq!(block.try_rows(1), Some(0));
    assert_eq!(block.try_last_rows(1), Some(0));
}

#[test]
fn checked_variants_agree_with_the_exact_counts() {
    for block in blocks() {
        for lines in [1u32, 2, 7] {
            assert_eq!(block.try_rows(lines), Some(block.rows(lines)));
            assert_eq!(block.try_first_rows(lines), Some(block.first_rows(lines)));
            assert_eq!(block.try_middle_rows(lines), Some(block.middle_rows(lines)));
            assert_eq!(block.try_last_rows(lines), Some(block.last_rows(lines)));
        }
    }
}
