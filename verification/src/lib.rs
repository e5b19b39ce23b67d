//! Vertical rhythm typography: the exact integer layer of a baseline grid.
//!
//! Text on a vertical rhythm grid advances by whole rhythm rows. This crate
//! holds the parts of that model that are exact: row arithmetic for blocks and
//! their fragments, the line-height counts that cover a set of faces, the line
//! box of a sunk drop cap, and the outcome of measuring an ideographic
//! character face from a set of probe glyphs.
mod counts;
mod icf;
mod rows;

pub use rows::{
    checked_rows, lemma_first_last_partition_rows, lemma_fragments_partition_rows,
    lemma_middle_rows_total, lemma_three_fragments_partition_rows, lemma_each_line_advances_line_rhythms,
    lemma_baseline_block_rows, lemma_cap_block_rows, total_lines, fits_i32,
    BlockRowsView, RhythmBlockRows,
};

pub use icf::{
    icf_measurement, icf_selection, lemma_all_failed_queries_report_no_probe_bounds,
    lemma_no_usable_probe_no_candidates, lemma_one_usable_probe_succeeds,
    lemma_rejected_bounds_win_over_failed_queries, lemma_unresolved_font_reported_first,
    lemma_resolved_measurement_selects_over_every_probe,
    lemma_measured_candidates_come_from_usable_probes, lemma_measurement_failures,
    measure_icf_ascents, result_view, returned_bounds, select_icf_ascents, usable_ascents,
    IcfMeasurementError, IcfProbe,
};

pub use counts::{
    covering_count, covering_line_rhythms, drop_cap_line_rhythms,
    lemma_covering_is_least_upper_bound, lemma_floor_count_grows_only_when_needed, max_requested,
};
