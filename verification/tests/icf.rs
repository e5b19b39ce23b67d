use rhythm_gpui::{measure_icf_ascents, select_icf_ascents, IcfMeasurementError, IcfProbe};

#[test]
fn one_usable_probe_makes_the_selection_succeed() {
    let probes = [IcfProbe::Failed, IcfProbe::Usable(13.2f32)];
    assert_eq!(select_icf_ascents(&probes), Ok(vec![13.2f32]));
}

#[test]
fn rejected_bounds_win_over_failed_probe_queries() {
    let probes: [IcfProbe<f32>; 2] = [IcfProbe::Failed, IcfProbe::Rejected];
    assert_eq!(
        select_icf_ascents(&probes),
        Err(IcfMeasurementError::NoUsableBounds)
    );
    let only_rejected: [IcfProbe<f32>; 1] = [IcfProbe::Rejected];
    assert_eq!(
        select_icf_ascents(&only_rejected),
        Err(IcfMeasurementError::NoUsableBounds)
    );
}

#[test]
fn all_failed_queries_report_no_probe_bounds() {
    let probes: [IcfProbe<f32>; 3] = [IcfProbe::Failed, IcfProbe::Failed, IcfProbe::Failed];
    assert_eq!(
        select_icf_ascents(&probes),
        Err(IcfMeasurementError::NoProbeBounds)
    );
    let none: [IcfProbe<f32>; 0] = [];
    assert_eq!(select_icf_ascents(&none), Err(IcfMeasurementError::NoProbeBounds));
}

#[test]
fn usable_candidates_keep_probe_order() {
    let probes = [
        IcfProbe::Usable(13.1f32),
        IcfProbe::Rejected,
        IcfProbe::Usable(13.4),
        IcfProbe::Failed,
        IcfProbe::Usable(12.9),
    ];
    let ascents = select_icf_ascents(&probes).unwrap();
    assert_eq!(ascents, vec![13.1f32, 13.4, 12.9]);
    let tallest = ascents.iter().copied().fold(f32::MIN, f32::max);
    assert_eq!(tallest, 13.4);
}

#[test]
fn measurement_reports_an_unresolved_font_first() {
    let probes = [IcfProbe::Usable(13.2f32)];
    assert_eq!(
        measure_icf_ascents(false, &probes),
        Err(IcfMeasurementError::UnresolvedFont)
    );
    let none: [IcfProbe<f32>; 0] = [];
    assert_eq!(
        measure_icf_ascents(false, &none),
        Err(IcfMeasurementError::UnresolvedFont)
    );
}

#[test]
fn measurement_rejects_empty_probes() {
    let none: [IcfProbe<f32>; 0] = [];
    assert_eq!(
        measure_icf_ascents(true, &none),
        Err(IcfMeasurementError::EmptyProbes)
    );
}

#[test]
fn measurement_of_a_resolved_font_selects_over_its_probes() {
    let probes = [IcfProbe::Rejected, IcfProbe::Usable(13.2f32)];
    assert_eq!(measure_icf_ascents(true, &probes), Ok(vec![13.2f32]));
    let failed: [IcfProbe<f32>; 1] = [IcfProbe::Failed];
    assert_eq!(
        measure_icf_ascents(true, &failed),
        Err(IcfMeasurementError::NoProbeBounds)
    );
}

#[test]
fn every_error_has_its_message() {
    assert_eq!(
        IcfMeasurementError::UnresolvedFont.message(),
        "the rhythm font has no TextSystem-resolved font identity"
    );
    assert_eq!(
        IcfMeasurementError::EmptyProbes.message(),
        "no ICF probe glyphs were supplied"
    );
    assert_eq!(
        IcfMeasurementError::NoProbeBounds.message(),
        "the text backend returned no bounds for any ICF probe"
    );
    assert_eq!(
        IcfMeasurementError::NoUsableBounds.message(),
        "probe bounds were returned, but none described usable glyph ink"
    );
}
