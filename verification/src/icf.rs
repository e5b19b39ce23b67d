//! The outcome of measuring an ideographic character face (ICF).
//!
//! The face's top edge is measured from the ink of a set of full-frame probe
//! glyphs. Each probe either fails to return bounds, returns bounds that do not
//! describe usable ink (they must straddle the alphabetic baseline), or yields
//! a candidate ascent. The measurement succeeds with the usable candidates, in
//! probe order; otherwise it reports what was observable.
use vstd::prelude::*;

verus! {

/// Why an ideographic character-face measurement could not produce an anchor.
///
/// The variants describe what was observable through the text backend, not a
/// guessed platform cause.
#[derive(Debug, Clone, Copy, PartialEq, Eq, Structural)]
pub enum IcfMeasurementError {
    /// The font has no text-system-resolved identity to measure.
    UnresolvedFont,
    /// The probe string was empty.
    EmptyProbes,
    /// The backend returned an error instead of bounds for every probe.
    NoProbeBounds,
    /// At least one probe returned bounds, but none were finite and spanned
    /// the alphabetic baseline.
    NoUsableBounds,
}

impl IcfMeasurementError {
    /// The human-readable description of the error.
    pub fn message(&self) -> (r: &'static str)
        ensures
            r@ == (match *self {
                IcfMeasurementError::UnresolvedFont =>
                    "the rhythm font has no TextSystem-resolved font identity"@,
                IcfMeasurementError::EmptyProbes => "no ICF probe glyphs were supplied"@,
                IcfMeasurementError::NoProbeBounds =>
                    "the text backend returned no bounds for any ICF probe"@,
                IcfMeasurementError::NoUsableBounds =>
                    "probe bounds were returned, but none described usable glyph ink"@,
            }),
    {
        match self {
            IcfMeasurementError::UnresolvedFont =>
                "the rhythm font has no TextSystem-resolved font identity",
            IcfMeasurementError::EmptyProbes => "no ICF probe glyphs were supplied",
            IcfMeasurementError::NoProbeBounds =>
                "the text backend returned no bounds for any ICF probe",
            IcfMeasurementError::NoUsableBounds =>
                "probe bounds were returned, but none described usable glyph ink",
        }
    }
}

/// What one probe glyph's bounds query produced.
#[derive(Debug, Clone, Copy, PartialEq)]
pub enum IcfProbe<A> {
    /// The backend returned an error instead of bounds.
    Failed,
    /// Bounds were returned but do not describe usable ideographic ink.
    Rejected,
    /// Usable ink, with the ascent of its top edge above the baseline.
    Usable(A),
}

/// The candidate ascents of the usable probes, in probe order.
pub open spec fn usable_ascents<A>(probes: Seq<IcfProbe<A>>) -> Seq<A>
    decreases probes.len(),
{
    if probes.len() == 0 {
        Seq::empty()
    } else {
        let earlier = usable_ascents(probes.drop_last());
        match probes.last() {
            IcfProbe::Usable(ascent) => earlier.push(ascent),
            _ => earlier,
        }
    }
}

/// Whether any probe returned bounds, usable or not.
pub open spec fn returned_bounds<A>(probes: Seq<IcfProbe<A>>) -> bool {
    exists|i: int| 0 <= i < probes.len() && !(probes[i] is Failed)
}

/// Selection over the probes: the usable candidates when there are any;
/// otherwise returned-but-rejected bounds report `NoUsableBounds`, and only
/// when no probe returned bounds at all is the result `NoProbeBounds`.
pub open spec fn icf_selection<A>(probes: Seq<IcfProbe<A>>) -> Result<
    Seq<A>,
    IcfMeasurementError,
> {
    if usable_ascents(probes).len() > 0 {
        Ok(usable_ascents(probes))
    } else if returned_bounds(probes) {
        Err(IcfMeasurementError::NoUsableBounds)
    } else {
        Err(IcfMeasurementError::NoProbeBounds)
    }
}

/// The whole measurement: an unresolved font is reported first, then an
/// empty probe set, then the selection over the probes.
pub open spec fn icf_measurement<A>(resolved: bool, probes: Seq<IcfProbe<A>>) -> Result<
    Seq<A>,
    IcfMeasurementError,
> {
    if !resolved {
        Err(IcfMeasurementError::UnresolvedFont)
    } else if probes.len() == 0 {
        Err(IcfMeasurementError::EmptyProbes)
    } else {
        icf_selection(probes)
    }
}

/// An executable result taken by its view.
pub open spec fn result_view<A>(r: Result<Vec<A>, IcfMeasurementError>) -> Result<
    Seq<A>,
    IcfMeasurementError,
> {
    match r {
        Ok(v) => Ok(v@),
        Err(e) => Err(e),
    }
}

proof fn lemma_usable_ascents_step<A>(probes: Seq<IcfProbe<A>>, i: int)
    requires
        0 <= i < probes.len(),
    ensures
        probes.take(i + 1).drop_last() == probes.take(i),
        probes.take(i + 1).last() == probes[i],
        returned_bounds(probes.take(i + 1)) == (returned_bounds(probes.take(i)) || !(
        probes[i] is Failed)),
{
    let next = probes.take(i + 1);
    assert(next.drop_last() =~= probes.take(i));
    if returned_bounds(probes.take(i)) {
        let j = choose|j: int| 0 <= j < i && !(probes.take(i)[j] is Failed);
        assert(!(next[j] is Failed));
    }
    if !(probes[i] is Failed) {
        assert(!(next[i] is Failed));
    }
    if returned_bounds(next) {
        let j = choose|j: int| 0 <= j < i + 1 && !(next[j] is Failed);
        if j < i {
            assert(!(probes.take(i)[j] is Failed));
        }
    }
}

/// Select the usable candidate ascents over `probes`, or report why none
/// could be found.
pub fn select_icf_ascents<A: Copy>(probes: &[IcfProbe<A>]) -> (r: Result<
    Vec<A>,
    IcfMeasurementError,
>)
    ensures
        result_view(r) == icf_selection(probes@),
{
    let mut saw_bounds = false;
    let mut ascents: Vec<A> = Vec::new();
    let mut i: usize = 0;
    while i < probes.len()
        invariant
            0 <= i <= probes@.len(),
            ascents@ == usable_ascents(probes@.take(i as int)),
            saw_bounds == returned_bounds(probes@.take(i as int)),
        decreases probes@.len() - i,
    {
        proof {
            lemma_usable_ascents_step(probes@, i as int);
        }
        match &probes[i] {
            IcfProbe::Failed => {},
            IcfProbe::Rejected => {
                saw_bounds = true;
            },
            IcfProbe::Usable(ascent) => {
                saw_bounds = true;
                ascents.push(*ascent);
            },
        }
        i = i + 1;
    }
    assert(probes@.take(probes@.len() as int) =~= probes@);
    if ascents.len() > 0 {
        Ok(ascents)
    } else if saw_bounds {
        Err(IcfMeasurementError::NoUsableBounds)
    } else {
        Err(IcfMeasurementError::NoProbeBounds)
    }
}

/// The measurement outcome for a font that is `resolved` (or not) and the
/// classified bounds of its probe glyphs, in probe order. When the font is
/// unresolved nothing can be queried, and the probes are not consulted.
pub fn measure_icf_ascents<A: Copy>(resolved: bool, probes: &[IcfProbe<A>]) -> (r: Result<
    Vec<A>,
    IcfMeasurementError,
>)
    ensures
        result_view(r) == icf_measurement(resolved, probes@),
        forall|i: int|
            0 <= i < probes@.len() && resolved && #[trigger] probes@[i] is Usable ==> r is Ok
                && r->Ok_0@.contains(probes@[i]->Usable_0),
{
    proof {
        assert forall|i: int|
            0 <= i < probes@.len() && resolved && #[trigger] probes@[i] is Usable implies
                icf_measurement(resolved, probes@) is Ok && icf_measurement(
                resolved,
                probes@,
            )->Ok_0.contains(probes@[i]->Usable_0) by {
            lemma_resolved_measurement_selects_over_every_probe(probes@, i);
        }
    }
    if !resolved {
        return Err(IcfMeasurementError::UnresolvedFont);
    }
    if probes.len() == 0 {
        return Err(IcfMeasurementError::EmptyProbes);
    }
    select_icf_ascents(probes)
}

/// One usable probe makes the aggregate selection succeed, and its ascent is
/// among the candidates, whatever the other probes returned.
pub proof fn lemma_one_usable_probe_succeeds<A>(probes: Seq<IcfProbe<A>>, i: int)
    requires
        0 <= i < probes.len(),
        probes[i] is Usable,
    ensures
        icf_selection(probes) is Ok,
        icf_selection(probes)->Ok_0.contains(probes[i]->Usable_0),
    decreases probes.len(),
{
    if i == probes.len() - 1 {
        assert(usable_ascents(probes).last() == probes[i]->Usable_0);
        assert(usable_ascents(probes)[usable_ascents(probes).len() - 1] == probes[i]->Usable_0);
    } else {
        let earlier = probes.drop_last();
        assert(earlier[i] == probes[i]);
        lemma_one_usable_probe_succeeds(earlier, i);
        let cands = usable_ascents(earlier);
        let k = choose|k: int| 0 <= k < cands.len() && cands[k] == probes[i]->Usable_0;
        match probes.last() {
            IcfProbe::Usable(a) => {
                assert(usable_ascents(probes)[k] == cands[k]);
            },
            _ => {},
        }
        assert(usable_ascents(probes)[k] == probes[i]->Usable_0);
    }
}

/// With no usable probe, a probe that returned rejected bounds wins over
/// failed queries: the result is `NoUsableBounds`, not `NoProbeBounds`.
pub proof fn lemma_rejected_bounds_win_over_failed_queries<A>(probes: Seq<IcfProbe<A>>, i: int)
    requires
        0 <= i < probes.len(),
        probes[i] is Rejected,
        forall|j: int| 0 <= j < probes.len() ==> !(#[trigger] probes[j] is Usable),
    ensures
        icf_selection(probes) == Err::<Seq<A>, IcfMeasurementError>(
            IcfMeasurementError::NoUsableBounds,
        ),
{
    lemma_no_usable_probe_no_candidates(probes);
    assert(!(probes[i] is Failed));
}

/// When every probe query failed, the selection reports `NoProbeBounds`.
pub proof fn lemma_all_failed_queries_report_no_probe_bounds<A>(probes: Seq<IcfProbe<A>>)
    requires
        forall|j: int| 0 <= j < probes.len() ==> #[trigger] probes[j] is Failed,
    ensures
        icf_selection(probes) == Err::<Seq<A>, IcfMeasurementError>(
            IcfMeasurementError::NoProbeBounds,
        ),
{
    lemma_no_usable_probe_no_candidates(probes);
}

/// Without usable probes there are no candidates.
pub proof fn lemma_no_usable_probe_no_candidates<A>(probes: Seq<IcfProbe<A>>)
    requires
        forall|j: int| 0 <= j < probes.len() ==> !(#[trigger] probes[j] is Usable),
    ensures
        usable_ascents(probes).len() == 0,
    decreases probes.len(),
{
    if probes.len() > 0 {
        let earlier = probes.drop_last();
        assert forall|j: int| 0 <= j < earlier.len() implies !(#[trigger] earlier[j] is Usable) by {
            assert(earlier[j] == probes[j]);
        }
        lemma_no_usable_probe_no_candidates(earlier);
        assert(!(probes[probes.len() - 1] is Usable));
    }
}

/// An unresolved font is reported before anything about its probes.
pub proof fn lemma_unresolved_font_reported_first<A>(probes: Seq<IcfProbe<A>>)
    ensures
        icf_measurement(false, probes) == Err::<Seq<A>, IcfMeasurementError>(
            IcfMeasurementError::UnresolvedFont,
        ),
{
}

/// The measurement of a resolved font over a non-empty probe set is the
/// selection over every probe: one usable probe, at any position, makes it
/// succeed with that probe's ascent among the candidates, whatever the other
/// probes returned; every candidate is the ascent of some usable probe.
pub proof fn lemma_resolved_measurement_selects_over_every_probe<A>(
    probes: Seq<IcfProbe<A>>,
    i: int,
)
    requires
        0 <= i < probes.len(),
        probes[i] is Usable,
    ensures
        icf_measurement(true, probes) is Ok,
        icf_measurement(true, probes)->Ok_0.contains(probes[i]->Usable_0),
{
    lemma_one_usable_probe_succeeds(probes, i);
}

/// Every candidate of a measurement is the ascent of some usable probe, and
/// a successful measurement needs a resolved font and at least one usable
/// probe.
pub proof fn lemma_measured_candidates_come_from_usable_probes<A>(
    resolved: bool,
    probes: Seq<IcfProbe<A>>,
)
    requires
        icf_measurement(resolved, probes) is Ok,
    ensures
        resolved,
        icf_measurement(resolved, probes)->Ok_0.len() > 0,
        forall|k: int|
            0 <= k < icf_measurement(resolved, probes)->Ok_0.len() ==> exists|j: int|
                0 <= j < probes.len() && probes[j] == IcfProbe::Usable(
                    #[trigger] icf_measurement(resolved, probes)->Ok_0[k],
                ),
{
    lemma_usable_ascents_sound(probes);
}

proof fn lemma_usable_ascents_sound<A>(probes: Seq<IcfProbe<A>>)
    ensures
        forall|k: int|
            0 <= k < usable_ascents(probes).len() ==> exists|j: int|
                0 <= j < probes.len() && probes[j] == IcfProbe::Usable(
                    #[trigger] usable_ascents(probes)[k],
                ),
    decreases probes.len(),
{
    if probes.len() > 0 {
        let earlier = probes.drop_last();
        lemma_usable_ascents_sound(earlier);
        let cands = usable_ascents(probes);
        assert forall|k: int| 0 <= k < cands.len() implies exists|j: int|
            0 <= j < probes.len() && probes[j] == IcfProbe::Usable(#[trigger] cands[k]) by {
            if k < usable_ascents(earlier).len() {
                assert(cands[k] == usable_ascents(earlier)[k]);
                let j = choose|j: int|
                    0 <= j < earlier.len() && earlier[j] == IcfProbe::Usable(
                        usable_ascents(earlier)[k],
                    );
                assert(probes[j] == earlier[j]);
            } else {
                assert(probes[probes.len() - 1] == IcfProbe::Usable(cands[k]));
            }
        }
    }
}

/// A resolved font whose probes include no usable ink reports what was
/// observable: `NoUsableBounds` when some probe returned rejected bounds, and
/// `NoProbeBounds` when every probe query failed; an empty probe set is
/// `EmptyProbes`, and an unresolved font is `UnresolvedFont` whatever its
/// probes.
pub proof fn lemma_measurement_failures<A>(resolved: bool, probes: Seq<IcfProbe<A>>)
    ensures
        !resolved ==> icf_measurement(resolved, probes) == Err::<Seq<A>, IcfMeasurementError>(
            IcfMeasurementError::UnresolvedFont,
        ),
        resolved && probes.len() == 0 ==> icf_measurement(resolved, probes) == Err::<
            Seq<A>,
            IcfMeasurementError,
        >(IcfMeasurementError::EmptyProbes),
        resolved && (forall|j: int| 0 <= j < probes.len() ==> !(#[trigger] probes[j] is Usable))
            && (exists|j: int| 0 <= j < probes.len() && #[trigger] probes[j] is Rejected)
            ==> icf_measurement(resolved, probes) == Err::<Seq<A>, IcfMeasurementError>(
            IcfMeasurementError::NoUsableBounds,
        ),
        resolved && probes.len() > 0 && (forall|j: int|
            0 <= j < probes.len() ==> #[trigger] probes[j] is Failed) ==> icf_measurement(
            resolved,
            probes,
        ) == Err::<Seq<A>, IcfMeasurementError>(IcfMeasurementError::NoProbeBounds),
{
    if resolved && (forall|j: int| 0 <= j < probes.len() ==> !(#[trigger] probes[j] is Usable))
        && (exists|j: int| 0 <= j < probes.len() && #[trigger] probes[j] is Rejected) {
        let j = choose|j: int| 0 <= j < probes.len() && #[trigger] probes[j] is Rejected;
        lemma_rejected_bounds_win_over_failed_queries(probes, j);
    }
    if resolved && probes.len() > 0 && (forall|j: int|
        0 <= j < probes.len() ==> #[trigger] probes[j] is Failed) {
        lemma_all_failed_queries_report_no_probe_bounds(probes);
    }
}

} // verus!
