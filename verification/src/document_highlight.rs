//! Document highlight support.
use vstd::prelude::*;

use crate::hir::Analysis;
use crate::order::{in_order, law_sorted, sort, sorted, Ordered};
use crate::protocol::{DocumentHighlight, DocumentHighlightKind, LocationParts, Position};
use crate::references::{
    collect_reference_locations, range_before, range_less, reference_target_at, sorted_references,
    target_at,
};
use crate::seqs::{filter_map, views};
use crate::state::WorldState;
use crate::url::{Url, UrlParts};

verus! {

impl Ordered for DocumentHighlight {
    open spec fn before(self, other: DocumentHighlight) -> bool {
        range_before(self.range, other.range)
    }

    fn is_before(&self, other: &DocumentHighlight) -> (before: bool) {
        range_less(&self.range, &other.range)
    }

    proof fn lemma_asymmetric(a: DocumentHighlight, b: DocumentHighlight) {
    }

    proof fn lemma_not_behind(a: DocumentHighlight, b: DocumentHighlight, c: DocumentHighlight) {
    }
}

/// The highlight of a location in a document. Declarations and uses are not told apart, so
/// highlights are textual.
pub open spec fn highlight_of(location: LocationParts, uri: UrlParts) -> Option<DocumentHighlight> {
    if location.uri.text == uri.text {
        Some(
            DocumentHighlight { range: location.range, kind: Some(DocumentHighlightKind::Text) },
        )
    } else {
        None
    }
}

/// The highlights of some locations in a document.
pub open spec fn highlights_of(locations: Seq<LocationParts>, uri: UrlParts) -> Seq<DocumentHighlight> {
    sorted(filter_map(locations, |location: LocationParts| highlight_of(location, uri)))
}

/// Computes same-document highlights for the symbol at a source position.
pub fn handle_document_highlight(
    world: &WorldState,
    analysis: &Analysis,
    uri: &Url,
    position: Position,
) -> (highlights: Option<Vec<DocumentHighlight>>)
    ensures
        match target_at(world@, analysis.files@, uri@, position) {
            Some(target) => highlights is Some && highlights->0@ == highlights_of(
                sorted_references(world@, *analysis, target, true),
                uri@,
            ),
            None => highlights is None,
        },
{
    let target = match reference_target_at(world, analysis, uri, position) {
        Some(target) => target,
        None => return None,
    };
    let locations = collect_reference_locations(world, analysis, &target, true);
    let ghost all = views(locations@);
    let ghost f = |location: LocationParts| highlight_of(location, uri@);
    let mut highlights: Vec<DocumentHighlight> = Vec::new();
    let mut i: usize = 0;
    assert(all.take(0) == Seq::<LocationParts>::empty());
    while i < locations.len()
        invariant
            i <= all.len(),
            all == views(locations@),
            f == |location: LocationParts| highlight_of(location, uri@),
            highlights@ == filter_map(all.take(i as int), f),
        decreases all.len() - i,
    {
        assert(all.take(i + 1).drop_last() == all.take(i as int));
        assert(all.take(i + 1).last() == locations@[i as int]@);
        if locations[i].uri.same(uri) {
            highlights.push(
                DocumentHighlight {
                    range: locations[i].range,
                    kind: Some(DocumentHighlightKind::Text),
                },
            );
        }
        i += 1;
    }
    assert(all.take(i as int) == all);
    Some(sort(highlights))
}

/// Highlights come in the order of their ranges.
pub proof fn law_highlights_ordered(locations: Seq<LocationParts>, uri: UrlParts)
    ensures
        in_order(highlights_of(locations, uri)),
{
    law_sorted(filter_map(locations, |location: LocationParts| highlight_of(location, uri)));
}

} // verus!
