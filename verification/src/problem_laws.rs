//! What holds of the problems that are reported for a document and of the fixes that are offered.
use vstd::prelude::*;
use vstd::utf8::is_char_boundary;

use crate::analysis::known_text;
use crate::code_actions::{
    action_of, actions_of, asked_at, asks_for, further_suggestions, has_action, import_for,
    import_suggestions, intersecting, missing_import, name_candidates, offered, placed_edit,
    placed_edits, plan_of, plans_for, quick_fixes, same_action, same_edit, settled,
    suggestion_edits, suggestion_of, unrepeated, wants_quick_fixes, with_plans, without_repeats,
    ActionParts, CodeActionContext, MAX_AUTO_IMPORT_CANDIDATES, MissingParts, ModuleFindings,
    PlacedEdit, PlacedParts, PlannedParts, RequestedDiagnostic, SuggestionParts,
};
use crate::diag::{
    Applicability, DiagLabel, DiagRange, ImportCandidate, ImportCandidates, ImportNamespace,
    NameCandidates, NameProblem, Severity, SourceDiagnostic, SuggestedParts,
};
use crate::diagnostics::{
    entry_for, full_message, published_for, reachable, related_of, with_paragraphs, CodeParts,
    DiagnosticSeverity, EntryParts, RelatedParts,
};
use crate::hir::{Analysis, SourceFacts};
use crate::hover_laws::starts_with_text;
use crate::line_index::{byte_at, law_position_round_trip, range_at};
use crate::protocol::{LocationParts, Range};
use crate::rank::{law_ranked, ranked};
use crate::seqs::{
    concat_map, filter_map, law_concat_map, law_filter_map, law_find_map, law_joined, views,
};
use crate::state::{client_uri, known_path, WorldModel};
use crate::target_laws::law_position;
use crate::text::utf8;
use crate::url::UrlParts;

verus! {

/// Whether a text holds another.
pub open spec fn has_part(text: Seq<char>, part: Seq<char>) -> bool {
    exists|front: Seq<char>, back: Seq<char>| text == #[trigger] (front + part + back)
}

proof fn lemma_paragraphs(text: Seq<char>, heading: Seq<char>, paragraphs: Seq<String>)
    ensures
        starts_with_text(with_paragraphs(text, heading, paragraphs), text),
        paragraphs.len() == 0 ==> with_paragraphs(text, heading, paragraphs) == text,
        forall|i: int|
            0 <= i < paragraphs.len() ==> has_part(
                with_paragraphs(text, heading, paragraphs),
                heading + (#[trigger] paragraphs[i])@,
            ),
        forall|part: Seq<char>| #[trigger]
            has_part(text, part) ==> has_part(with_paragraphs(text, heading, paragraphs), part),
    decreases paragraphs.len(),
{
    assert(text.take(text.len() as int) == text);
    if paragraphs.len() > 0 {
        let front = paragraphs.drop_last();
        let before = with_paragraphs(text, heading, front);
        let last = paragraphs.last()@;
        let all = before + heading + last;
        lemma_paragraphs(text, heading, front);
        assert(all.take(text.len() as int) == before.take(text.len() as int));
        assert forall|part: Seq<char>| #[trigger] has_part(before, part) implies has_part(
            all,
            part,
        ) by {
            let (a, b) = choose|a: Seq<char>, b: Seq<char>| before == #[trigger] (a + part + b);
            assert(all == a + part + (b + heading + last));
        }
        assert forall|i: int| 0 <= i < paragraphs.len() implies has_part(
            all,
            heading + (#[trigger] paragraphs[i])@,
        ) by {
            if i < front.len() {
                assert(front[i] == paragraphs[i]);
                assert(has_part(before, heading + front[i]@));
            } else {
                assert(all == before + (heading + last) + Seq::<char>::empty());
            }
        }
    }
}

/// The message of a problem is what was reported, with each note and each help in a paragraph of
/// its own behind it.
pub proof fn law_message(diagnostic: SourceDiagnostic)
    ensures
        starts_with_text(full_message(diagnostic), diagnostic.message@),
        diagnostic.notes@.len() == 0 && diagnostic.helps@.len() == 0 ==> full_message(diagnostic)
            == diagnostic.message@,
        forall|i: int|
            0 <= i < diagnostic.notes@.len() ==> has_part(
                full_message(diagnostic),
                "\n\nnote: "@ + (#[trigger] diagnostic.notes@[i])@,
            ),
        forall|i: int|
            0 <= i < diagnostic.helps@.len() ==> has_part(
                full_message(diagnostic),
                "\n\nhelp: "@ + (#[trigger] diagnostic.helps@[i])@,
            ),
{
    let noted = with_paragraphs(diagnostic.message@, "\n\nnote: "@, diagnostic.notes@);
    lemma_paragraphs(diagnostic.message@, "\n\nnote: "@, diagnostic.notes@);
    lemma_paragraphs(noted, "\n\nhelp: "@, diagnostic.helps@);
    assert(full_message(diagnostic).take(diagnostic.message@.len() as int) == full_message(
        diagnostic,
    ).take(noted.len() as int).take(diagnostic.message@.len() as int));
}

/// A problem is reported in the document that it is in and in no other: at its own place, with its
/// own severity and code.
pub proof fn law_problem_reported(
    world: WorldModel,
    uri: UrlParts,
    text: Seq<char>,
    diagnostic: SourceDiagnostic,
    primary: DiagRange,
    owner: UrlParts,
)
    requires
        known_path(world, uri) is Some,
        known_text(world, uri) == Some(text),
        diagnostic.primary == Some(primary),
        client_uri(world, primary.file_url@) == Some(owner),
    ensures
        published_for(world, uri, diagnostic) is Some <==> owner.text == uri.text,
        published_for(world, uri, diagnostic) matches Some(shown) ==> {
            &&& shown.range == range_at(text, primary.start as int, primary.end as int)
            &&& diagnostic.severity == Severity::Error ==> shown.severity
                == DiagnosticSeverity::Error
            &&& diagnostic.severity == Severity::Warning ==> shown.severity
                == DiagnosticSeverity::Warning
            &&& diagnostic.severity == Severity::Note ==> shown.severity
                == DiagnosticSeverity::Information
            &&& diagnostic.severity == Severity::Help ==> shown.severity == DiagnosticSeverity::Hint
            &&& shown.code == match diagnostic.code {
                Some(code) => Some(CodeParts::Text(code@)),
                None => None,
            }
            &&& shown.source == "solcore"@
            &&& shown.message == full_message(diagnostic)
        },
{
}

/// What belongs to a problem is shown with it: each label with a message that is not its own
/// place, at a place in a known document.
pub proof fn law_related(
    world: WorldModel,
    uri: UrlParts,
    diagnostic: SourceDiagnostic,
    related: RelatedParts,
)
    requires
        published_for(world, uri, diagnostic) is Some,
    ensures
        published_for(world, uri, diagnostic)->0.related_information.contains(related) <==> exists|
            k: int,
        |
            0 <= k < diagnostic.labels@.len() && is_related(
                world,
                #[trigger] diagnostic.labels@[k],
                related,
            ),
{
    let f = |label: DiagLabel| related_of(world, label);
    law_filter_map(diagnostic.labels@, f);
    let all = filter_map(diagnostic.labels@, f);
    assert(published_for(world, uri, diagnostic)->0.related_information == all);
    if all.contains(related) {
        let k = choose|k: int|
            0 <= k < diagnostic.labels@.len() && f(#[trigger] diagnostic.labels@[k]) == Some(related);
        assert(is_related(world, diagnostic.labels@[k], related));
    }
    if exists|k: int|
        0 <= k < diagnostic.labels@.len() && is_related(
            world,
            #[trigger] diagnostic.labels@[k],
            related,
        ) {
        let k = choose|k: int|
            0 <= k < diagnostic.labels@.len() && is_related(
                world,
                #[trigger] diagnostic.labels@[k],
                related,
            );
        assert(f(diagnostic.labels@[k]) == Some(related));
    }
}

pub open spec fn is_related(world: WorldModel, label: DiagLabel, related: RelatedParts) -> bool {
    !label.is_primary && (label.message matches Some(message) && message@ == related.message) && (
    client_uri(world, label.range.file_url@) matches Some(uri) && (known_text(world, uri) matches Some(
        text,
    ) && related.location == (LocationParts {
        uri,
        range: range_at(text, label.range.start as int, label.range.end as int),
    })))
}

/// Whether one of some edits puts the same text in the same place.
pub open spec fn has_edit(edits: Seq<PlacedParts>, edit: PlacedParts) -> bool {
    exists|i: int| 0 <= i < edits.len() && same_edit(#[trigger] edits[i], edit)
}

proof fn lemma_placed_edits(world: WorldModel, edits: Seq<SuggestedParts>)
    ensures
        placed_edits(world, edits) is Some <==> forall|i: int|
            0 <= i < edits.len() ==> placed_edit(world, #[trigger] edits[i]) is Some,
        placed_edits(world, edits) matches Some(placed) ==> (forall|i: int|
            0 <= i < edits.len() && (placed_edit(world, #[trigger] edits[i])->0).1 ==> placed.contains(
                (placed_edit(world, edits[i])->0).0,
            )) && (forall|edit: PlacedParts| #[trigger]
            placed.contains(edit) ==> exists|i: int|
                0 <= i < edits.len() && placed_edit(world, #[trigger] edits[i]) == Some(
                    (edit, true),
                )),
    decreases edits.len(),
{
    if edits.len() > 0 {
        let front = edits.drop_last();
        lemma_placed_edits(world, front);
        assert forall|i: int| 0 <= i < front.len() implies #[trigger] edits[i] == front[i] by {}
        assert(edits[edits.len() - 1] == edits.last());
        if placed_edits(world, edits) is Some {
            let before = placed_edits(world, front)->0;
            let all = placed_edits(world, edits)->0;
            let last = placed_edit(world, edits.last())->0;
            assert forall|i: int| 0 <= i < edits.len() implies placed_edit(
                world,
                #[trigger] edits[i],
            ) is Some by {
                if i < front.len() {
                    assert(placed_edit(world, front[i]) is Some);
                }
            }
            law_joined(before, seq![last.0]);
            assert(before.push(last.0) == before + seq![last.0]);
            assert(seq![last.0].contains(last.0)) by {
                assert(seq![last.0][0] == last.0);
            }
            assert forall|i: int|
                0 <= i < edits.len() && (placed_edit(world, #[trigger] edits[i])->0).1 implies all.contains(
                (placed_edit(world, edits[i])->0).0,
            ) by {
                if i < front.len() {
                    assert((placed_edit(world, front[i])->0).1);
                    assert(before.contains((placed_edit(world, front[i])->0).0));
                }
            }
            assert forall|edit: PlacedParts| #[trigger] all.contains(edit) implies exists|i: int|
                0 <= i < edits.len() && placed_edit(world, #[trigger] edits[i]) == Some(
                    (edit, true),
                ) by {
                if before.contains(edit) {
                    let i = choose|i: int|
                        0 <= i < front.len() && placed_edit(world, #[trigger] front[i]) == Some(
                            (edit, true),
                        );
                    assert(edits[i] == front[i]);
                } else {
                    assert(seq![last.0].contains(edit));
                    assert(edit == last.0);
                    assert(placed_edit(world, edits[edits.len() - 1]) == Some((edit, true)));
                }
            }
        } else if placed_edits(world, front) is None {
            let i = choose|i: int|
                0 <= i < front.len() && placed_edit(world, #[trigger] front[i]) is None;
            assert(placed_edit(world, edits[i]) is None);
        }
    }
}

proof fn lemma_unrepeated(edits: Seq<PlacedParts>)
    ensures
        forall|i: int| 0 <= i < edits.len() ==> has_edit(unrepeated(edits), #[trigger] edits[i]),
        forall|edit: PlacedParts| #[trigger] unrepeated(edits).contains(edit) ==> edits.contains(edit),
    decreases edits.len(),
{
    if edits.len() > 0 {
        let front = edits.drop_last();
        let before = unrepeated(front);
        let all = unrepeated(edits);
        lemma_unrepeated(front);
        assert forall|i: int| 0 <= i < edits.len() implies has_edit(all, #[trigger] edits[i]) by {
            if i < front.len() {
                assert(has_edit(before, front[i]));
                let k = choose|k: int| 0 <= k < before.len() && same_edit(#[trigger] before[k], front[i]);
                assert(all[k] == before[k]);
            } else if before.len() > 0 && same_edit(before.last(), edits.last()) {
                assert(same_edit(all[all.len() - 1], edits[i]));
            } else {
                assert(same_edit(all[all.len() - 1], edits[i]));
            }
        }
        assert forall|edit: PlacedParts| #[trigger] all.contains(edit) implies edits.contains(edit) by {
            let k = choose|k: int| 0 <= k < all.len() && all[k] == edit;
            if k < before.len() {
                assert(before[k] == edit);
                assert(before.contains(edit));
                let n = choose|n: int| 0 <= n < front.len() && front[n] == edit;
                assert(edits[n] == edit);
            } else {
                assert(edits[edits.len() - 1] == edit);
            }
        }
    }
}

/// A fix makes each edit that was suggested and that changes the text, and no other.
pub proof fn law_fix_edits(world: WorldModel, suggestion: SuggestionParts)
    ensures
        suggestion_edits(world, suggestion) matches Some(edits) ==> (forall|i: int|
            0 <= i < suggestion.edits.len() ==> (placed_edit(
                world,
                #[trigger] suggestion.edits[i],
            ) matches Some((edit, changes)) && (changes ==> has_edit(edits, edit)))) && (forall|
            edit: PlacedParts,
        | #[trigger]
            edits.contains(edit) ==> exists|i: int|
                0 <= i < suggestion.edits.len() && placed_edit(
                    world,
                    #[trigger] suggestion.edits[i],
                ) == Some((edit, true))) && edits.len() > 0,
{
    broadcast use vstd::seq_lib::group_to_multiset_ensures;

    lemma_placed_edits(world, suggestion.edits);
    if suggestion_edits(world, suggestion) is Some {
        let placed = placed_edits(world, suggestion.edits)->0;
        let sorted = ranked::<PlacedEdit>(placed);
        let edits = settled(placed);
        law_ranked::<PlacedEdit>(placed);
        lemma_unrepeated(sorted);
        assert forall|edit: PlacedParts| sorted.contains(edit) == #[trigger] placed.contains(
            edit,
        ) by {
            assert(sorted.contains(edit) <==> sorted.to_multiset().count(edit) > 0);
            assert(placed.contains(edit) <==> placed.to_multiset().count(edit) > 0);
        }
        assert forall|i: int| 0 <= i < suggestion.edits.len() implies (placed_edit(
            world,
            #[trigger] suggestion.edits[i],
        ) matches Some((edit, changes)) && (changes ==> has_edit(edits, edit))) by {
            let (edit, changes) = placed_edit(world, suggestion.edits[i])->0;
            if changes {
                assert(placed.contains(edit));
                assert(sorted.contains(edit));
                let k = choose|k: int| 0 <= k < sorted.len() && sorted[k] == edit;
                assert(has_edit(edits, sorted[k]));
            }
        }
        assert forall|edit: PlacedParts| #[trigger] edits.contains(edit) implies exists|i: int|
            0 <= i < suggestion.edits.len() && placed_edit(world, #[trigger] suggestion.edits[i])
                == Some((edit, true)) by {
            assert(sorted.contains(edit));
            assert(placed.contains(edit));
        }
        assert(placed.contains(placed[0]));
        assert(sorted.contains(placed[0]));
        let k = choose|k: int| 0 <= k < sorted.len() && sorted[k] == placed[0];
        assert(has_edit(edits, sorted[k]));
    }
}

/// A suggestion is offered as a fix where it can be made as it is: with its own title, and
/// preferred exactly where it is sure to be right.
pub proof fn law_suggestion_offered(world: WorldModel, suggestion: SuggestionParts, diagnostic: usize)
    ensures
        action_of(world, suggestion, diagnostic) is Some <==> (suggestion.applicability
            == Applicability::MachineApplicable || suggestion.applicability
            == Applicability::MaybeIncorrect) && suggestion_edits(world, suggestion) is Some,
        action_of(world, suggestion, diagnostic) matches Some(action) ==> action.title
            == suggestion.title && action.diagnostic == diagnostic && Some(action.edits)
            == suggestion_edits(world, suggestion) && (action.is_preferred
            <==> suggestion.applicability == Applicability::MachineApplicable),
{
}

proof fn lemma_without_repeats(actions: Seq<ActionParts>)
    ensures
        forall|i: int|
            0 <= i < actions.len() ==> has_action(without_repeats(actions), #[trigger] actions[i]),
        forall|action: ActionParts| #[trigger]
            without_repeats(actions).contains(action) ==> actions.contains(action),
    decreases actions.len(),
{
    if actions.len() > 0 {
        let front = actions.drop_last();
        let before = without_repeats(front);
        let all = without_repeats(actions);
        lemma_without_repeats(front);
        assert forall|i: int| 0 <= i < actions.len() implies has_action(all, #[trigger] actions[i]) by {
            if i < front.len() {
                assert(has_action(before, front[i]));
                let k = choose|k: int|
                    0 <= k < before.len() && same_action(#[trigger] before[k], front[i]);
                assert(all[k] == before[k]);
            } else if has_action(before, actions.last()) {
            } else {
                assert(same_action(all[all.len() - 1], actions[i]));
            }
        }
        assert forall|action: ActionParts| #[trigger] all.contains(action) implies actions.contains(
            action,
        ) by {
            let k = choose|k: int| 0 <= k < all.len() && all[k] == action;
            if k < before.len() {
                assert(before[k] == action);
                assert(before.contains(action));
                let n = choose|n: int| 0 <= n < front.len() && front[n] == action;
                assert(actions[n] == action);
            } else {
                assert(actions[actions.len() - 1] == action);
            }
        }
    }
}

/// Whether a fix is asked for: its problem is reported in the document, is one of those that were
/// asked about and touches the range.
pub open spec fn is_asked_for(
    world: WorldModel,
    uri: UrlParts,
    range: Range,
    context: CodeActionContext,
    diagnostic: SourceDiagnostic,
    place: usize,
) -> bool {
    published_for(world, uri, diagnostic) matches Some(shown) && intersecting(range, shown.range)
        && place < context.diagnostics@.len() && asks_for(context.diagnostics@[place as int], shown)
        && forall|j: int|
        0 <= j < place ==> !asks_for(#[trigger] context.diagnostics@[j], shown)
}

/// For each problem that was asked about, each suggestion that can be made is offered, whether it
/// came with the problem or was found for it. Nothing else is offered.
pub proof fn law_fixes_offered(
    world: WorldModel,
    uri: UrlParts,
    facts: Option<SourceFacts>,
    range: Range,
    context: CodeActionContext,
    findings: ModuleFindings,
    found: Seq<SourceDiagnostic>,
)
    requires
        wants_quick_fixes(context),
        context.diagnostics@.len() <= usize::MAX,
    ensures
        forall|k: int, place: usize, suggestion: SuggestionParts|
            0 <= k < found.len() && is_asked_for(
                world,
                uri,
                range,
                context,
                #[trigger] found[k],
                place,
            ) && (views(found[k].suggestions@).contains(suggestion) || further_suggestions(
                facts,
                findings,
                found[k],
            ).contains(suggestion)) && #[trigger] action_of(world, suggestion, place) is Some
                ==> has_action(
                quick_fixes(world, uri, facts, range, context, findings, found),
                action_of(world, suggestion, place)->0,
            ),
        forall|action: ActionParts| #[trigger]
            quick_fixes(world, uri, facts, range, context, findings, found).contains(action)
                ==> exists|k: int, place: usize, suggestion: SuggestionParts|
                0 <= k < found.len() && is_asked_for(
                    world,
                    uri,
                    range,
                    context,
                    #[trigger] found[k],
                    place,
                ) && (views(found[k].suggestions@).contains(suggestion) || further_suggestions(
                    facts,
                    findings,
                    found[k],
                ).contains(suggestion)) && #[trigger] action_of(world, suggestion, place) == Some(
                    action,
                ),
{
    let f = |diagnostic: SourceDiagnostic|
        offered(world, uri, facts, range, context, findings, diagnostic);
    let all = concat_map(found, f);
    let shown = quick_fixes(world, uri, facts, range, context, findings, found);
    law_concat_map(found, f);
    lemma_without_repeats(all);
    assert forall|k: int, place: usize, suggestion: SuggestionParts|
        0 <= k < found.len() && is_asked_for(world, uri, range, context, #[trigger] found[k], place)
            && (views(found[k].suggestions@).contains(suggestion) || further_suggestions(
            facts,
            findings,
            found[k],
        ).contains(suggestion)) && #[trigger] action_of(world, suggestion, place) is Some implies has_action(
        shown,
        action_of(world, suggestion, place)->0,
    ) by {
        lemma_offered(world, uri, facts, range, context, findings, found[k], place, suggestion);
        let action = action_of(world, suggestion, place)->0;
        assert(f(found[k]).contains(action));
        let n = choose|n: int| 0 <= n < all.len() && all[n] == action;
        assert(has_action(without_repeats(all), all[n]));
    }
    assert forall|action: ActionParts| #[trigger] shown.contains(action) implies exists|
        k: int,
        place: usize,
        suggestion: SuggestionParts,
    |
        0 <= k < found.len() && is_asked_for(world, uri, range, context, #[trigger] found[k], place)
            && (views(found[k].suggestions@).contains(suggestion) || further_suggestions(
            facts,
            findings,
            found[k],
        ).contains(suggestion)) && #[trigger] action_of(world, suggestion, place) == Some(action) by {
        assert(all.contains(action));
        let k = choose|k: int| 0 <= k < found.len() && f(#[trigger] found[k]).contains(action);
        let (place, suggestion) = lemma_offered_source(
            world,
            uri,
            facts,
            range,
            context,
            findings,
            found[k],
            action,
        );
        assert(action_of(world, suggestion, place) == Some(action));
    }
}

proof fn lemma_offered(
    world: WorldModel,
    uri: UrlParts,
    facts: Option<SourceFacts>,
    range: Range,
    context: CodeActionContext,
    findings: ModuleFindings,
    diagnostic: SourceDiagnostic,
    place: usize,
    suggestion: SuggestionParts,
)
    requires
        context.diagnostics@.len() <= usize::MAX,
        is_asked_for(world, uri, range, context, diagnostic, place),
        views(diagnostic.suggestions@).contains(suggestion) || further_suggestions(
            facts,
            findings,
            diagnostic,
        ).contains(suggestion),
        action_of(world, suggestion, place) is Some,
    ensures
        offered(world, uri, facts, range, context, findings, diagnostic).contains(
            action_of(world, suggestion, place)->0,
        ),
{
    let shown = published_for(world, uri, diagnostic)->0;
    let own = views(diagnostic.suggestions@);
    let more = further_suggestions(facts, findings, diagnostic);
    let f = |suggestion: SuggestionParts| action_of(world, suggestion, place);
    law_position(
        context.diagnostics@,
        |candidate: RequestedDiagnostic| asks_for(candidate, shown),
    );
    assert(asked_at(context.diagnostics@, shown) == Some(place)) by {
        let at = asked_at(context.diagnostics@, shown);
        if at is None {
            assert(!asks_for(context.diagnostics@[place as int], shown));
        } else if at->0 < place {
            assert(!asks_for(context.diagnostics@[at->0 as int], shown));
        }
    }
    law_filter_map(own, f);
    law_filter_map(more, f);
    law_joined(actions_of(world, own, place), actions_of(world, more, place));
    if own.contains(suggestion) {
        let i = choose|i: int| 0 <= i < own.len() && own[i] == suggestion;
        assert(f(own[i]) is Some);
    } else {
        let i = choose|i: int| 0 <= i < more.len() && more[i] == suggestion;
        assert(f(more[i]) is Some);
    }
}

proof fn lemma_offered_source(
    world: WorldModel,
    uri: UrlParts,
    facts: Option<SourceFacts>,
    range: Range,
    context: CodeActionContext,
    findings: ModuleFindings,
    diagnostic: SourceDiagnostic,
    action: ActionParts,
) -> (source: (usize, SuggestionParts))
    requires
        context.diagnostics@.len() <= usize::MAX,
        offered(world, uri, facts, range, context, findings, diagnostic).contains(action),
    ensures
        is_asked_for(world, uri, range, context, diagnostic, source.0),
        views(diagnostic.suggestions@).contains(source.1) || further_suggestions(
            facts,
            findings,
            diagnostic,
        ).contains(source.1),
        action_of(world, source.1, source.0) == Some(action),
{
    let shown = published_for(world, uri, diagnostic)->0;
    let place = asked_at(context.diagnostics@, shown)->0;
    let own = views(diagnostic.suggestions@);
    let more = further_suggestions(facts, findings, diagnostic);
    let f = |suggestion: SuggestionParts| action_of(world, suggestion, place);
    law_position(
        context.diagnostics@,
        |candidate: RequestedDiagnostic| asks_for(candidate, shown),
    );
    law_filter_map(own, f);
    law_filter_map(more, f);
    law_joined(actions_of(world, own, place), actions_of(world, more, place));
    if actions_of(world, own, place).contains(action) {
        let i = choose|i: int| 0 <= i < own.len() && f(#[trigger] own[i]) == Some(action);
        assert(own.contains(own[i]));
        (place, own[i])
    } else {
        let i = choose|i: int| 0 <= i < more.len() && f(#[trigger] more[i]) == Some(action);
        assert(more.contains(more[i]));
        (place, more[i])
    }
}

/// A name that is not known is looked for among the names of its own kind.
pub proof fn law_missing_name(problem: NameProblem, identifiers: Seq<String>)
    ensures
        problem matches NameProblem::Term { name } ==> import_for(problem, identifiers) == Some(
            MissingParts::Name { name: name@, namespace: ImportNamespace::Term },
        ),
        problem matches NameProblem::TypeConstructor { name } ==> import_for(problem, identifiers)
            == Some(MissingParts::Name { name: name@, namespace: ImportNamespace::Type }),
        problem matches NameProblem::Class { name } ==> import_for(problem, identifiers) == Some(
            MissingParts::Name { name: name@, namespace: ImportNamespace::Class },
        ),
        problem matches NameProblem::Other ==> import_for(problem, identifiers) is None,
{
}

/// The modules that a name can be imported from are those that are recorded for the name and its
/// kind.
pub proof fn law_name_candidates(known: ImportCandidates, name: Seq<char>, namespace: ImportNamespace, k: int)
    requires
        0 <= k < known.names@.len(),
        known.names@[k].name@ == name && known.names@[k].namespace == namespace,
        forall|j: int|
            0 <= j < k ==> !((#[trigger] known.names@[j]).name@ == name && known.names@[j].namespace
                == namespace),
    ensures
        name_candidates(known, name, namespace) == known.names@[k].candidates@,
{
    assert(seq![name][0] == name);
    assert(name_candidates(known, name, namespace) == name_candidates(
        known,
        seq![name][0],
        namespace,
    ));
    law_find_map(
        known.names@,
        |entry: NameCandidates|
            if entry.name@ == seq![name][0] && entry.namespace == namespace {
                Some(entry.candidates@)
            } else {
                None
            },
    );
}

/// An edit is made in the document that the client knows its file as, from the start to the end of
/// its range, with its own text. It changes the text where the bytes that it replaces are others.
pub proof fn law_edit_placed(world: WorldModel, edit: SuggestedParts, uri: UrlParts, text: Seq<char>)
    requires
        client_uri(world, edit.range.file_url) == Some(uri),
        known_text(world, uri) == Some(text),
        utf8(text).len() < u32::MAX,
    ensures
        placed_edit(world, edit) is Some <==> edit.range.start <= edit.range.end <= utf8(text).len()
            && is_char_boundary(utf8(text), edit.range.start as int) && is_char_boundary(
            utf8(text),
            edit.range.end as int,
        ),
        placed_edit(world, edit) matches Some((found, changes)) ==> found.location.uri == uri
            && found.new_text == edit.replacement && byte_at(text, found.location.range.start)
            == Some(edit.range.start) && byte_at(text, found.location.range.end) == Some(
            edit.range.end,
        ),
{
    if placed_edit(world, edit) is Some {
        law_position_round_trip(text, edit.range.start as int);
        law_position_round_trip(text, edit.range.end as int);
    }
}

/// Each import that is planned for a name is suggested, with its own title and its own edit in the
/// file, and nothing else is. It is sure to be right only where it is the only fix.
pub proof fn law_imports_suggested(
    facts: SourceFacts,
    findings: ModuleFindings,
    diagnostic: SourceDiagnostic,
    missing: MissingParts,
    source: Seq<char>,
    suggestion: SuggestionParts,
)
    requires
        missing_import(findings.reported@, diagnostic, findings.identifiers@) == Some(missing),
        facts.content matches Some(content) && content@ == source,
    ensures
        import_suggestions(facts, findings, diagnostic).contains(suggestion) <==> exists|k: int|
            0 <= k < plans_for(source, findings, missing).len() && is_suggested(
                facts,
                #[trigger] plans_for(source, findings, missing)[k],
                suggestion,
            ) && (suggestion.applicability == if plans_for(source, findings, missing).len() == 1
                && diagnostic.suggestions@.len() == 0 {
                Applicability::MachineApplicable
            } else {
                Applicability::MaybeIncorrect
            }),
{
    let planned = plans_for(source, findings, missing);
    let applicability = if planned.len() == 1 && diagnostic.suggestions@.len() == 0 {
        Applicability::MachineApplicable
    } else {
        Applicability::MaybeIncorrect
    };
    let f = |planned: PlannedParts| Some(suggestion_of(planned, facts.url@, applicability));
    let all = filter_map(planned, f);
    law_filter_map(planned, f);
    assert(import_suggestions(facts, findings, diagnostic) == all);
    if all.contains(suggestion) {
        let k = choose|k: int| 0 <= k < planned.len() && f(#[trigger] planned[k]) == Some(suggestion);
        assert(is_suggested(facts, planned[k], suggestion));
    }
    if exists|k: int|
        0 <= k < planned.len() && is_suggested(facts, #[trigger] planned[k], suggestion)
            && suggestion.applicability == applicability {
        let k = choose|k: int|
            0 <= k < planned.len() && is_suggested(facts, #[trigger] planned[k], suggestion)
                && suggestion.applicability == applicability;
        let made = suggestion_of(planned[k], facts.url@, applicability);
        assert(suggestion.edits == made.edits);
        assert(f(planned[k]) == Some(suggestion));
    }
}

/// Whether a suggestion is that of a planned import.
pub open spec fn is_suggested(facts: SourceFacts, planned: PlannedParts, suggestion: SuggestionParts) -> bool {
    suggestion.title == planned.title && suggestion.edits.len() == 1
        && suggestion.edits[0].range.file_url == facts.url@ && suggestion.edits[0].range.start
        == planned.edit.start as u32 && suggestion.edits[0].range.end == planned.edit.end as u32
        && suggestion.edits[0].replacement == planned.edit.replacement
}

/// Each candidate that can be imported has a plan, in the order of the candidates, up to as many
/// as are shown.
pub proof fn law_candidates_planned(
    source: Seq<char>,
    findings: ModuleFindings,
    candidates: Seq<ImportCandidate>,
    whole_module: bool,
)
    ensures
        ({
            let planned = with_plans(Seq::empty(), source, findings, candidates, whole_module);
            &&& planned.len() <= MAX_AUTO_IMPORT_CANDIDATES
            &&& forall|k: int|
                0 <= k < candidates.len() && plan_of(
                    source,
                    findings,
                    #[trigger] candidates[k],
                    whole_module,
                ) is Some ==> planned.contains(
                    plan_of(source, findings, candidates[k], whole_module)->0,
                ) || planned.len() == MAX_AUTO_IMPORT_CANDIDATES
            &&& forall|plan: PlannedParts| #[trigger]
                planned.contains(plan) ==> exists|k: int|
                    0 <= k < candidates.len() && plan_of(
                        source,
                        findings,
                        #[trigger] candidates[k],
                        whole_module,
                    ) == Some(plan)
        }),
    decreases candidates.len(),
{
    let none = Seq::<PlannedParts>::empty();
    let planned = with_plans(none, source, findings, candidates, whole_module);
    if candidates.len() > 0 {
        let front = candidates.drop_last();
        let before = with_plans(none, source, findings, front, whole_module);
        law_candidates_planned(source, findings, front, whole_module);
        let own = plan_of(source, findings, candidates.last(), whole_module);
        assert forall|k: int|
            0 <= k < candidates.len() && plan_of(
                source,
                findings,
                #[trigger] candidates[k],
                whole_module,
            ) is Some implies planned.contains(
            plan_of(source, findings, candidates[k], whole_module)->0,
        ) || planned.len() == MAX_AUTO_IMPORT_CANDIDATES by {
            let plan = plan_of(source, findings, candidates[k], whole_module)->0;
            if k < front.len() {
                assert(front[k] == candidates[k]);
                if before.contains(plan) {
                    let n = choose|n: int| 0 <= n < before.len() && before[n] == plan;
                    assert(planned[n] == plan);
                }
            } else if before.len() != MAX_AUTO_IMPORT_CANDIDATES {
                assert(planned[planned.len() - 1] == plan);
            }
        }
        assert forall|plan: PlannedParts| #[trigger] planned.contains(plan) implies exists|k: int|
            0 <= k < candidates.len() && plan_of(
                source,
                findings,
                #[trigger] candidates[k],
                whole_module,
            ) == Some(plan) by {
            let n = choose|n: int| 0 <= n < planned.len() && planned[n] == plan;
            if n < before.len() {
                assert(before[n] == plan);
                assert(before.contains(plan));
                let k = choose|k: int|
                    0 <= k < front.len() && plan_of(
                        source,
                        findings,
                        #[trigger] front[k],
                        whole_module,
                    ) == Some(plan);
                assert(candidates[k] == front[k]);
            } else {
                assert(candidates[candidates.len() - 1] == candidates.last());
            }
        }
    }
}

/// A plan to import a name names the candidate and its module in its title, and so does one to
/// import a whole module.
pub proof fn law_plan_titles(source: Seq<char>, findings: ModuleFindings, candidate: ImportCandidate)
    ensures
        plan_of(source, findings, candidate, false) matches Some(plan) ==> plan.title == "Import `"@
            + candidate.public_name@ + "` from `"@ + candidate.import_path@ + "`"@,
        plan_of(source, findings, candidate, true) matches Some(plan) ==> plan.title
            == "Import module `"@ + candidate.public_name@ + "` from `"@ + candidate.import_path@
            + "`"@,
{
}

/// What is checked for a known document is the workspace where that reaches the document, and the
/// document itself where it does not. Nothing is checked for an unknown one.
pub proof fn law_entry_chosen(world: WorldModel, analysis: Analysis, uri: UrlParts)
    ensures
        entry_for(world, analysis, uri) is None <==> known_path(world, uri) is None || known_text(
            world,
            uri,
        ) is None,
        entry_for(world, analysis, uri) matches Some(EntryParts::Document(path)) ==> known_path(
            world,
            uri,
        ) == Some(path) && !reachable(analysis, path),
        entry_for(world, analysis, uri) == Some(EntryParts::Workspace) ==> (known_path(
            world,
            uri,
        ) matches Some(path) && reachable(analysis, path)),
{
}

} // verus!
