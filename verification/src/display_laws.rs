//! What holds of the texts of declarations and of predicates.
use vstd::prelude::*;

use crate::display::{
    adt_text, callable_text, ctor_texts, joined_by, name_texts, pred_ref_text, pred_text, pred_texts,
    ret_text, source_params, source_signature, ty_text, ty_texts, type_params_text, type_ref_text,
    type_ref_texts,
};
use crate::hir::{
    AdtCtor, AdtDef, FuncParam, FuncSig, Name, Pred, PredRef, SchemeFacts, SourceFacts, TyScheme,
};
use crate::hover::{definition_info, DefinitionParts};
use crate::hover_laws::{ends_in, starts_with_text};

verus! {

/// A part by itself is joined to itself. Joined parts are those in front and those behind, each
/// joined, with the separator between them.
pub proof fn law_joined_by(parts: Seq<Seq<char>>, separator: Seq<char>, k: int)
    ensures
        parts.len() == 0 ==> joined_by(parts, separator) == Seq::<char>::empty(),
        parts.len() == 1 ==> joined_by(parts, separator) == parts[0],
        0 < k < parts.len() ==> joined_by(parts, separator) == joined_by(parts.take(k), separator)
            + separator + joined_by(parts.skip(k), separator),
    decreases parts.len(),
{
    if 0 < k < parts.len() {
        let front = parts.drop_last();
        let rest = parts.skip(k);
        if k < front.len() {
            law_joined_by(front, separator, k);
            assert(front.take(k) == parts.take(k));
            assert(front.skip(k) == rest.drop_last());
            assert(rest.last() == parts.last());
            let a = joined_by(parts.take(k), separator);
            let b = joined_by(rest.drop_last(), separator);
            assert(joined_by(parts, separator) == a + separator + b + separator + parts.last());
            assert(a + separator + b + separator + parts.last() == a + separator + (b + separator
                + parts.last()));
        } else {
            assert(front == parts.take(k));
            assert(rest.len() == 1 && rest[0] == parts.last());
        }
    }
}

/// Type parameters are shown by their names, in their order and in parentheses.
pub proof fn law_type_params(params: Seq<Name>, shown: Seq<Seq<char>>)
    requires
        shown.len() == params.len(),
        forall|i: int| 0 <= i < params.len() ==> #[trigger] shown[i] == params[i].text@,
    ensures
        params.len() == 0 ==> type_params_text(params) == Seq::<char>::empty(),
        params.len() > 0 ==> type_params_text(params) == seq!['('] + joined_by(shown, ", "@) + seq![
            ')',
        ],
{
    assert(name_texts(params) == shown) by {
        assert forall|i: int| 0 <= i < params.len() implies name_texts(params)[i]
            == #[trigger] shown[i] by {}
    }
}

/// Whether a text is that of a constructor: its name, and its fields behind it where it has some.
pub open spec fn is_ctor_text(ctor: AdtCtor, shown: Seq<char>) -> bool {
    if ctor.field_count == 0 {
        shown == ctor.name.text@
    } else if ctor.field_count == 1 {
        shown == ctor.name.text@ + seq!['('] + type_ref_text(ctor.fields) + seq![')']
    } else {
        shown == ctor.name.text@ + type_ref_text(ctor.fields)
    }
}

/// A data type is shown by its name, its type parameters and all its constructors in their order.
pub proof fn law_data_text(adt: AdtDef, shown: Seq<Seq<char>>)
    requires
        shown.len() == adt.ctors@.len(),
        forall|i: int|
            0 <= i < shown.len() ==> is_ctor_text(adt.ctors@[i], #[trigger] shown[i]),
    ensures
        joined_by(shown, " | "@).len() > 0 ==> adt_text(adt) == "data "@ + adt.name.text@
            + type_params_text(adt.params@) + " = "@ + joined_by(shown, " | "@),
        adt.ctors@.len() == 0 ==> adt_text(adt) == "data "@ + adt.name.text@ + type_params_text(
            adt.params@,
        ),
{
    assert(ctor_texts(adt.ctors@) == shown) by {
        assert forall|i: int| 0 <= i < shown.len() implies ctor_texts(adt.ctors@)[i]
            == #[trigger] shown[i] by {}
    }
}

/// A class that something has to be of is shown behind it, with its own arguments in parentheses.
pub proof fn law_written_predicate(pred: PredRef)
    ensures
        starts_with_text(pred_ref_text(pred), type_ref_text(pred.ty) + ": "@ + pred.class.text@),
        pred.args@.len() == 0 ==> pred_ref_text(pred) == type_ref_text(pred.ty) + ": "@
            + pred.class.text@,
        pred.args@.len() > 0 ==> ends_in(
            pred_ref_text(pred),
            seq!['('] + joined_by(type_ref_texts(pred.args@, pred.args@.len()), ", "@) + seq![')'],
        ),
{
    let head = type_ref_text(pred.ty) + ": "@ + pred.class.text@;
    let args = seq!['('] + joined_by(type_ref_texts(pred.args@, pred.args@.len()), ", "@) + seq![
        ')',
    ];
    if pred.args@.len() > 0 {
        assert(pred_ref_text(pred) == head + args);
        assert((head + args).skip(head.len() as int) == args);
    }
    assert(pred_ref_text(pred).take(head.len() as int) == head);
}

/// An inferred predicate is shown by what it is about: a type and its class, or two types.
pub proof fn law_predicate(pred: Pred, names: Seq<Seq<char>>)
    ensures
        match pred {
            Pred::InClass { class, main, args } => starts_with_text(
                pred_text(pred, names),
                ty_text(main, names) + ": "@ + class@,
            ) && (args@.len() == 0 ==> pred_text(pred, names) == ty_text(main, names) + ": "@
                + class@) && (args@.len() > 0 ==> ends_in(
                pred_text(pred, names),
                seq!['('] + joined_by(ty_texts(args@, args@.len(), names), ", "@) + seq![')'],
            )),
            Pred::Eq { lhs, rhs } => pred_text(pred, names) == ty_text(lhs, names) + " ~ "@
                + ty_text(rhs, names),
            Pred::Error => true,
        },
{
    match pred {
        Pred::InClass { class, main, args } => {
            let head = ty_text(main, names) + ": "@ + class@;
            let rest = seq!['('] + joined_by(ty_texts(args@, args@.len(), names), ", "@) + seq![
                ')',
            ];
            if args@.len() > 0 {
                assert(pred_text(pred, names) == head + rest);
                assert((head + rest).skip(head.len() as int) == rest);
            }
            assert(pred_text(pred, names).take(head.len() as int) == head);
        },
        _ => {},
    }
}

/// All predicates of something that can be called are shown behind it, in their order.
pub proof fn law_callable_predicates(
    name: Seq<char>,
    params: Seq<Seq<char>>,
    names: Seq<Seq<char>>,
    scheme: TyScheme,
    shown: Seq<Seq<char>>,
)
    requires
        scheme.preds@.len() > 0,
        shown.len() == scheme.preds@.len(),
        forall|i: int|
            0 <= i < shown.len() ==> #[trigger] shown[i] == pred_text(scheme.preds@[i], names),
    ensures
        ends_in(callable_text(name, params, names, scheme), " where "@ + joined_by(shown, ", "@)),
{
    assert(pred_texts(scheme.preds@, names) == shown) by {
        assert forall|i: int| 0 <= i < shown.len() implies pred_texts(scheme.preds@, names)[i]
            == #[trigger] shown[i] by {}
    }
    let text = callable_text(name, params, names, scheme);
    let back = " where "@ + joined_by(shown, ", "@);
    assert(text.skip(text.len() - back.len()) == back);
}

/// Whether a text is that of a parameter as it is written: its name and its type.
pub open spec fn is_written_param(param: FuncParam, shown: Seq<char>) -> bool {
    match param {
        FuncParam::Typed { comptime, name, ty } => ends_in(
            shown,
            name.text@ + ": "@ + type_ref_text(ty),
        ) && (!comptime ==> shown == name.text@ + ": "@ + type_ref_text(ty)),
        FuncParam::Untyped { comptime, name } => ends_in(shown, name.text@ + ": _"@) && (!comptime
            ==> shown == name.text@ + ": _"@),
        FuncParam::Error { .. } => true,
    }
}

/// A signature as it is written shows its name, each parameter by its name and its type, in their
/// order, and the type of its result.
pub proof fn law_written_signature(sig: FuncSig)
    ensures
        source_signature(sig) == sig.name.text@ + seq!['('] + joined_by(
            source_params(sig.params@),
            ", "@,
        ) + ") -> "@ + ret_text(sig.ret),
        source_params(sig.params@).len() == sig.params@.len(),
        forall|i: int|
            0 <= i < sig.params@.len() ==> is_written_param(
                sig.params@[i],
                #[trigger] source_params(sig.params@)[i],
            ),
        sig.ret matches Some(ret) ==> ret_text(sig.ret) == type_ref_text(ret),
{
    let texts = source_params(sig.params@);
    assert forall|i: int| 0 <= i < sig.params@.len() implies is_written_param(
        sig.params@[i],
        #[trigger] texts[i],
    ) by {
        match sig.params@[i] {
            FuncParam::Typed { comptime, name, ty } => {
                let back = name.text@ + ": "@ + type_ref_text(ty);
                assert(texts[i].skip(texts[i].len() - back.len()) == back);
                assert(!comptime ==> texts[i] == back);
            },
            FuncParam::Untyped { comptime, name } => {
                let back = name.text@ + ": _"@;
                assert(texts[i].skip(texts[i].len() - back.len()) == back);
                assert(!comptime ==> texts[i] == back);
            },
            FuncParam::Error { .. } => {},
        }
    }
}

/// A class and an instance are shown by the predicates of their heads, a contract by its name and
/// its type parameters, a data type by all of its declaration, and a type alias by its name, its
/// type parameters and its type.
pub proof fn law_type_declarations_shown(
    schemes: Seq<SchemeFacts>,
    facts: SourceFacts,
    definition: DefinitionParts,
)
    ensures
        match definition {
            DefinitionParts::Class(class) => definition_info(schemes, facts, definition).code
                == "class "@ + pred_ref_text(class.head),
            DefinitionParts::Instance(instance) => definition_info(schemes, facts, definition).code
                == "instance "@ + pred_ref_text(instance.head),
            DefinitionParts::Contract(contract) => definition_info(schemes, facts, definition).code
                == "contract "@ + contract.name.text@ + type_params_text(contract.params@),
            DefinitionParts::Adt { adt, .. } => definition_info(schemes, facts, definition).code
                == adt_text(adt),
            DefinitionParts::TypeAlias(alias) => definition_info(schemes, facts, definition).code
                == "type "@ + alias.name.text@ + type_params_text(alias.params@) + " = "@
                + type_ref_text(alias.ty),
            _ => true,
        },
{
}

} // verus!
