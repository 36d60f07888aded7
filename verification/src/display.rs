//! Texts of types, predicates and declarations.
use vstd::prelude::*;

use crate::analysis::{element, get};
use crate::hir::{
    AdtCtor, AdtDef, FuncParam, FuncSig, Name, Pred, PredRef, Ty, TyScheme, TypeRef,
};
use crate::seqs::views;
use crate::text::to_chars;

verus! {

/// Some texts with a separator between them.
pub open spec fn joined_by(parts: Seq<Seq<char>>, separator: Seq<char>) -> Seq<char>
    decreases parts.len(),
{
    if parts.len() == 0 {
        Seq::empty()
    } else if parts.len() == 1 {
        parts[0]
    } else {
        joined_by(parts.drop_last(), separator) + separator + parts.last()
    }
}

pub fn join_texts(parts: &Vec<String>, separator: &str) -> (text: String)
    ensures
        text@ == joined_by(views(parts@), separator@),
{
    let ghost all = views(parts@);
    let mut text = String::new();
    let mut i: usize = 0;
    assert(all.take(0) == Seq::<Seq<char>>::empty());
    assert(text@ == Seq::<char>::empty());
    while i < parts.len()
        invariant
            i <= all.len(),
            all == views(parts@),
            text@ == joined_by(all.take(i as int), separator@),
        decreases all.len() - i,
    {
        assert(all.take(i + 1).drop_last() == all.take(i as int));
        assert(all.take(i + 1).last() == parts@[i as int]@);
        if i > 0 {
            text.append(separator);
        }
        text.append(parts[i].as_str());
        i += 1;
        assert(text@ == joined_by(all.take(i as int), separator@));
    }
    assert(all.take(i as int) == all);
    text
}

/// The texts of the first `count` written types of a list.
pub open spec fn type_ref_texts(types: Seq<TypeRef>, count: nat) -> Seq<Seq<char>>
    decreases types, count,
{
    if count == 0 || count > types.len() {
        Seq::empty()
    } else {
        type_ref_texts(types, (count - 1) as nat).push(type_ref_text(types[count - 1]))
    }
}

/// The text of a written type.
pub open spec fn type_ref_text(ty: TypeRef) -> Seq<char>
    decreases ty, 0nat,
{
    match ty {
        TypeRef::Named { qualifier, name, args } => {
            let head = match qualifier {
                Some(qualifier) => qualifier.text@ + seq!['.'] + name.text@,
                None => name.text@,
            };
            if args@.len() > 0 {
                head + seq!['('] + joined_by(type_ref_texts(args@, args@.len()), ", "@) + seq![')']
            } else {
                head
            }
        },
        TypeRef::Fn { params, ret } => seq!['('] + joined_by(
            type_ref_texts(params@, params@.len()),
            ", "@,
        ) + ") -> "@ + type_ref_text(*ret),
        TypeRef::Comptime { inner } => "comptime "@ + type_ref_text(*inner),
        TypeRef::Tuple { elems } => seq!['('] + joined_by(
            type_ref_texts(elems@, elems@.len()),
            ", "@,
        ) + seq![')'],
        TypeRef::Error { .. } => "<error type>"@,
    }
}

/// Writes some texts in parentheses behind a text.
fn push_list(text: &mut String, parts: &Vec<String>)
    ensures
        final(text)@ == old(text)@ + seq!['('] + joined_by(views(parts@), ", "@) + seq![')'],
{
    let ghost before = text@;
    text.push('(');
    text.append(join_texts(parts, ", ").as_str());
    text.push(')');
    assert(text@ == before + seq!['('] + joined_by(views(parts@), ", "@) + seq![')']);
}

fn display_type_refs(types: &Vec<TypeRef>) -> (texts: Vec<String>)
    ensures
        views(texts@) == type_ref_texts(types@, types@.len()),
    decreases types,
{
    let mut texts: Vec<String> = Vec::new();
    let mut i: usize = 0;
    assert(views(texts@) == Seq::<Seq<char>>::empty());
    while i < types.len()
        invariant
            i <= types@.len(),
            views(texts@) == type_ref_texts(types@, i as nat),
        decreases types@.len() - i,
    {
        let ghost before = texts@;
        assert(decreases_to!(types => types@[i as int]));
        let text = display_type_ref(&types[i]);
        texts.push(text);
        assert(views(texts@) == views(before).push(text@));
        i += 1;
    }
    texts
}

pub fn display_type_ref(ty: &TypeRef) -> (text: String)
    ensures
        text@ == type_ref_text(*ty),
    decreases ty,
{
    match ty {
        TypeRef::Named { qualifier, name, args } => {
            let mut text = String::new();
            assert(text@ == Seq::<char>::empty());
            if let Some(qualifier) = qualifier {
                text.append(qualifier.text.as_str());
                text.push('.');
                assert(text@ == qualifier.text@ + seq!['.']);
            }
            let ghost front = text@;
            text.append(name.text.as_str());
            assert(qualifier is None ==> text@ == name.text@);
            if args.len() > 0 {
                push_list(&mut text, &display_type_refs(args));
            }
            text
        },
        TypeRef::Fn { params, ret } => {
            let mut text = String::new();
            assert(text@ == Seq::<char>::empty());
            push_list(&mut text, &display_type_refs(params));
            let ghost list = text@;
            text.append(" -> ");
            text.append(display_type_ref(ret).as_str());
            proof {
                reveal_strlit(" -> ");
                reveal_strlit(") -> ");
                let inner = joined_by(type_ref_texts(params@, params@.len()), ", "@);
                assert(") -> "@ == seq![')'] + " -> "@);
                assert(text@ == seq!['('] + inner + ") -> "@ + type_ref_text(**ret));
            }
            text
        },
        TypeRef::Comptime { inner } => {
            let mut text = "comptime ".to_owned();
            text.append(display_type_ref(inner).as_str());
            text
        },
        TypeRef::Tuple { elems } => {
            let mut text = String::new();
            assert(text@ == Seq::<char>::empty());
            push_list(&mut text, &display_type_refs(elems));
            assert(text@ == seq!['('] + joined_by(
                type_ref_texts(elems@, elems@.len()),
                ", "@,
            ) + seq![')']);
            text
        },
        TypeRef::Error { .. } => "<error type>".to_owned(),
    }
}

/// The text of a written predicate.
pub open spec fn pred_ref_text(pred: PredRef) -> Seq<char> {
    let head = type_ref_text(pred.ty) + ": "@ + pred.class.text@;
    if pred.args@.len() > 0 {
        head + seq!['('] + joined_by(type_ref_texts(pred.args@, pred.args@.len()), ", "@) + seq![')']
    } else {
        head
    }
}

pub fn display_pred_ref(pred: &PredRef) -> (text: String)
    ensures
        text@ == pred_ref_text(*pred),
{
    let mut text = display_type_ref(&pred.ty);
    text.append(": ");
    text.append(pred.class.text.as_str());
    if pred.args.len() > 0 {
        push_list(&mut text, &display_type_refs(&pred.args));
    }
    text
}

/// A name of a list, a placeholder behind its end.
pub open spec fn name_or_blank(names: Seq<Seq<char>>, index: usize) -> Seq<char> {
    match element(names, index) {
        Some(name) => name,
        None => "_"@,
    }
}

/// The texts of the first `count` types of a list.
pub open spec fn ty_texts(types: Seq<Ty>, count: nat, names: Seq<Seq<char>>) -> Seq<Seq<char>>
    decreases types, count,
{
    if count == 0 || count > types.len() {
        Seq::empty()
    } else {
        ty_texts(types, (count - 1) as nat, names).push(ty_text(types[count - 1], names))
    }
}

/// The text of an inferred type. Type variables go by the names given for them.
pub open spec fn ty_text(ty: Ty, names: Seq<Seq<char>>) -> Seq<char>
    decreases ty, 0nat,
{
    match ty {
        Ty::Error => "<error>"@,
        Ty::Unknown => "_"@,
        Ty::BoundVar { index } => name_or_blank(names, index),
        Ty::Named { name, args } => if args@.len() > 0 {
            name@ + seq!['('] + joined_by(ty_texts(args@, args@.len(), names), ", "@) + seq![')']
        } else {
            name@
        },
        Ty::Function { params, ret } => seq!['('] + joined_by(
            ty_texts(params@, params@.len(), names),
            ", "@,
        ) + ") -> "@ + ty_text(*ret, names),
        Ty::Tuple { elems } => seq!['('] + joined_by(
            ty_texts(elems@, elems@.len(), names),
            ", "@,
        ) + seq![')'],
        Ty::Comptime { inner } => "comptime "@ + ty_text(*inner, names),
    }
}

fn display_tys(types: &Vec<Ty>, names: &Vec<String>) -> (texts: Vec<String>)
    ensures
        views(texts@) == ty_texts(types@, types@.len(), views(names@)),
    decreases types,
{
    let mut texts: Vec<String> = Vec::new();
    let mut i: usize = 0;
    assert(views(texts@) == Seq::<Seq<char>>::empty());
    while i < types.len()
        invariant
            i <= types@.len(),
            views(texts@) == ty_texts(types@, i as nat, views(names@)),
        decreases types@.len() - i,
    {
        let ghost before = texts@;
        assert(decreases_to!(types => types@[i as int]));
        let text = display_ty(&types[i], names);
        texts.push(text);
        assert(views(texts@) == views(before).push(text@));
        i += 1;
    }
    texts
}

pub fn display_ty(ty: &Ty, names: &Vec<String>) -> (text: String)
    ensures
        text@ == ty_text(*ty, views(names@)),
    decreases ty,
{
    match ty {
        Ty::Error => "<error>".to_owned(),
        Ty::Unknown => "_".to_owned(),
        Ty::BoundVar { index } => match get(names, *index) {
            Some(name) => name.clone(),
            None => "_".to_owned(),
        },
        Ty::Named { name, args } => {
            let mut text = name.clone();
            if args.len() > 0 {
                push_list(&mut text, &display_tys(args, names));
            }
            text
        },
        Ty::Function { params, ret } => {
            let mut text = String::new();
            assert(text@ == Seq::<char>::empty());
            push_list(&mut text, &display_tys(params, names));
            text.append(" -> ");
            text.append(display_ty(ret, names).as_str());
            proof {
                reveal_strlit(" -> ");
                reveal_strlit(") -> ");
                let inner = joined_by(ty_texts(params@, params@.len(), views(names@)), ", "@);
                assert(") -> "@ == seq![')'] + " -> "@);
                assert(text@ == seq!['('] + inner + ") -> "@ + ty_text(**ret, views(names@)));
            }
            text
        },
        Ty::Tuple { elems } => {
            let mut text = String::new();
            assert(text@ == Seq::<char>::empty());
            push_list(&mut text, &display_tys(elems, names));
            assert(text@ == seq!['('] + joined_by(
                ty_texts(elems@, elems@.len(), views(names@)),
                ", "@,
            ) + seq![')']);
            text
        },
        Ty::Comptime { inner } => {
            let mut text = "comptime ".to_owned();
            text.append(display_ty(inner, names).as_str());
            text
        },
    }
}

/// The text of an inferred predicate.
pub open spec fn pred_text(pred: Pred, names: Seq<Seq<char>>) -> Seq<char> {
    match pred {
        Pred::InClass { class, main, args } => {
            let head = ty_text(main, names) + ": "@ + class@;
            if args@.len() > 0 {
                head + seq!['('] + joined_by(ty_texts(args@, args@.len(), names), ", "@)
                    + seq![')']
            } else {
                head
            }
        },
        Pred::Eq { lhs, rhs } => ty_text(lhs, names) + " ~ "@ + ty_text(rhs, names),
        Pred::Error => "<error predicate>"@,
    }
}

pub fn display_pred(pred: &Pred, names: &Vec<String>) -> (text: String)
    ensures
        text@ == pred_text(*pred, views(names@)),
{
    match pred {
        Pred::InClass { class, main, args } => {
            let mut text = display_ty(main, names);
            text.append(": ");
            text.append(class.as_str());
            if args.len() > 0 {
                push_list(&mut text, &display_tys(args, names));
            }
            text
        },
        Pred::Eq { lhs, rhs } => {
            let mut text = display_ty(lhs, names);
            text.append(" ~ ");
            text.append(display_ty(rhs, names).as_str());
            text
        },
        Pred::Error => "<error predicate>".to_owned(),
    }
}

/// The texts of the names of a list.
pub open spec fn name_texts(names: Seq<Name>) -> Seq<Seq<char>> {
    Seq::new(names.len(), |i: int| names[i].text@)
}

pub fn ident_names(names: &Vec<Name>) -> (texts: Vec<String>)
    ensures
        views(texts@) == name_texts(names@),
{
    let mut texts: Vec<String> = Vec::new();
    let mut i: usize = 0;
    while i < names.len()
        invariant
            i <= names@.len(),
            texts@.len() == i,
            forall|k: int| 0 <= k < i ==> (#[trigger] texts@[k])@ == names@[k].text@,
        decreases names@.len() - i,
    {
        texts.push(names[i].text.clone());
        i += 1;
    }
    assert(views(texts@) == name_texts(names@));
    texts
}

/// The names of the parameters that could be parsed.
pub open spec fn param_names(params: Seq<FuncParam>) -> Seq<Seq<char>>
    decreases params.len(),
{
    if params.len() == 0 {
        Seq::empty()
    } else {
        let before = param_names(params.drop_last());
        match params.last() {
            FuncParam::Typed { name, .. } => before.push(name.text@),
            FuncParam::Untyped { name, .. } => before.push(name.text@),
            FuncParam::Error { .. } => before,
        }
    }
}

pub fn function_param_names(params: &Vec<FuncParam>) -> (names: Vec<String>)
    ensures
        views(names@) == param_names(params@),
{
    let ghost all = params@;
    let mut names: Vec<String> = Vec::new();
    let mut i: usize = 0;
    assert(all.take(0) == Seq::<FuncParam>::empty());
    assert(views(names@) == Seq::<Seq<char>>::empty());
    while i < params.len()
        invariant
            i <= all.len(),
            all == params@,
            views(names@) == param_names(all.take(i as int)),
        decreases all.len() - i,
    {
        let ghost before = names@;
        assert(all.take(i + 1).drop_last() == all.take(i as int));
        assert(all.take(i + 1).last() == all[i as int]);
        match &params[i] {
            FuncParam::Typed { comptime: _, name, ty: _ } => {
                names.push(name.text.clone());
                assert(views(names@) == views(before).push(name.text@));
            },
            FuncParam::Untyped { comptime: _, name } => {
                names.push(name.text.clone());
                assert(views(names@) == views(before).push(name.text@));
            },
            FuncParam::Error { .. } => {},
        }
        i += 1;
    }
    assert(all.take(i as int) == all);
    names
}

pub open spec fn comptime_prefix(comptime: bool) -> Seq<char> {
    if comptime {
        "comptime "@
    } else {
        Seq::empty()
    }
}

/// Begins a text that says whether something is evaluated at compile time.
pub fn start_text(comptime: bool) -> (text: String)
    ensures
        text@ == comptime_prefix(comptime),
{
    if comptime {
        "comptime ".to_owned()
    } else {
        let text = String::new();
        assert(text@ == Seq::<char>::empty());
        text
    }
}

/// The text of a parameter as written.
pub open spec fn source_param(param: FuncParam) -> Seq<char> {
    match param {
        FuncParam::Typed { comptime, name, ty } => comptime_prefix(comptime) + name.text@ + ": "@
            + type_ref_text(ty),
        FuncParam::Untyped { comptime, name } => comptime_prefix(comptime) + name.text@ + ": _"@,
        FuncParam::Error { .. } => "<error>: <error>"@,
    }
}

fn format_source_param(param: &FuncParam) -> (text: String)
    ensures
        text@ == source_param(*param),
{
    match param {
        FuncParam::Typed { comptime, name, ty } => {
            let mut text = start_text(*comptime);
            text.append(name.text.as_str());
            text.append(": ");
            text.append(display_type_ref(ty).as_str());
            text
        },
        FuncParam::Untyped { comptime, name } => {
            let mut text = start_text(*comptime);
            text.append(name.text.as_str());
            text.append(": _");
            text
        },
        FuncParam::Error { .. } => "<error>: <error>".to_owned(),
    }
}

/// The text of a written result type, a placeholder where none is written.
pub open spec fn ret_text(ret: Option<TypeRef>) -> Seq<char> {
    match ret {
        Some(ret) => type_ref_text(ret),
        None => "_"@,
    }
}

pub open spec fn source_params(params: Seq<FuncParam>) -> Seq<Seq<char>> {
    Seq::new(params.len(), |i: int| source_param(params[i]))
}

/// The text of a signature as written.
pub open spec fn source_signature(sig: FuncSig) -> Seq<char> {
    sig.name.text@ + seq!['('] + joined_by(source_params(sig.params@), ", "@) + ") -> "@
        + ret_text(sig.ret)
}

pub fn format_source_function_signature(sig: &FuncSig) -> (text: String)
    ensures
        text@ == source_signature(*sig),
{
    let mut params: Vec<String> = Vec::new();
    let mut i: usize = 0;
    while i < sig.params.len()
        invariant
            i <= sig.params@.len(),
            params@.len() == i,
            forall|k: int| 0 <= k < i ==> (#[trigger] params@[k])@ == source_param(sig.params@[k]),
        decreases sig.params@.len() - i,
    {
        params.push(format_source_param(&sig.params[i]));
        i += 1;
    }
    assert(views(params@) == source_params(sig.params@));
    let mut text = sig.name.text.clone();
    push_list(&mut text, &params);
    text.append(" -> ");
    match &sig.ret {
        Some(ret) => text.append(display_type_ref(ret).as_str()),
        None => text.append("_"),
    }
    proof {
        reveal_strlit(" -> ");
        reveal_strlit(") -> ");
        assert(") -> "@ == seq![')'] + " -> "@);
        assert(text@ == sig.name.text@ + seq!['('] + joined_by(source_params(sig.params@), ", "@)
            + ") -> "@ + ret_text(sig.ret));
    }
    text
}

/// The text of the type parameters of a declaration.
pub open spec fn type_params_text(params: Seq<Name>) -> Seq<char> {
    if params.len() > 0 {
        seq!['('] + joined_by(name_texts(params), ", "@) + seq![')']
    } else {
        Seq::empty()
    }
}

pub fn type_parameter_list(params: &Vec<Name>) -> (text: String)
    ensures
        text@ == type_params_text(params@),
{
    let mut text = String::new();
    assert(text@ == Seq::<char>::empty());
    if params.len() > 0 {
        push_list(&mut text, &ident_names(params));
        assert(text@ == type_params_text(params@));
    }
    text
}

/// The text of a data constructor.
pub open spec fn ctor_text(ctor: AdtCtor) -> Seq<char> {
    if ctor.field_count == 0 {
        ctor.name.text@
    } else if ctor.field_count == 1 {
        ctor.name.text@ + seq!['('] + type_ref_text(ctor.fields) + seq![')']
    } else {
        ctor.name.text@ + type_ref_text(ctor.fields)
    }
}

fn display_ctor(ctor: &AdtCtor) -> (text: String)
    ensures
        text@ == ctor_text(*ctor),
{
    let mut text = ctor.name.text.clone();
    if ctor.field_count == 1 {
        text.push('(');
        text.append(display_type_ref(&ctor.fields).as_str());
        text.push(')');
        assert(text@ == ctor_text(*ctor));
    } else if ctor.field_count > 1 {
        text.append(display_type_ref(&ctor.fields).as_str());
    }
    text
}

pub open spec fn ctor_texts(ctors: Seq<AdtCtor>) -> Seq<Seq<char>> {
    Seq::new(ctors.len(), |i: int| ctor_text(ctors[i]))
}

/// The text of the declaration of a data type.
pub open spec fn adt_text(adt: AdtDef) -> Seq<char> {
    let head = "data "@ + adt.name.text@ + type_params_text(adt.params@);
    let ctors = joined_by(ctor_texts(adt.ctors@), " | "@);
    if ctors.len() == 0 {
        head
    } else {
        head + " = "@ + ctors
    }
}

pub fn format_adt_declaration(adt: &AdtDef) -> (text: String)
    ensures
        text@ == adt_text(*adt),
{
    let mut parts: Vec<String> = Vec::new();
    let mut i: usize = 0;
    while i < adt.ctors.len()
        invariant
            i <= adt.ctors@.len(),
            parts@.len() == i,
            forall|k: int| 0 <= k < i ==> (#[trigger] parts@[k])@ == ctor_text(adt.ctors@[k]),
        decreases adt.ctors@.len() - i,
    {
        parts.push(display_ctor(&adt.ctors[i]));
        i += 1;
    }
    assert(views(parts@) == ctor_texts(adt.ctors@));
    let ctors = join_texts(&parts, " | ");
    let mut text = "data ".to_owned();
    text.append(adt.name.text.as_str());
    text.append(type_parameter_list(&adt.params).as_str());
    if to_chars(ctors.as_str()).len() > 0 {
        text.append(" = ");
        text.append(ctors.as_str());
    }
    text
}

/// The parameters of a type, none of one that is no function.
pub open spec fn scheme_params(scheme: TyScheme) -> Seq<Ty> {
    match scheme.ty {
        Ty::Function { params, .. } => params@,
        _ => Seq::empty(),
    }
}

/// The result of a type, the type itself where it is no function.
pub open spec fn scheme_ret(scheme: TyScheme) -> Ty {
    match scheme.ty {
        Ty::Function { ret, .. } => *ret,
        _ => scheme.ty,
    }
}

/// The text of a parameter with its name where it has one.
pub open spec fn named_param(ty: Ty, params: Seq<Seq<char>>, index: usize, names: Seq<Seq<char>>) -> Seq<
    char,
> {
    match element(params, index) {
        Some(name) => name + ": "@ + ty_text(ty, names),
        None => ty_text(ty, names),
    }
}

pub open spec fn named_params(types: Seq<Ty>, params: Seq<Seq<char>>, names: Seq<Seq<char>>) -> Seq<
    Seq<char>,
> {
    Seq::new(types.len(), |i: int| named_param(types[i], params, i as usize, names))
}

pub open spec fn pred_texts(preds: Seq<Pred>, names: Seq<Seq<char>>) -> Seq<Seq<char>> {
    Seq::new(preds.len(), |i: int| pred_text(preds[i], names))
}

/// The text of something that can be called.
pub open spec fn callable_text(
    name: Seq<char>,
    params: Seq<Seq<char>>,
    names: Seq<Seq<char>>,
    scheme: TyScheme,
) -> Seq<char> {
    let signature = name + seq!['('] + joined_by(
        named_params(scheme_params(scheme), params, names),
        ", "@,
    ) + ") -> "@ + ty_text(scheme_ret(scheme), names);
    if scheme.preds@.len() > 0 {
        signature + " where "@ + joined_by(pred_texts(scheme.preds@, names), ", "@)
    } else {
        signature
    }
}

fn display_named_params(types: &Vec<Ty>, params: &Vec<String>, names: &Vec<String>) -> (texts: Vec<
    String,
>)
    ensures
        views(texts@) == named_params(types@, views(params@), views(names@)),
{
    let mut texts: Vec<String> = Vec::new();
    let mut i: usize = 0;
    while i < types.len()
        invariant
            i <= types@.len(),
            texts@.len() == i,
            forall|k: int|
                0 <= k < i ==> (#[trigger] texts@[k])@ == named_param(
                    types@[k],
                    views(params@),
                    k as usize,
                    views(names@),
                ),
        decreases types@.len() - i,
    {
        let ty = display_ty(&types[i], names);
        let text = match get(params, i) {
            Some(name) => {
                let mut text = name.clone();
                text.append(": ");
                text.append(ty.as_str());
                text
            },
            None => ty,
        };
        texts.push(text);
        i += 1;
    }
    assert(views(texts@) == named_params(types@, views(params@), views(names@)));
    texts
}

pub fn format_callable_scheme(
    name: &str,
    params: &Vec<String>,
    names: &Vec<String>,
    scheme: &TyScheme,
) -> (text: String)
    ensures
        text@ == callable_text(name@, views(params@), views(names@), *scheme),
{
    let none: Vec<Ty> = Vec::new();
    let (types, ret) = match &scheme.ty {
        Ty::Function { params, ret } => (params, &**ret),
        _ => (&none, &scheme.ty),
    };
    assert(types@ == scheme_params(*scheme));
    let mut text = name.to_owned();
    push_list(&mut text, &display_named_params(types, params, names));
    text.append(" -> ");
    text.append(display_ty(ret, names).as_str());
    proof {
        reveal_strlit(" -> ");
        reveal_strlit(") -> ");
        assert(") -> "@ == seq![')'] + " -> "@);
        assert(text@ == name@ + seq!['('] + joined_by(
            named_params(scheme_params(*scheme), views(params@), views(names@)),
            ", "@,
        ) + ") -> "@ + ty_text(scheme_ret(*scheme), views(names@)));
    }
    if scheme.preds.len() > 0 {
        let mut preds: Vec<String> = Vec::new();
        let mut i: usize = 0;
        while i < scheme.preds.len()
            invariant
                i <= scheme.preds@.len(),
                preds@.len() == i,
                forall|k: int|
                    0 <= k < i ==> (#[trigger] preds@[k])@ == pred_text(
                        scheme.preds@[k],
                        views(names@),
                    ),
            decreases scheme.preds@.len() - i,
        {
            preds.push(display_pred(&scheme.preds[i], names));
            i += 1;
        }
        assert(views(preds@) == pred_texts(scheme.preds@, views(names@)));
        text.append(" where ");
        text.append(join_texts(&preds, ", ").as_str());
    }
    text
}

} // verus!
