//! What holds of the symbol that is found under a position.
use vstd::prelude::*;

use crate::analysis::{facts_numbered, pat_of, stmt_of};
use crate::declaration_laws::param_at;
use crate::declarations::{adt_of, param_span};
use crate::hir::{
    AdtCtor, AdtDef, BodyId, BodyResolutionMap, ContractScope, CtorEntry, DefId, DefResolutionKind,
    Expr, ExprKind, FieldEntry, FuncBody, FuncParam, ImportedName, ItemScopeFacts, Module, ModuleEnv, Name, Namespace, ParamId, PatEntry, PredEntry, Resolution,
    ScopeEntry, SelectedName, SourceFacts, Span, StmtEntry, StmtKind, TypeEntry,
};
use crate::reference_laws::{denotes, lemma_denotes, pat_spells, type_spells};
use crate::references::{
    context_hit, contract_scope_hit, ctor_entry_hit, ctor_target, ctors_hit, entries_hit, expr_hit,
    field_entry_hit, is_imported_as, lambda_param_hit, lambda_params_hit, local_name, map_hit, param_hit, pat_entry_hit, pat_name, pred_entry_hit, scope_entry_hit, scope_hit,
    selected_resolution, stmt_entry_hit, target_in_file, type_entry_hit, type_ref_name, types_hit,
    var_hit, TargetParts,
};
use crate::resolve::{body_tree, contexts, FunctionAtOffset};
use crate::seqs::{find_map, law_find, law_find_map, lemma_find_source, position};
use crate::tree_laws::{has_function, law_body_tree, law_functions, lies_in};

verus! {

/// Whether a span of a file holds an offset.
pub open spec fn is_on(span: Span, file: u32, offset: u32) -> bool {
    span.file == file && span.start <= offset && offset < span.end
}

/// Whether a parameter's name holds an offset.
pub open spec fn is_param_on(param: FuncParam, file: u32, offset: u32) -> bool {
    exists|span: Span| #[trigger] param_at(param, span) && is_on(span, file, offset)
}

proof fn lemma_param_on(param: FuncParam, file: u32, offset: u32)
    ensures
        is_param_on(param, file, offset) <==> (param_span(param) matches Some(span) && span.holds(
            file,
            offset,
        )),
{
    if param_span(param) is Some {
        assert(param_at(param, param_span(param)->0));
    }
}

/// The parameter under an offset is the first whose name holds the offset: it goes by the body of
/// its function and its own index. None is found only where no name of a parameter does.
pub proof fn law_param_under(params: Seq<FuncParam>, body: BodyId, file: u32, offset: u32)
    requires
        params.len() <= usize::MAX,
    ensures
        param_hit(params, body, file, offset) is None <==> forall|i: int|
            0 <= i < params.len() ==> !is_param_on(#[trigger] params[i], file, offset),
        forall|i: int|
            0 <= i < params.len() && is_param_on(#[trigger] params[i], file, offset) && (forall|
                j: int,
            |
                0 <= j < i ==> !is_param_on(#[trigger] params[j], file, offset)) ==> param_hit(
                params,
                body,
                file,
                offset,
            ) == Some(TargetParts::Param(ParamId { body, index: i as usize })),
    decreases params.len(),
{
    if params.len() > 0 {
        let front = params.drop_last();
        law_param_under(front, body, file, offset);
        lemma_param_on(params.last(), file, offset);
        assert(params[params.len() - 1] == params.last());
        assert forall|i: int| 0 <= i < front.len() implies #[trigger] params[i] == front[i] by {}
        if param_hit(front, body, file, offset) is None {
            assert forall|i: int| 0 <= i < front.len() implies !is_param_on(
                #[trigger] params[i],
                file,
                offset,
            ) by {
                assert(!is_param_on(front[i], file, offset));
            }
        }
        assert forall|i: int|
            0 <= i < params.len() && is_param_on(#[trigger] params[i], file, offset) && (forall|
                j: int,
            |
                0 <= j < i ==> !is_param_on(#[trigger] params[j], file, offset)) implies param_hit(
            params,
            body,
            file,
            offset,
        ) == Some(TargetParts::Param(ParamId { body, index: i as usize })) by {
            assert forall|j: int| 0 <= j < i implies !is_param_on(
                #[trigger] front[j],
                file,
                offset,
            ) by {
                assert(params[j] == front[j]);
            }
            if i < front.len() {
                assert(is_param_on(front[i], file, offset));
            }
        }
    }
}

/// A position on the name of a parameter finds that very parameter, where no expression and no
/// other function has a name there.
pub proof fn law_symbol_of_parameter(
    files: Seq<SourceFacts>,
    facts: SourceFacts,
    offset: u32,
    context: FunctionAtOffset<'_>,
    i: int,
)
    requires
        expr_hit(facts, offset) is None,
        has_function(facts.module, context),
        context.function.sig.params@.len() <= usize::MAX,
        0 <= i < context.function.sig.params@.len(),
        is_param_on(context.function.sig.params@[i], facts.file, offset),
        forall|j: int|
            0 <= j < i ==> !is_param_on(
                #[trigger] context.function.sig.params@[j],
                facts.file,
                offset,
            ),
        forall|other: FunctionAtOffset<'_>| #[trigger]
            has_function(facts.module, other) ==> other == context || context_hit(
                facts,
                other,
                offset,
            ) is None,
    ensures
        target_in_file(files, facts, offset) == Some(
            TargetParts::Param(ParamId { body: context.root_body.id, index: i as usize }),
        ),
{
    let all = contexts(&facts.module, facts.module.items@.len());
    let f = |context: FunctionAtOffset<'_>| context_hit(facts, context, offset);
    law_param_under(context.function.sig.params@, context.root_body.id, facts.file, offset);
    law_functions(facts.module, context);
    law_find_map(all, f);
    let k = choose|k: int| 0 <= k < all.len() && all[k] == context;
    assert(f(all[k]) is Some);
    let m = lemma_find_source(all, f);
    assert(all.contains(all[m]));
    law_functions(facts.module, all[m]);
    assert(all[m] == context);
}

/// The place of an element that passes a test is that of the first one. None is given only where
/// none passes.
pub proof fn law_position<T>(s: Seq<T>, test: spec_fn(T) -> bool)
    requires
        s.len() <= usize::MAX,
    ensures
        position(s, test) is None <==> forall|i: int| 0 <= i < s.len() ==> !test(#[trigger] s[i]),
        position(s, test) matches Some(at) ==> at < s.len() && test(s[at as int]) && forall|i: int|
            0 <= i < at ==> !test(#[trigger] s[i]),
    decreases s.len(),
{
    if s.len() > 0 {
        let front = s.drop_last();
        law_position(front, test);
        assert forall|i: int| 0 <= i < front.len() implies #[trigger] s[i] == front[i] by {}
        if position(front, test) is None {
            assert forall|i: int| 0 <= i < front.len() implies !test(#[trigger] s[i]) by {
                assert(!test(front[i]));
            }
        } else {
            let at = position(front, test)->0;
            assert(test(s[at as int]));
            assert forall|i: int| 0 <= i < at implies !test(#[trigger] s[i]) by {
                assert(!test(front[i]));
            }
        }
    }
}

/// The type variable under an offset is the first whose name holds the offset: it goes by its
/// owner, its own index and its own name.
pub proof fn law_type_var_under(owner: DefId, vars: Seq<Name>, file: u32, offset: u32)
    requires
        vars.len() <= usize::MAX,
    ensures
        var_hit(owner, vars, file, offset) is None <==> forall|i: int|
            0 <= i < vars.len() ==> !is_on((#[trigger] vars[i]).span, file, offset),
        var_hit(owner, vars, file, offset) matches Some(target) ==> exists|i: int|
            0 <= i < vars.len() && is_on((#[trigger] vars[i]).span, file, offset) && target == (
            TargetParts::TypeVar { owner, index: i as usize, name: vars[i].text@ }) && forall|j: int|
                0 <= j < i ==> !is_on((#[trigger] vars[j]).span, file, offset),
{
    let test = |var: Name| var.span.holds(file, offset);
    law_position(vars, test);
    assert(var_hit(owner, vars, file, offset) is Some <==> position(vars, test) is Some);
    if position(vars, test) is Some {
        let at = position(vars, test)->0;
        assert(is_on(vars[at as int].span, file, offset));
        assert forall|j: int| 0 <= j < at implies !is_on((#[trigger] vars[j]).span, file, offset) by {
            assert(!test(vars[j]));
        }
    } else {
        assert forall|i: int| 0 <= i < vars.len() implies !is_on(
            (#[trigger] vars[i]).span,
            file,
            offset,
        ) by {
            assert(!test(vars[i]));
        }
    }
}

/// The entry of a scope under an offset is the first whose name holds the offset and that stands
/// for a symbol.
pub proof fn law_entry_under(entries: Seq<ScopeEntry>, file: u32, offset: u32)
    ensures
        entries_hit(entries, file, offset) matches Some(target) ==> exists|i: int|
            0 <= i < entries.len() && is_on((#[trigger] entries[i]).span, file, offset) && denotes(
                entries[i].resolution,
                target,
            ),
        entries_hit(entries, file, offset) is None ==> forall|i: int, target: TargetParts|
            0 <= i < entries.len() && is_on((#[trigger] entries[i]).span, file, offset)
                ==> !#[trigger] denotes(entries[i].resolution, target),
{
    let f = |entry: ScopeEntry| scope_entry_hit(entry, file, offset);
    law_find_map(entries, f);
    if entries_hit(entries, file, offset) is Some {
        let i = lemma_find_source(entries, f);
        lemma_denotes(entries[i].resolution, entries_hit(entries, file, offset)->0);
        assert(is_on(entries[i].span, file, offset));
    } else {
        assert forall|i: int, target: TargetParts|
            0 <= i < entries.len() && is_on((#[trigger] entries[i]).span, file, offset) implies !#[trigger] denotes(
        entries[i].resolution, target) by {
            assert(f(entries[i]) is None);
            lemma_denotes(entries[i].resolution, target);
        }
    }
}

/// The constructor under an offset is one whose name in the scope holds the offset: it goes by its
/// own type and its own index.
pub proof fn law_constructor_under(entries: Seq<CtorEntry>, file: u32, offset: u32)
    ensures
        ctors_hit(entries, file, offset) matches Some(target) ==> exists|i: int|
            0 <= i < entries.len() && is_on((#[trigger] entries[i]).span, file, offset) && target
                == (TargetParts::Ctor { ty: entries[i].ty, index: entries[i].index }),
        ctors_hit(entries, file, offset) is None ==> forall|i: int|
            0 <= i < entries.len() ==> !is_on((#[trigger] entries[i]).span, file, offset),
{
    let f = |entry: CtorEntry| ctor_entry_hit(entry, file, offset);
    law_find_map(entries, f);
    if ctors_hit(entries, file, offset) is Some {
        let i = lemma_find_source(entries, f);
        assert(is_on(entries[i].span, file, offset));
    }
}

/// Whether the name that a `let` statement binds holds an offset.
pub open spec fn is_let_on(module: Module, entry: StmtEntry, file: u32, offset: u32) -> bool {
    stmt_of(module, entry.body, entry.stmt) matches Some(stmt) && (stmt.kind matches StmtKind::Let {
        name,
        ..
    } && is_on(name.span, file, offset))
}

/// Whether the name in a pattern holds an offset.
pub open spec fn is_pat_on(module: Module, entry: PatEntry, file: u32, offset: u32) -> bool {
    pat_of(module, entry.body, entry.pat) matches Some(pat) && exists|text: Seq<char>, span: Span|
        #[trigger] pat_spells(pat, text, span) && is_on(span, file, offset)
}

/// Whether the name of a type holds an offset.
pub open spec fn is_type_on(entry: TypeEntry, file: u32, offset: u32) -> bool {
    exists|text: Seq<char>, span: Span| #[trigger]
        type_spells(entry.ty, text, span) && is_on(span, file, offset)
}

/// The type or predicate under an offset is one whose name holds the offset: it stands for what
/// that name resolves to.
pub proof fn law_type_under(types: Seq<TypeEntry>, preds: Seq<PredEntry>, file: u32, offset: u32)
    ensures
        types_hit(types, preds, file, offset) matches Some(Some(target)) ==> (exists|i: int|
            0 <= i < types.len() && is_type_on(#[trigger] types[i], file, offset) && denotes(
                types[i].resolution,
                target,
            )) || (exists|i: int|
            0 <= i < preds.len() && is_on((#[trigger] preds[i]).pred.class.span, file, offset)
                && denotes(preds[i].resolution, target)),
        types_hit(types, preds, file, offset) is None ==> (forall|i: int|
            0 <= i < types.len() ==> !is_type_on(#[trigger] types[i], file, offset)) && (forall|i: int|
            0 <= i < preds.len() ==> !is_on((#[trigger] preds[i]).pred.class.span, file, offset)),
{
    let f = |entry: TypeEntry| type_entry_hit(entry, file, offset);
    let g = |entry: PredEntry| pred_entry_hit(entry, file, offset);
    law_find_map(types, f);
    law_find_map(preds, g);
    assert forall|i: int| 0 <= i < types.len() implies (f(#[trigger] types[i]) is Some
        <==> is_type_on(types[i], file, offset)) by {
        lemma_type_on(types[i], file, offset);
    }
    if types_hit(types, preds, file, offset) is Some && types_hit(types, preds, file, offset)->0 is Some {
        let target = types_hit(types, preds, file, offset)->0->0;
        if find_map(types, f) is Some {
            let i = lemma_find_source(types, f);
            lemma_denotes(types[i].resolution, target);
            assert(is_type_on(types[i], file, offset));
        } else {
            let i = lemma_find_source(preds, g);
            lemma_denotes(preds[i].resolution, target);
            assert(is_on(preds[i].pred.class.span, file, offset));
        }
    }
}

proof fn lemma_type_on(entry: TypeEntry, file: u32, offset: u32)
    ensures
        type_entry_hit(entry, file, offset) is Some <==> is_type_on(entry, file, offset),
{
    match type_ref_name(entry.ty) {
        Some(name) => {
            assert(type_spells(entry.ty, name.text, name.span));
        },
        None => {},
    }
}

/// A position on a name that a body binds or uses in a pattern finds what that name resolves to.
pub proof fn law_binding_under(module: Module, map: BodyResolutionMap, file: u32, offset: u32, target: TargetParts)
    requires
        map_hit(module, map, file, offset) == Some(Some(target)),
    ensures
        (exists|i: int|
            0 <= i < map.stmt_bindings@.len() && is_let_on(
                module,
                #[trigger] map.stmt_bindings@[i],
                file,
                offset,
            ) && denotes(map.stmt_bindings@[i].resolution, target)) || (exists|i: int|
            0 <= i < map.pats@.len() && is_pat_on(module, #[trigger] map.pats@[i], file, offset)
                && denotes(map.pats@[i].resolution, target)) || (exists|i: int|
            0 <= i < map.types@.len() && is_type_on(#[trigger] map.types@[i], file, offset)
                && denotes(map.types@[i].resolution, target)) || (exists|i: int|
            0 <= i < map.preds@.len() && is_on(
                (#[trigger] map.preds@[i]).pred.class.span,
                file,
                offset,
            ) && denotes(map.preds@[i].resolution, target)),
{
    let f = |entry: StmtEntry| stmt_entry_hit(module, entry, file, offset);
    let g = |entry: PatEntry| pat_entry_hit(module, entry, file, offset);
    if find_map(map.stmt_bindings@, f) is Some {
        let i = lemma_find_source(map.stmt_bindings@, f);
        lemma_denotes(map.stmt_bindings@[i].resolution, target);
        assert(is_let_on(module, map.stmt_bindings@[i], file, offset));
    } else if find_map(map.pats@, g) is Some {
        let i = lemma_find_source(map.pats@, g);
        lemma_denotes(map.pats@[i].resolution, target);
        let pat = pat_of(module, map.pats@[i].body, map.pats@[i].pat)->0;
        let name = pat_name(pat)->0;
        assert(pat_spells(pat, name.text, name.span));
        assert(is_pat_on(module, map.pats@[i], file, offset));
    } else {
        law_type_under(map.types@, map.preds@, file, offset);
    }
}

/// What an imported name stands for is what is recorded for the first import of that name as a
/// term, or else as a type: under the name that the import gives it, or else its own.
pub proof fn law_selected_resolution(env: ModuleEnv, selected: SelectedName, name: Seq<char>)
    requires
        name == match selected.alias {
            Some(alias) => alias.text@,
            None => selected.name.text@,
        },
    ensures
        selected_resolution(env, selected) matches Some(resolution) ==> exists|i: int|
            0 <= i < env.names@.len() && (#[trigger] env.names@[i]).name@ == name
                && env.names@[i].resolution == Some(resolution) && (env.names@[i].namespace
                == Namespace::Term || env.names@[i].namespace == Namespace::Type),
        forall|i: int|
            0 <= i < env.names@.len() && (#[trigger] env.names@[i]).name@ == name
                && env.names@[i].namespace == Namespace::Term && env.names@[i].resolution is Some && (
            forall|j: int|
                0 <= j < i ==> !((#[trigger] env.names@[j]).name@ == name
                    && env.names@[j].namespace == Namespace::Term)) ==> selected_resolution(
                env,
                selected,
            ) == env.names@[i].resolution,
        forall|i: int|
            0 <= i < env.names@.len() && (#[trigger] env.names@[i]).name@ == name
                && env.names@[i].namespace == Namespace::Type && env.names@[i].resolution is Some && (
            forall|j: int|
                0 <= j < i ==> !((#[trigger] env.names@[j]).name@ == name
                    && env.names@[j].namespace == Namespace::Type)) && (forall|j: int|
                0 <= j < env.names@.len() ==> !((#[trigger] env.names@[j]).name@ == name
                    && env.names@[j].namespace == Namespace::Term)) ==> selected_resolution(
                env,
                selected,
            ) == env.names@[i].resolution,
{
    law_find(
        env.names@,
        |imported: ImportedName| is_imported_as(imported, Namespace::Term, local_name(selected)),
    );
    law_find(
        env.names@,
        |imported: ImportedName| is_imported_as(imported, Namespace::Type, local_name(selected)),
    );
}

/// A constructor that is listed with its type is the first of that name in the type.
pub proof fn law_listed_constructor(
    files: Seq<SourceFacts>,
    facts: SourceFacts,
    adt: AdtDef,
    kind: DefResolutionKind,
    name: Seq<char>,
)
    requires
        facts_numbered(files, adt.def.file) == Some(facts),
        adt_of(facts.module, adt.def) == Some(adt),
        adt.ctors@.len() <= usize::MAX,
    ensures
        ctor_target(files, Some(Resolution::Def { def: adt.def, kind }), name) is None
            <==> forall|i: int|
            0 <= i < adt.ctors@.len() ==> (#[trigger] adt.ctors@[i]).name.text@ != name,
        ctor_target(files, Some(Resolution::Def { def: adt.def, kind }), name) matches Some(target)
            ==> exists|i: int|
            0 <= i < adt.ctors@.len() && (#[trigger] adt.ctors@[i]).name.text@ == name && target == (
            TargetParts::Ctor { ty: adt.def, index: i as usize }),
{
    assert(seq![name][0] == name);
    let resolution = Some(Resolution::Def { def: adt.def, kind });
    assert(ctor_target(files, resolution, name) == ctor_target(files, resolution, seq![name][0]));
    law_position(adt.ctors@, |ctor: AdtCtor| ctor.name.text@ == seq![name][0]);
}

/// A parameter of a lambda is found under an offset in its name, however deep the lambda stands in
/// the function.
pub proof fn law_lambda_param_under(root: FuncBody, body: FuncBody, i: int, file: u32, offset: u32)
    requires
        lies_in(root, body),
        0 <= i < body.exprs@.len(),
        body.exprs@[i].kind matches ExprKind::Lambda { params, body: inner } && param_hit(
            params@,
            inner.id,
            file,
            offset,
        ) is Some,
    ensures
        lambda_params_hit(root, file, offset) is Some,
{
    let f = |expr: Expr| lambda_param_hit(expr, file, offset);
    let g = |body: FuncBody|
        find_map(body.exprs@, |expr: Expr| lambda_param_hit(expr, file, offset));
    law_find_map(body.exprs@, f);
    assert(f(body.exprs@[i]) is Some);
    assert(find_map(body.exprs@, f) is Some);
    law_body_tree(root, body);
    law_find_map(body_tree(root), g);
    let b = choose|b: int| 0 <= b < body_tree(root).len() && body_tree(root)[b] == body;
    assert(g(body_tree(root)[b]) is Some);
}

/// A name that a module declares is found under an offset, be it a type, a term, a module, a
/// constructor or a member of a contract.
pub proof fn law_declared_name_under(scope: ItemScopeFacts, file: u32, offset: u32)
    ensures
        scope_hit(scope, file, offset) is Some <==> entries_hit(scope.types@, file, offset) is Some
            || entries_hit(scope.terms@, file, offset) is Some || entries_hit(
            scope.modules@,
            file,
            offset,
        ) is Some || ctors_hit(scope.ctors@, file, offset) is Some || exists|k: int|
            0 <= k < scope.contracts@.len() && contract_scope_hit(
                #[trigger] scope.contracts@[k],
                file,
                offset,
            ) is Some,
{
    law_find_map(
        scope.contracts@,
        |contract: ContractScope| contract_scope_hit(contract, file, offset),
    );
}

/// A name that a contract declares is found under an offset, be it a type, a term, a field or a
/// constructor.
pub proof fn law_member_name_under(scope: ContractScope, file: u32, offset: u32)
    ensures
        contract_scope_hit(scope, file, offset) is Some <==> entries_hit(
            scope.types@,
            file,
            offset,
        ) is Some || entries_hit(scope.terms@, file, offset) is Some || ctors_hit(
            scope.ctors@,
            file,
            offset,
        ) is Some || exists|k: int|
            0 <= k < scope.fields@.len() && field_entry_hit(
                #[trigger] scope.fields@[k],
                file,
                offset,
            ) is Some,
{
    law_find_map(scope.fields@, |entry: FieldEntry| field_entry_hit(entry, file, offset));
}

} // verus!
