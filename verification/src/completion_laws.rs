//! What holds of the names that are offered for completion.
use vstd::prelude::*;

use crate::analysis::{map_of, pat_of, stmt_of};
use crate::completion::{
    arranged, body_at, body_items, completions_in_file, contract_around, contract_at, contract_items, contract_with_body,
    detail_of_resolution, entry_item, entry_items, entry_member, entry_members, field_item,
    has_completion, identifier, identifier_path, import_items, imported_in, imported_item,
    imported_member, imported_members, inherited_items, keyword_item, keyword_items, keywords,
    kind_of_resolution, last_dot, law_completions, let_item, local_items, member_items, member_of,
    namespace_items, param_item, path_before, path_char, path_context, path_start, pattern_item,
    plain_items, same_completion, scope_items, scope_of_contract, type_var_item, type_var_items,
    ContextParts,
};
use crate::hir::{
    BodyFacts, BuiltinKind, ContractItem, ContractScope, DefId, DefResolutionKind, FieldEntry,
    FuncParam, ImportedName, Item, ItemScopeFacts, LocalBinding, Module, ModuleEnv, Name, Namespace,
    PatEntry, PatKind, Resolution, ScopeEntry, SourceFacts, StmtEntry, StmtKind,
};
use crate::protocol::{CompletionItem, CompletionItemKind, CompletionParts};
use crate::rank::Ranked;
use crate::resolve::{owner_at, FunctionAtOffset};
use crate::seqs::{
    filter_map, law_filter_map, law_find, law_find_map, law_joined, lemma_find_source,
};
use crate::text::text_lt;

verus! {

/// Whether a name that stands for something is shown as a kind of item, with a word for it.
pub open spec fn is_shown_as(
    resolution: Resolution,
    kind: CompletionItemKind,
    detail: Seq<char>,
) -> bool {
    match resolution {
        Resolution::Def { kind: DefResolutionKind::Function, .. } => kind
            == CompletionItemKind::Function && detail == "function"@,
        Resolution::Def { kind: DefResolutionKind::Contract, .. } => kind
            == CompletionItemKind::Class && detail == "contract"@,
        Resolution::Def { kind: DefResolutionKind::Adt, .. } => kind == CompletionItemKind::Enum
            && detail == "data"@,
        Resolution::Def { kind: DefResolutionKind::TypeAlias, .. } => kind
            == CompletionItemKind::Struct && detail == "type alias"@,
        Resolution::Def { kind: DefResolutionKind::Class, .. } => kind
            == CompletionItemKind::Interface && detail == "class"@,
        Resolution::Def { kind: DefResolutionKind::Instance, .. } => kind
            == CompletionItemKind::Class && detail == "instance"@,
        Resolution::Ctor { .. } => kind == CompletionItemKind::Constructor && detail
            == "constructor"@,
        Resolution::Local(LocalBinding::TypeVar { .. }) => kind == CompletionItemKind::TypeParameter
            && detail == "type parameter"@,
        Resolution::Local(_) => kind == CompletionItemKind::Variable && detail == "local"@,
        Resolution::Param(_) => kind == CompletionItemKind::Variable && detail == "parameter"@,
        Resolution::Field(_) => kind == CompletionItemKind::Field && detail == "field"@,
        Resolution::ClassMethod { .. } => kind == CompletionItemKind::Method && detail
            == "class method"@,
        Resolution::Module { .. } => kind == CompletionItemKind::Module && detail == "module"@,
        Resolution::Builtin(BuiltinKind::Type) => kind == CompletionItemKind::Struct && detail
            == "builtin type"@,
        Resolution::Builtin(BuiltinKind::Class) => kind == CompletionItemKind::Interface && detail
            == "builtin class"@,
        Resolution::Builtin(BuiltinKind::Constructor(_)) => kind == CompletionItemKind::Constructor
            && detail == "builtin constructor"@,
        Resolution::Builtin(BuiltinKind::Function(_)) => kind == CompletionItemKind::Function
            && detail == "builtin function"@,
        Resolution::Builtin(BuiltinKind::ClassMethod(_)) => kind == CompletionItemKind::Method
            && detail == "builtin class method"@,
        Resolution::DotCtorDeferred => kind == CompletionItemKind::Text && detail == "constructor"@,
        Resolution::Unresolved => kind == CompletionItemKind::Text && detail == "unresolved"@,
    }
}

/// Whether an imported name is shown as a kind of item: as what it stands for, or by its kind of
/// name where that is not known.
pub open spec fn is_import_shown_as(
    imported: ImportedName,
    kind: CompletionItemKind,
    detail: Seq<char>,
) -> bool {
    match imported.resolution {
        Some(resolution) => is_shown_as(resolution, kind, detail),
        None => match imported.namespace {
            Namespace::Type => kind == CompletionItemKind::Struct && detail == "type"@,
            Namespace::Term => kind == CompletionItemKind::Value && detail == "term"@,
            Namespace::Field => kind == CompletionItemKind::Field && detail == "field"@,
            Namespace::Module => kind == CompletionItemKind::Module && detail == "module"@,
        },
    }
}

/// Whether a list offers a name as a kind of item.
pub open spec fn offers(list: Seq<CompletionParts>, label: Seq<char>, kind: CompletionItemKind) -> bool {
    exists|i: int| 0 <= i < list.len() && (#[trigger] list[i]).label == label && list[i].kind == kind
}

/// Whether one of the entries of a module's scope has a name and stands for something.
pub open spec fn in_scope(scope: ItemScopeFacts, entry: ScopeEntry) -> bool {
    scope.terms@.contains(entry) || scope.types@.contains(entry) || scope.modules@.contains(entry)
}

/// Whether a name is imported as a term, a type or a module.
pub open spec fn is_imported(env: ModuleEnv, imported: ImportedName) -> bool {
    env.names@.contains(imported) && imported.namespace != Namespace::Field
}

pub proof fn lemma_entry_items(entries: Seq<ScopeEntry>, item: CompletionParts)
    ensures
        entry_items(entries).contains(item) <==> exists|k: int|
            0 <= k < entries.len() && item.label == (#[trigger] entries[k]).name@ && is_shown_as(
                entries[k].resolution,
                item.kind,
                item.detail,
            ),
{
    let f = |entry: ScopeEntry| Some(entry_item(entry));
    law_filter_map(entries, f);
    assert(entry_items(entries) == filter_map(entries, f));
    if entry_items(entries).contains(item) {
        let k = choose|k: int| 0 <= k < entries.len() && f(#[trigger] entries[k]) == Some(item);
        assert(item == entry_item(entries[k]));
    }
    if exists|k: int|
        0 <= k < entries.len() && item.label == (#[trigger] entries[k]).name@ && is_shown_as(
            entries[k].resolution,
            item.kind,
            item.detail,
        ) {
        let k = choose|k: int|
            0 <= k < entries.len() && item.label == (#[trigger] entries[k]).name@ && is_shown_as(
                entries[k].resolution,
                item.kind,
                item.detail,
            );
        assert(item == entry_item(entries[k]));
        assert(f(entries[k]) == Some(item));
    }
}

proof fn lemma_scope_items(scope: ItemScopeFacts, item: CompletionParts)
    ensures
        scope_items(scope).contains(item) <==> exists|entry: ScopeEntry| #[trigger]
            in_scope(scope, entry) && item.label == entry.name@ && is_shown_as(
                entry.resolution,
                item.kind,
                item.detail,
            ),
{
    let terms = entry_items(scope.terms@);
    let types = entry_items(scope.types@);
    let modules = entry_items(scope.modules@);
    law_joined(terms, types);
    law_joined(terms + types, modules);
    lemma_entry_items(scope.terms@, item);
    lemma_entry_items(scope.types@, item);
    lemma_entry_items(scope.modules@, item);
    if scope_items(scope).contains(item) {
        let entries = if terms.contains(item) {
            scope.terms@
        } else if types.contains(item) {
            scope.types@
        } else {
            scope.modules@
        };
        let k = choose|k: int|
            0 <= k < entries.len() && item.label == (#[trigger] entries[k]).name@ && is_shown_as(
                entries[k].resolution,
                item.kind,
                item.detail,
            );
        assert(entries.contains(entries[k]));
        assert(in_scope(scope, entries[k]));
    }
    if exists|entry: ScopeEntry| #[trigger]
        in_scope(scope, entry) && item.label == entry.name@ && is_shown_as(
            entry.resolution,
            item.kind,
            item.detail,
        ) {
        let entry = choose|entry: ScopeEntry| #[trigger]
            in_scope(scope, entry) && item.label == entry.name@ && is_shown_as(
                entry.resolution,
                item.kind,
                item.detail,
            );
        let entries = if scope.terms@.contains(entry) {
            scope.terms@
        } else if scope.types@.contains(entry) {
            scope.types@
        } else {
            scope.modules@
        };
        let k = choose|k: int| 0 <= k < entries.len() && entries[k] == entry;
        assert(item.label == entries[k].name@);
    }
}

proof fn lemma_namespace_items(env: ModuleEnv, namespace: Namespace, item: CompletionParts)
    ensures
        namespace_items(env, namespace).contains(item) <==> exists|k: int|
            0 <= k < env.names@.len() && (#[trigger] env.names@[k]).namespace == namespace
                && item.label == env.names@[k].name@ && is_import_shown_as(
                env.names@[k],
                item.kind,
                item.detail,
            ),
{
    let f = |imported: ImportedName| imported_in(imported, namespace);
    law_filter_map(env.names@, f);
    if namespace_items(env, namespace).contains(item) {
        let k = choose|k: int| 0 <= k < env.names@.len() && f(#[trigger] env.names@[k]) == Some(item);
        assert(item == imported_item(env.names@[k], env.names@[k].name@));
    }
    if exists|k: int|
        0 <= k < env.names@.len() && (#[trigger] env.names@[k]).namespace == namespace && item.label
            == env.names@[k].name@ && is_import_shown_as(env.names@[k], item.kind, item.detail) {
        let k = choose|k: int|
            0 <= k < env.names@.len() && (#[trigger] env.names@[k]).namespace == namespace
                && item.label == env.names@[k].name@ && is_import_shown_as(
                env.names@[k],
                item.kind,
                item.detail,
            );
        assert(item == imported_item(env.names@[k], env.names@[k].name@));
        assert(f(env.names@[k]) == Some(item));
    }
}

proof fn lemma_import_items(env: ModuleEnv, item: CompletionParts)
    ensures
        import_items(env).contains(item) <==> exists|imported: ImportedName| #[trigger]
            is_imported(env, imported) && item.label == imported.name@ && is_import_shown_as(
                imported,
                item.kind,
                item.detail,
            ),
{
    let terms = namespace_items(env, Namespace::Term);
    let types = namespace_items(env, Namespace::Type);
    let modules = namespace_items(env, Namespace::Module);
    law_joined(terms, types);
    law_joined(terms + types, modules);
    lemma_namespace_items(env, Namespace::Term, item);
    lemma_namespace_items(env, Namespace::Type, item);
    lemma_namespace_items(env, Namespace::Module, item);
    if import_items(env).contains(item) {
        let namespace = if terms.contains(item) {
            Namespace::Term
        } else if types.contains(item) {
            Namespace::Type
        } else {
            Namespace::Module
        };
        let k = choose|k: int|
            0 <= k < env.names@.len() && (#[trigger] env.names@[k]).namespace == namespace
                && item.label == env.names@[k].name@ && is_import_shown_as(
                env.names@[k],
                item.kind,
                item.detail,
            );
        assert(env.names@.contains(env.names@[k]));
        assert(is_imported(env, env.names@[k]));
    }
    if exists|imported: ImportedName| #[trigger]
        is_imported(env, imported) && item.label == imported.name@ && is_import_shown_as(
            imported,
            item.kind,
            item.detail,
        ) {
        let imported = choose|imported: ImportedName| #[trigger]
            is_imported(env, imported) && item.label == imported.name@ && is_import_shown_as(
                imported,
                item.kind,
                item.detail,
            );
        let k = choose|k: int| 0 <= k < env.names@.len() && env.names@[k] == imported;
        assert(env.names@[k].namespace == imported.namespace);
    }
}

/// The words that are offered everywhere are the reserved words of the language.
pub proof fn law_keywords()
    ensures
        keywords().len() == 31,
        forall|word: Seq<char>| #[trigger]
            keywords().contains(word) <==> word == "contract"@ || word == "import"@ || word
                == "export"@ || word == "as"@ || word == "let"@ || word == "data"@ || word
                == "class"@ || word == "forall"@ || word == "instance"@ || word == "if"@ || word
                == "else"@ || word == "for"@ || word == "switch"@ || word == "type"@ || word
                == "case"@ || word == "default"@ || word == "match"@ || word == "public"@ || word
                == "payable"@ || word == "function"@ || word == "constructor"@ || word
                == "fallback"@ || word == "return"@ || word == "leave"@ || word == "continue"@
                || word == "break"@ || word == "lam"@ || word == "assembly"@ || word == "pragma"@
                || word == "true"@ || word == "false"@,
{
    let all = keywords();
    assert(all[0] == "contract"@ && all[1] == "import"@ && all[2] == "export"@ && all[3] == "as"@
        && all[4] == "let"@ && all[5] == "data"@ && all[6] == "class"@ && all[7] == "forall"@);
    assert(all[8] == "instance"@ && all[9] == "if"@ && all[10] == "else"@ && all[11] == "for"@
        && all[12] == "switch"@ && all[13] == "type"@ && all[14] == "case"@ && all[15]
        == "default"@);
    assert(all[16] == "match"@ && all[17] == "public"@ && all[18] == "payable"@ && all[19]
        == "function"@ && all[20] == "constructor"@ && all[21] == "fallback"@ && all[22]
        == "return"@ && all[23] == "leave"@);
    assert(all[24] == "continue"@ && all[25] == "break"@ && all[26] == "lam"@ && all[27]
        == "assembly"@ && all[28] == "pragma"@ && all[29] == "true"@ && all[30] == "false"@);
}

proof fn lemma_keyword_items(item: CompletionParts)
    ensures
        keyword_items().contains(item) <==> keywords().contains(item.label) && item.kind
            == CompletionItemKind::Keyword && item.detail == "keyword"@,
{
    let f = |word: Seq<char>| Some(keyword_item(word));
    law_filter_map(keywords(), f);
    assert(keyword_items() == filter_map(keywords(), f));
    if keyword_items().contains(item) {
        let k = choose|k: int| 0 <= k < keywords().len() && f(#[trigger] keywords()[k]) == Some(item);
        assert(item == keyword_item(keywords()[k]));
        assert(keywords().contains(keywords()[k]));
    }
    if keywords().contains(item.label) && item.kind == CompletionItemKind::Keyword && item.detail
        == "keyword"@ {
        let k = choose|k: int| 0 <= k < keywords().len() && keywords()[k] == item.label;
        assert(item == keyword_item(keywords()[k]));
        assert(f(keywords()[k]) == Some(item));
    }
}

/// Whether an item offers a parameter of a function.
pub open spec fn is_param_item(param: FuncParam, item: CompletionParts) -> bool {
    item.kind == CompletionItemKind::Variable && item.detail == "parameter"@ && match param {
        FuncParam::Typed { name, .. } => item.label == name.text@,
        FuncParam::Untyped { name, .. } => item.label == name.text@,
        FuncParam::Error { .. } => false,
    }
}

/// Whether an item offers one of some type variables.
pub open spec fn is_type_var_item(names: Seq<Name>, item: CompletionParts) -> bool {
    item.kind == CompletionItemKind::TypeParameter && item.detail == "type parameter"@ && exists|
        k: int,
    |
        0 <= k < names.len() && (#[trigger] names[k]).text@ == item.label
}

/// Whether an item offers a member of a contract: a function, a type or a field.
pub open spec fn is_contract_item(scope: ContractScope, item: CompletionParts) -> bool {
    (exists|entry: ScopeEntry|
        (scope.terms@.contains(entry) || scope.types@.contains(entry)) && item.label == entry.name@
            && #[trigger] is_shown_as(entry.resolution, item.kind, item.detail)) || (item.kind
        == CompletionItemKind::Field && item.detail == "field"@ && exists|k: int|
        0 <= k < scope.fields@.len() && (#[trigger] scope.fields@[k]).name@ == item.label)
}

/// Whether an item offers a local name that is bound before an offset.
pub open spec fn is_bound_before(name: Name, file: u32, offset: u32, item: CompletionParts) -> bool {
    name.span.file == file && name.span.end <= offset && item.label == name.text@ && item.kind
        == CompletionItemKind::Variable && item.detail == "local"@
}

/// Whether an item offers a name that a `let` statement or a pattern of a function binds.
pub open spec fn is_local_item(
    facts: SourceFacts,
    found: BodyFacts,
    offset: u32,
    item: CompletionParts,
) -> bool {
    (exists|k: int|
        0 <= k < found.map.stmt_bindings@.len() && is_let_item(
            facts,
            #[trigger] found.map.stmt_bindings@[k],
            offset,
            item,
        )) || (exists|k: int|
        0 <= k < found.map.pats@.len() && is_pattern_item(
            facts,
            #[trigger] found.map.pats@[k],
            offset,
            item,
        ))
}

pub open spec fn is_let_item(
    facts: SourceFacts,
    entry: StmtEntry,
    offset: u32,
    item: CompletionParts,
) -> bool {
    entry.resolution matches Resolution::Local(LocalBinding::Let { .. }) && (stmt_of(
        facts.module,
        entry.body,
        entry.stmt,
    ) matches Some(stmt) && (stmt.kind matches StmtKind::Let { name, .. } && is_bound_before(
        name,
        facts.file,
        offset,
        item,
    )))
}

pub open spec fn is_pattern_item(
    facts: SourceFacts,
    entry: PatEntry,
    offset: u32,
    item: CompletionParts,
) -> bool {
    entry.resolution matches Resolution::Local(LocalBinding::Pattern { .. }) && (pat_of(
        facts.module,
        entry.body,
        entry.pat,
    ) matches Some(pat) && (pat.kind matches PatKind::Var { name } && is_bound_before(
        name,
        facts.file,
        offset,
        item,
    )))
}

/// Whether an item offers a name that is known inside of a function: a parameter, a type
/// variable, a member of the contract around it, or a name that is bound before the offset.
pub open spec fn is_inner_item(
    facts: SourceFacts,
    owner: FunctionAtOffset<'_>,
    offset: u32,
    item: CompletionParts,
) -> bool {
    ||| exists|k: int|
        0 <= k < owner.function.sig.params@.len() && is_param_item(
            #[trigger] owner.function.sig.params@[k],
            item,
        )
    ||| is_type_var_item(owner.function.sig.type_vars@, item)
    ||| (owner.inherited_type_vars matches Some((_, names)) && is_type_var_item(names@, item))
    ||| (scope_of_contract(facts.scope, owner.enclosing_contract) matches Some(scope)
        && is_contract_item(scope, item))
    ||| (map_of(facts, owner.root_body.id) matches Some(found) && is_local_item(
        facts,
        found,
        offset,
        item,
    ))
}

/// Whether an item offers a name that is known at an offset.
pub open spec fn is_known_item(facts: SourceFacts, offset: u32, item: CompletionParts) -> bool {
    ||| keywords().contains(item.label) && item.kind == CompletionItemKind::Keyword && item.detail
        == "keyword"@
    ||| exists|entry: ScopeEntry| #[trigger]
        in_scope(facts.scope, entry) && item.label == entry.name@ && is_shown_as(
            entry.resolution,
            item.kind,
            item.detail,
        )
    ||| exists|imported: ImportedName| #[trigger]
        is_imported(facts.env, imported) && item.label == imported.name@ && is_import_shown_as(
            imported,
            item.kind,
            item.detail,
        )
    ||| (owner_at(&facts.module, facts.file, offset) matches Some(owner) && is_inner_item(
        facts,
        owner,
        offset,
        item,
    ))
}

proof fn lemma_type_var_items(names: Seq<Name>, item: CompletionParts)
    ensures
        type_var_items(names).contains(item) <==> is_type_var_item(names, item),
{
    let f = |name: Name| type_var_item(name);
    law_filter_map(names, f);
    if type_var_items(names).contains(item) {
        let k = choose|k: int| 0 <= k < names.len() && f(#[trigger] names[k]) == Some(item);
        assert(names[k].text@ == item.label);
    }
    if is_type_var_item(names, item) {
        let k = choose|k: int| 0 <= k < names.len() && (#[trigger] names[k]).text@ == item.label;
        assert(f(names[k]) == Some(item));
    }
}

proof fn lemma_contract_items(scope: ContractScope, item: CompletionParts)
    ensures
        contract_items(Some(scope)).contains(item) <==> is_contract_item(scope, item),
{
    let f = |field: FieldEntry| field_item(field);
    let terms = entry_items(scope.terms@);
    let types = entry_items(scope.types@);
    let fields = filter_map(scope.fields@, f);
    law_filter_map(scope.fields@, f);
    law_joined(terms, types);
    law_joined(terms + types, fields);
    lemma_entry_items(scope.terms@, item);
    lemma_entry_items(scope.types@, item);
    assert(contract_items(Some(scope)) == terms + types + fields);
    if fields.contains(item) {
        let k = choose|k: int| 0 <= k < scope.fields@.len() && f(#[trigger] scope.fields@[k]) == Some(item);
        assert(scope.fields@[k].name@ == item.label);
    }
    if terms.contains(item) || types.contains(item) {
        let entries = if terms.contains(item) {
            scope.terms@
        } else {
            scope.types@
        };
        let k = choose|k: int|
            0 <= k < entries.len() && item.label == (#[trigger] entries[k]).name@ && is_shown_as(
                entries[k].resolution,
                item.kind,
                item.detail,
            );
        assert(entries.contains(entries[k]));
    }
    if is_contract_item(scope, item) {
        if item.kind == CompletionItemKind::Field && item.detail == "field"@ && exists|k: int|
            0 <= k < scope.fields@.len() && (#[trigger] scope.fields@[k]).name@ == item.label {
            let k = choose|k: int|
                0 <= k < scope.fields@.len() && (#[trigger] scope.fields@[k]).name@ == item.label;
            assert(f(scope.fields@[k]) == Some(item));
        } else {
            let entry = choose|entry: ScopeEntry|
                (scope.terms@.contains(entry) || scope.types@.contains(entry)) && item.label
                    == entry.name@ && #[trigger] is_shown_as(
                    entry.resolution,
                    item.kind,
                    item.detail,
                );
            let entries = if scope.terms@.contains(entry) {
                scope.terms@
            } else {
                scope.types@
            };
            let k = choose|k: int| 0 <= k < entries.len() && entries[k] == entry;
            assert(item.label == entries[k].name@);
        }
    }
}

proof fn lemma_local_items(
    facts: SourceFacts,
    found: BodyFacts,
    offset: u32,
    item: CompletionParts,
)
    ensures
        local_items(facts, Some(found), offset).contains(item) <==> is_local_item(
            facts,
            found,
            offset,
            item,
        ),
{
    let lets = found.map.stmt_bindings@;
    let pats = found.map.pats@;
    let f = |entry: StmtEntry| let_item(facts.module, entry, facts.file, offset);
    let g = |entry: PatEntry| pattern_item(facts.module, entry, facts.file, offset);
    law_filter_map(lets, f);
    law_filter_map(pats, g);
    law_joined(filter_map(lets, f), filter_map(pats, g));
    assert(local_items(facts, Some(found), offset) == filter_map(lets, f) + filter_map(pats, g));
    assert forall|k: int| 0 <= k < lets.len() implies (f(#[trigger] lets[k]) == Some(item)
        <==> is_let_item(facts, lets[k], offset, item)) by {}
    assert forall|k: int| 0 <= k < pats.len() implies (g(#[trigger] pats[k]) == Some(item)
        <==> is_pattern_item(facts, pats[k], offset, item)) by {}
    if filter_map(lets, f).contains(item) {
        let k = choose|k: int| 0 <= k < lets.len() && f(#[trigger] lets[k]) == Some(item);
        assert(is_let_item(facts, lets[k], offset, item));
    }
    if filter_map(pats, g).contains(item) {
        let k = choose|k: int| 0 <= k < pats.len() && g(#[trigger] pats[k]) == Some(item);
        assert(is_pattern_item(facts, pats[k], offset, item));
    }
    if exists|k: int| 0 <= k < lets.len() && is_let_item(facts, #[trigger] lets[k], offset, item) {
        let k = choose|k: int|
            0 <= k < lets.len() && is_let_item(facts, #[trigger] lets[k], offset, item);
        assert(f(lets[k]) == Some(item));
    }
    if exists|k: int| 0 <= k < pats.len() && is_pattern_item(facts, #[trigger] pats[k], offset, item) {
        let k = choose|k: int|
            0 <= k < pats.len() && is_pattern_item(facts, #[trigger] pats[k], offset, item);
        assert(g(pats[k]) == Some(item));
    }
}

proof fn lemma_body_items(
    facts: SourceFacts,
    owner: FunctionAtOffset<'_>,
    offset: u32,
    item: CompletionParts,
)
    ensures
        body_items(facts, owner, offset).contains(item) <==> is_inner_item(
            facts,
            owner,
            offset,
            item,
        ),
{
    let f = |param: FuncParam| param_item(param);
    let all = owner.function.sig.params@;
    let params = filter_map(all, f);
    let inherited = inherited_items(owner.inherited_type_vars);
    let own = type_var_items(owner.function.sig.type_vars@);
    let members = contract_items(scope_of_contract(facts.scope, owner.enclosing_contract));
    let locals = local_items(facts, map_of(facts, owner.root_body.id), offset);
    law_filter_map(all, f);
    law_joined(params, inherited);
    law_joined(params + inherited, own);
    law_joined(params + inherited + own, members);
    law_joined(params + inherited + own + members, locals);
    assert(body_items(facts, owner, offset) == params + inherited + own + members + locals);
    if params.contains(item) {
        let k = choose|k: int| 0 <= k < all.len() && f(#[trigger] all[k]) == Some(item);
        assert(is_param_item(all[k], item));
    }
    if exists|k: int| 0 <= k < all.len() && is_param_item(#[trigger] all[k], item) {
        let k = choose|k: int| 0 <= k < all.len() && is_param_item(#[trigger] all[k], item);
        assert(f(all[k]) == Some(item));
    }
    lemma_type_var_items(owner.function.sig.type_vars@, item);
    match owner.inherited_type_vars {
        Some((_, names)) => lemma_type_var_items(names@, item),
        None => {},
    }
    match scope_of_contract(facts.scope, owner.enclosing_contract) {
        Some(scope) => lemma_contract_items(scope, item),
        None => {},
    }
    match map_of(facts, owner.root_body.id) {
        Some(found) => lemma_local_items(facts, found, offset, item),
        None => {},
    }
}

proof fn lemma_plain_items(facts: SourceFacts, offset: u32, item: CompletionParts)
    ensures
        plain_items(facts, offset).contains(item) <==> is_known_item(facts, offset, item),
{
    let words = keyword_items();
    let scope = scope_items(facts.scope);
    let imports = import_items(facts.env);
    lemma_keyword_items(item);
    lemma_scope_items(facts.scope, item);
    lemma_import_items(facts.env, item);
    law_joined(words, scope);
    law_joined(words + scope, imports);
    match owner_at(&facts.module, facts.file, offset) {
        Some(owner) => {
            law_joined(words + scope + imports, body_items(facts, owner, offset));
            lemma_body_items(facts, owner, offset, item);
        },
        None => {},
    }
}

/// Where no path is being written, each name that is known at the offset is offered, as the kind
/// of what it stands for: the reserved words, every term, type and module of the scope, every
/// import, and inside of a function its parameters, its type variables, the members of its
/// contract and the names bound before. Nothing else is offered.
pub proof fn law_known_names_offered(text: Seq<char>, facts: SourceFacts, offset: u32)
    requires
        path_context(text, offset) is None,
    ensures
        forall|item: CompletionParts| #[trigger]
            is_known_item(facts, offset, item) ==> offers(
                completions_in_file(text, facts, offset),
                item.label,
                item.kind,
            ),
        forall|item: CompletionParts| #[trigger]
            completions_in_file(text, facts, offset).contains(item) ==> is_known_item(
                facts,
                offset,
                item,
            ),
{
    let all = plain_items(facts, offset);
    let shown = completions_in_file(text, facts, offset);
    law_completions(all);
    assert forall|item: CompletionParts| #[trigger] is_known_item(facts, offset, item) implies offers(
        shown,
        item.label,
        item.kind,
    ) by {
        lemma_plain_items(facts, offset, item);
        let k = choose|k: int| 0 <= k < all.len() && all[k] == item;
        assert(has_completion(arranged(all), all[k]));
        let i = choose|i: int| 0 <= i < shown.len() && same_completion(#[trigger] shown[i], item);
        assert(shown[i].label == item.label);
    }
    assert forall|item: CompletionParts| #[trigger] shown.contains(item) implies is_known_item(
        facts,
        offset,
        item,
    ) by {
        let i = choose|i: int| 0 <= i < shown.len() && shown[i] == item;
        assert(all.contains(arranged(all)[i]));
        lemma_plain_items(facts, offset, item);
    }
}

/// Each term, each type and each module of the scope of a module is offered, under its name and as
/// the kind of what it stands for.
pub proof fn law_scope_offered(text: Seq<char>, facts: SourceFacts, offset: u32, entry: ScopeEntry)
    requires
        path_context(text, offset) is None,
        facts.scope.terms@.contains(entry) || facts.scope.types@.contains(entry)
            || facts.scope.modules@.contains(entry),
    ensures
        exists|kind: CompletionItemKind, detail: Seq<char>| #[trigger]
            is_shown_as(entry.resolution, kind, detail) && offers(
                completions_in_file(text, facts, offset),
                entry.name@,
                kind,
            ),
        forall|kind: CompletionItemKind, detail: Seq<char>| #[trigger]
            is_shown_as(entry.resolution, kind, detail) ==> offers(
                completions_in_file(text, facts, offset),
                entry.name@,
                kind,
            ),
{
    law_known_names_offered(text, facts, offset);
    assert forall|kind: CompletionItemKind, detail: Seq<char>| #[trigger]
        is_shown_as(entry.resolution, kind, detail) implies offers(
        completions_in_file(text, facts, offset),
        entry.name@,
        kind,
    ) by {
        let item = CompletionParts { label: entry.name@, kind, detail };
        assert(in_scope(facts.scope, entry));
        assert(is_known_item(facts, offset, item));
    }
    let kind = kind_of_resolution(entry.resolution);
    let detail = detail_of_resolution(entry.resolution);
    assert(is_shown_as(entry.resolution, kind, detail));
}

/// The scope that a contract's members are taken from is that of the contract: the first that is
/// recorded for it.
pub proof fn law_contract_scope(scope: ItemScopeFacts, contract: Option<DefId>)
    ensures
        contract is None ==> scope_of_contract(scope, contract) is None,
        scope_of_contract(scope, contract) matches Some(found) ==> scope.contracts@.contains(found)
            && Some(found.contract) == contract,
        contract matches Some(def) ==> forall|k: int|
            0 <= k < scope.contracts@.len() && (#[trigger] scope.contracts@[k]).contract == def
                ==> scope_of_contract(scope, contract) is Some,
{
    if contract is Some {
        let def = contract->0;
        law_find(scope.contracts@, |found: ContractScope| found.contract == contract->0);
        law_find(scope.contracts@, |contract: ContractScope| contract.contract == def);
    }
}

/// Whether a name is a member of a path that is being written: what is left of it behind the
/// path and its dot has no further dot and starts as was written.
pub open spec fn is_member(name: Seq<char>, context: ContextParts, label: Seq<char>) -> bool {
    name == context.qualifier + seq!['.'] + label && label.len() > 0 && !label.contains('.')
        && context.member_prefix.is_prefix_of(label)
}

proof fn lemma_member_of(name: Seq<char>, context: ContextParts, label: Seq<char>)
    ensures
        member_of(name, context) == Some(label) <==> is_member(name, context, label),
{
    let front = context.qualifier.push('.');
    let skipped = context.qualifier.len() as int + 1;
    assert(context.qualifier + seq!['.'] == front);
    if is_member(name, context, label) {
        assert(name.take(front.len() as int) == front);
        assert(name.skip(skipped) == label);
        assert(label.take(context.member_prefix.len() as int) == context.member_prefix);
    }
    if member_of(name, context) == Some(label) {
        assert(name.take(front.len() as int) == front);
        assert(name == name.take(skipped) + name.skip(skipped));
        assert(label.take(context.member_prefix.len() as int) == context.member_prefix);
        assert(context.member_prefix.is_prefix_of(label));
    }
}

proof fn lemma_entry_members(entries: Seq<ScopeEntry>, context: ContextParts, item: CompletionParts)
    ensures
        entry_members(entries, context).contains(item) <==> exists|k: int|
            0 <= k < entries.len() && is_member((#[trigger] entries[k]).name@, context, item.label)
                && is_shown_as(entries[k].resolution, item.kind, item.detail),
{
    let f = |entry: ScopeEntry| entry_member(entry, context);
    law_filter_map(entries, f);
    assert forall|k: int| 0 <= k < entries.len() implies (f(#[trigger] entries[k]) == Some(item) <==> (
    is_member(entries[k].name@, context, item.label) && is_shown_as(
        entries[k].resolution,
        item.kind,
        item.detail,
    ))) by {
        lemma_member_of(entries[k].name@, context, item.label);
    }
    if entry_members(entries, context).contains(item) {
        let k = choose|k: int| 0 <= k < entries.len() && f(#[trigger] entries[k]) == Some(item);
        assert(is_member(entries[k].name@, context, item.label));
    }
    if exists|k: int|
        0 <= k < entries.len() && is_member((#[trigger] entries[k]).name@, context, item.label)
            && is_shown_as(entries[k].resolution, item.kind, item.detail) {
        let k = choose|k: int|
            0 <= k < entries.len() && is_member((#[trigger] entries[k]).name@, context, item.label)
                && is_shown_as(entries[k].resolution, item.kind, item.detail);
        assert(f(entries[k]) == Some(item));
    }
}

proof fn lemma_imported_members(
    env: ModuleEnv,
    namespace: Namespace,
    context: ContextParts,
    item: CompletionParts,
)
    ensures
        imported_members(env, namespace, context).contains(item) <==> exists|k: int|
            0 <= k < env.names@.len() && (#[trigger] env.names@[k]).namespace == namespace
                && is_member(env.names@[k].name@, context, item.label) && is_import_shown_as(
                env.names@[k],
                item.kind,
                item.detail,
            ),
{
    let f = |imported: ImportedName| imported_member(imported, namespace, context);
    law_filter_map(env.names@, f);
    assert forall|k: int| 0 <= k < env.names@.len() implies (f(#[trigger] env.names@[k]) == Some(item)
        <==> (env.names@[k].namespace == namespace && is_member(
        env.names@[k].name@,
        context,
        item.label,
    ) && is_import_shown_as(env.names@[k], item.kind, item.detail))) by {
        lemma_member_of(env.names@[k].name@, context, item.label);
    }
    if imported_members(env, namespace, context).contains(item) {
        let k = choose|k: int| 0 <= k < env.names@.len() && f(#[trigger] env.names@[k]) == Some(item);
        assert(env.names@[k].namespace == namespace);
    }
    if exists|k: int|
        0 <= k < env.names@.len() && (#[trigger] env.names@[k]).namespace == namespace && is_member(
            env.names@[k].name@,
            context,
            item.label,
        ) && is_import_shown_as(env.names@[k], item.kind, item.detail) {
        let k = choose|k: int|
            0 <= k < env.names@.len() && (#[trigger] env.names@[k]).namespace == namespace
                && is_member(env.names@[k].name@, context, item.label) && is_import_shown_as(
                env.names@[k],
                item.kind,
                item.detail,
            );
        assert(f(env.names@[k]) == Some(item));
    }
}

/// Whether an item offers a member of a path: one of the scope, one of the contract around the
/// offset, or an imported one.
pub open spec fn is_member_item(
    facts: SourceFacts,
    contract: Option<DefId>,
    context: ContextParts,
    item: CompletionParts,
) -> bool {
    ||| exists|entry: ScopeEntry| #[trigger]
        in_scope(facts.scope, entry) && is_member(entry.name@, context, item.label) && is_shown_as(
            entry.resolution,
            item.kind,
            item.detail,
        )
    ||| exists|imported: ImportedName| #[trigger]
        is_imported(facts.env, imported) && is_member(imported.name@, context, item.label)
            && is_import_shown_as(imported, item.kind, item.detail)
    ||| (scope_of_contract(facts.scope, contract) matches Some(scope) && exists|entry: ScopeEntry|
        (scope.terms@.contains(entry) || scope.types@.contains(entry)) && #[trigger] is_member(
            entry.name@,
            context,
            item.label,
        ) && is_shown_as(entry.resolution, item.kind, item.detail))
}

proof fn lemma_members_in(
    entries: Seq<ScopeEntry>,
    context: ContextParts,
    item: CompletionParts,
    entry: ScopeEntry,
)
    requires
        entries.contains(entry),
        is_member(entry.name@, context, item.label),
        is_shown_as(entry.resolution, item.kind, item.detail),
    ensures
        entry_members(entries, context).contains(item),
{
    lemma_entry_members(entries, context, item);
    let k = choose|k: int| 0 <= k < entries.len() && entries[k] == entry;
    assert(is_member(entries[k].name@, context, item.label));
}

proof fn lemma_member_source(entries: Seq<ScopeEntry>, context: ContextParts, item: CompletionParts) -> (entry:
    ScopeEntry)
    requires
        entry_members(entries, context).contains(item),
    ensures
        entries.contains(entry),
        is_member(entry.name@, context, item.label),
        is_shown_as(entry.resolution, item.kind, item.detail),
{
    lemma_entry_members(entries, context, item);
    let k = choose|k: int|
        0 <= k < entries.len() && is_member((#[trigger] entries[k]).name@, context, item.label)
            && is_shown_as(entries[k].resolution, item.kind, item.detail);
    entries[k]
}

proof fn lemma_member_items(
    facts: SourceFacts,
    contract: Option<DefId>,
    context: ContextParts,
    item: CompletionParts,
)
    ensures
        member_items(facts.scope, contract, facts.env, context).contains(item) <==> is_member_item(
            facts,
            contract,
            context,
            item,
        ),
{
    let scope = facts.scope;
    let env = facts.env;
    let terms = entry_members(scope.terms@, context);
    let types = entry_members(scope.types@, context);
    let modules = entry_members(scope.modules@, context);
    let inner = match scope_of_contract(scope, contract) {
        Some(found) => entry_members(found.terms@, context) + entry_members(found.types@, context),
        None => Seq::empty(),
    };
    let a = imported_members(env, Namespace::Term, context);
    let b = imported_members(env, Namespace::Type, context);
    let c = imported_members(env, Namespace::Module, context);
    let all = member_items(scope, contract, env, context);
    law_joined(terms, types);
    law_joined(terms + types, modules);
    law_joined(terms + types + modules, inner);
    law_joined(terms + types + modules + inner, a);
    law_joined(terms + types + modules + inner + a, b);
    law_joined(terms + types + modules + inner + a + b, c);
    assert(all == terms + types + modules + inner + a + b + c);
    assert(all.contains(item) <==> terms.contains(item) || types.contains(item) || modules.contains(
        item,
    ) || inner.contains(item) || a.contains(item) || b.contains(item) || c.contains(item));
    lemma_imported_members(env, Namespace::Term, context, item);
    lemma_imported_members(env, Namespace::Type, context, item);
    lemma_imported_members(env, Namespace::Module, context, item);
    if terms.contains(item) || types.contains(item) || modules.contains(item) {
        let entries = if terms.contains(item) {
            scope.terms@
        } else if types.contains(item) {
            scope.types@
        } else {
            scope.modules@
        };
        let entry = lemma_member_source(entries, context, item);
        assert(in_scope(scope, entry));
    }
    if a.contains(item) || b.contains(item) || c.contains(item) {
        let namespace = if a.contains(item) {
            Namespace::Term
        } else if b.contains(item) {
            Namespace::Type
        } else {
            Namespace::Module
        };
        let k = choose|k: int|
            0 <= k < env.names@.len() && (#[trigger] env.names@[k]).namespace == namespace
                && is_member(env.names@[k].name@, context, item.label) && is_import_shown_as(
                env.names@[k],
                item.kind,
                item.detail,
            );
        assert(env.names@.contains(env.names@[k]));
        assert(is_imported(env, env.names@[k]));
    }
    match scope_of_contract(scope, contract) {
        Some(found) => {
            let first = entry_members(found.terms@, context);
            let second = entry_members(found.types@, context);
            law_joined(first, second);
            if inner.contains(item) {
                let entries = if first.contains(item) {
                    found.terms@
                } else {
                    found.types@
                };
                let entry = lemma_member_source(entries, context, item);
                assert(is_member(entry.name@, context, item.label));
            }
            if exists|entry: ScopeEntry|
                (found.terms@.contains(entry) || found.types@.contains(entry)) && #[trigger] is_member(
                    entry.name@,
                    context,
                    item.label,
                ) && is_shown_as(entry.resolution, item.kind, item.detail) {
                let entry = choose|entry: ScopeEntry|
                    (found.terms@.contains(entry) || found.types@.contains(entry))
                        && #[trigger] is_member(entry.name@, context, item.label) && is_shown_as(
                        entry.resolution,
                        item.kind,
                        item.detail,
                    );
                if found.terms@.contains(entry) {
                    lemma_members_in(found.terms@, context, item, entry);
                } else {
                    lemma_members_in(found.types@, context, item, entry);
                }
            }
        },
        None => {},
    }
    if exists|entry: ScopeEntry| #[trigger]
        in_scope(scope, entry) && is_member(entry.name@, context, item.label) && is_shown_as(
            entry.resolution,
            item.kind,
            item.detail,
        ) {
        let entry = choose|entry: ScopeEntry| #[trigger]
            in_scope(scope, entry) && is_member(entry.name@, context, item.label) && is_shown_as(
                entry.resolution,
                item.kind,
                item.detail,
            );
        if scope.terms@.contains(entry) {
            lemma_members_in(scope.terms@, context, item, entry);
        } else if scope.types@.contains(entry) {
            lemma_members_in(scope.types@, context, item, entry);
        } else {
            lemma_members_in(scope.modules@, context, item, entry);
        }
    }
    if exists|imported: ImportedName| #[trigger]
        is_imported(env, imported) && is_member(imported.name@, context, item.label)
            && is_import_shown_as(imported, item.kind, item.detail) {
        let imported = choose|imported: ImportedName| #[trigger]
            is_imported(env, imported) && is_member(imported.name@, context, item.label)
                && is_import_shown_as(imported, item.kind, item.detail);
        let k = choose|k: int| 0 <= k < env.names@.len() && env.names@[k] == imported;
        assert(env.names@[k].namespace == imported.namespace);
    }
}

/// Where a path is being written, the names behind it are offered, without the path: those of the
/// scope, of the contract around the offset and of the imports that start as was written. Nothing
/// else is offered.
pub proof fn law_members_offered(text: Seq<char>, facts: SourceFacts, offset: u32, context: ContextParts)
    requires
        path_context(text, offset) == Some(context),
    ensures
        forall|item: CompletionParts| #[trigger]
            is_member_item(facts, contract_around(facts, offset), context, item) ==> offers(
                completions_in_file(text, facts, offset),
                item.label,
                item.kind,
            ),
        forall|item: CompletionParts| #[trigger]
            completions_in_file(text, facts, offset).contains(item) ==> is_member_item(
                facts,
                contract_around(facts, offset),
                context,
                item,
            ),
{
    let contract = contract_around(facts, offset);
    let all = member_items(facts.scope, contract, facts.env, context);
    let shown = completions_in_file(text, facts, offset);
    law_completions(all);
    assert forall|item: CompletionParts| #[trigger]
        is_member_item(facts, contract, context, item) implies offers(
        shown,
        item.label,
        item.kind,
    ) by {
        lemma_member_items(facts, contract, context, item);
        let k = choose|k: int| 0 <= k < all.len() && all[k] == item;
        assert(has_completion(arranged(all), all[k]));
        let i = choose|i: int| 0 <= i < shown.len() && same_completion(#[trigger] shown[i], item);
        assert(shown[i].label == item.label);
    }
    assert forall|item: CompletionParts| #[trigger] shown.contains(item) implies is_member_item(
        facts,
        contract,
        context,
        item,
    ) by {
        let i = choose|i: int| 0 <= i < shown.len() && shown[i] == item;
        assert(all.contains(arranged(all)[i]));
        lemma_member_items(facts, contract, context, item);
    }
}

proof fn lemma_path_start(text: Seq<char>, k: int)
    requires
        0 <= k <= text.len(),
    ensures
        0 <= path_start(text, k) <= k,
        forall|i: int| path_start(text, k) <= i < k ==> path_char(#[trigger] text[i]),
        path_start(text, k) > 0 ==> !path_char(text[path_start(text, k) - 1]),
    decreases k,
{
    if 0 < k && path_char(text[k - 1]) {
        lemma_path_start(text, k - 1);
    }
}

proof fn lemma_last_dot(text: Seq<char>, start: int, k: int)
    requires
        0 <= start <= k <= text.len(),
    ensures
        last_dot(text, start, k) matches Some(dot) ==> start <= dot < k && text[dot] == '.'
            && forall|i: int| dot < i < k ==> #[trigger] text[i] != '.',
        last_dot(text, start, k) is None ==> forall|i: int|
            start <= i < k ==> #[trigger] text[i] != '.',
    decreases k,
{
    if start < k && text[k - 1] != '.' {
        lemma_last_dot(text, start, k - 1);
    }
}

/// The path that is being written is the text right before the offset, as far back as letters of
/// paths go: a path of names, a dot, and what is written of a name behind it, which holds no dot.
pub proof fn law_path_written(text: Seq<char>, k: int)
    requires
        0 <= k <= text.len(),
    ensures
        path_before(text, k) matches Some(context) ==> {
            let written = context.qualifier + seq!['.'] + context.member_prefix;
            &&& written.len() <= k
            &&& text.subrange(k - written.len(), k) == written
            &&& (written.len() == k || !path_char(text[k - written.len() - 1]))
            &&& forall|i: int| 0 <= i < written.len() ==> path_char(#[trigger] written[i])
            &&& context.qualifier.len() > 0
            &&& identifier_path(context.qualifier)
            &&& !context.member_prefix.contains('.')
            &&& context.member_prefix.len() == 0 || identifier(context.member_prefix)
        },
        path_before(text, k) is None ==> forall|qualifier: Seq<char>, member: Seq<char>|
            qualifier.len() > 0 && #[trigger] identifier_path(qualifier) && (member.len() == 0
                || identifier(member)) && !member.contains('.') ==> !#[trigger] is_written_before(
                text,
                k,
                qualifier + seq!['.'] + member,
            ),
{
    let start = path_start(text, k);
    lemma_path_start(text, k);
    lemma_last_dot(text, start, k);
    match path_before(text, k) {
        Some(context) => {
            let dot = last_dot(text, start, k)->0;
            let written = context.qualifier + seq!['.'] + context.member_prefix;
            assert(written == text.subrange(start, k));
            assert forall|i: int| 0 <= i < written.len() implies path_char(#[trigger] written[i]) by {
                assert(written[i] == text[start + i]);
            }
            if context.member_prefix.contains('.') {
                let i = choose|i: int|
                    0 <= i < context.member_prefix.len() && context.member_prefix[i] == '.';
                assert(text[dot + 1 + i] == '.');
            }
        },
        None => {
            assert forall|qualifier: Seq<char>, member: Seq<char>|
                qualifier.len() > 0 && #[trigger] identifier_path(qualifier) && (member.len() == 0
                    || identifier(member)) && !member.contains('.') implies !#[trigger] is_written_before(
            text, k, qualifier + seq!['.'] + member) by {
                let written = qualifier + seq!['.'] + member;
                if is_written_before(text, k, written) {
                    let from = k - written.len();
                    if start < from {
                        assert(path_char(text[from - 1]));
                    }
                    if from < start {
                        assert(path_char(written[start - 1 - from]));
                        assert(text.subrange(from, k)[start - 1 - from] == text[start - 1]);
                    }
                    let at = from + qualifier.len();
                    assert(text.subrange(from, k)[qualifier.len() as int] == '.');
                    assert(text[at as int] == '.');
                    let dot = last_dot(text, start, k)->0;
                    if at < dot {
                        assert(text.subrange(from, k)[dot - from] == text[dot]);
                        assert(member[dot - at - 1] == '.');
                        assert(member.contains('.'));
                    }
                    assert(dot == at);
                    assert(text.subrange(start, dot) == qualifier) by {
                        assert forall|i: int| 0 <= i < qualifier.len() implies text.subrange(
                            start,
                            dot,
                        )[i] == #[trigger] qualifier[i] by {
                            assert(text.subrange(from, k)[i] == written[i]);
                        }
                    }
                    assert(text.subrange(dot + 1, k) == member) by {
                        assert forall|i: int| 0 <= i < member.len() implies text.subrange(
                            dot + 1,
                            k,
                        )[i] == #[trigger] member[i] by {
                            assert(text.subrange(from, k)[qualifier.len() + 1 + i]
                                == written[qualifier.len() + 1 + i]);
                        }
                    }
                }
            }
        },
    }
}

/// Whether a text of letters of paths stands right before an index, and no such letter before it.
pub open spec fn is_written_before(text: Seq<char>, k: int, written: Seq<char>) -> bool {
    written.len() <= k && text.subrange(k - written.len(), k) == written && (written.len() == k
        || !path_char(text[k - written.len() - 1])) && forall|i: int|
        0 <= i < written.len() ==> path_char(#[trigger] written[i])
}

/// The contract around an offset that no expression is at is the first with a function whose body
/// holds the offset or ends at it.
pub proof fn law_contract_at(module: Module, file: u32, offset: u32)
    ensures
        contract_at(module, file, offset) matches Some(def) ==> exists|i: int|
            0 <= i < module.items@.len() && is_contract_around(
                #[trigger] module.items@[i],
                file,
                offset,
                def,
            ),
        contract_at(module, file, offset) is None ==> forall|i: int, def: DefId|
            0 <= i < module.items@.len() ==> !#[trigger] is_contract_around(
                module.items@[i],
                file,
                offset,
                def,
            ),
{
    let f = |item: Item| contract_with_body(item, file, offset);
    law_find_map(module.items@, f);
    if contract_at(module, file, offset) is Some {
        let i = lemma_find_source(module.items@, f);
        match module.items@[i] {
            Item::ContractDef(contract) => {
                let test = |item: ContractItem| body_at(item, file, offset);
                let k = choose|k: int|
                    0 <= k < contract.items@.len() && test(#[trigger] contract.items@[k]);
                assert(body_at(contract.items@[k], file, offset));
                assert(is_function_around(contract.items@[k], file, offset));
                assert(is_contract_around(module.items@[i], file, offset, contract.def));
            },
            _ => {},
        }
    } else {
        assert forall|i: int, def: DefId| 0 <= i < module.items@.len() implies !#[trigger] is_contract_around(
            module.items@[i],
            file,
            offset,
            def,
        ) by {
            assert(f(module.items@[i]) is None);
            match module.items@[i] {
                Item::ContractDef(contract) => {
                    let test = |item: ContractItem| body_at(item, file, offset);
                    if is_contract_around(module.items@[i], file, offset, def) {
                        let k = choose|k: int|
                            0 <= k < contract.items@.len() && is_function_around(
                                #[trigger] contract.items@[k],
                                file,
                                offset,
                            );
                        assert(test(contract.items@[k]));
                    }
                },
                _ => {},
            }
        }
    }
}

/// Whether a function of a contract has a body that holds an offset or ends at it.
pub open spec fn is_function_around(item: ContractItem, file: u32, offset: u32) -> bool {
    item matches ContractItem::FunctionDef(function) && (function.body matches Some(body)
        && body.span.file == file && body.span.start <= offset && offset <= body.span.end)
}

/// Whether an item is a contract with a number and such a function.
pub open spec fn is_contract_around(item: Item, file: u32, offset: u32, def: DefId) -> bool {
    item matches Item::ContractDef(contract) && contract.def == def && exists|k: int|
        0 <= k < contract.items@.len() && is_function_around(
            #[trigger] contract.items@[k],
            file,
            offset,
        )
}

/// Offered names come in the order of their texts, whether a path is being written or not.
pub proof fn law_offered_by_name(text: Seq<char>, facts: SourceFacts, offset: u32)
    ensures
        forall|i: int, j: int|
            0 <= i < j < completions_in_file(text, facts, offset).len() ==> !text_lt(
                (#[trigger] completions_in_file(text, facts, offset)[j]).label,
                (#[trigger] completions_in_file(text, facts, offset)[i]).label,
            ),
{
    let shown = completions_in_file(text, facts, offset);
    match path_context(text, offset) {
        Some(context) => law_completions(
            member_items(facts.scope, contract_around(facts, offset), facts.env, context),
        ),
        None => law_completions(plain_items(facts, offset)),
    }
    assert forall|i: int, j: int| 0 <= i < j < shown.len() implies !text_lt(
        (#[trigger] shown[j]).label,
        (#[trigger] shown[i]).label,
    ) by {
        assert(!CompletionItem::before(shown[j], shown[i]));
    }
}

} // verus!
