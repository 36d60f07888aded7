//! Hover support.
use vstd::prelude::*;
use vstd::utf8::is_char_boundary;

use crate::analysis::{
    body_resolution_map, element, expr_entry_at, facts_numbered, file_numbered, find_pat, find_stmt,
    get, known_text, locate_request, map_of, pat_of, requested, resolved_expr_at, stmt_of,
};
use crate::comments::{comments_markdown, documentation};
use crate::declarations::{find_method, method_of};
use crate::display::{
    adt_text, callable_text, comptime_prefix, display_pred_ref, display_ty, display_type_ref,
    format_adt_declaration, format_callable_scheme, format_source_function_signature,
    function_param_names, ident_names, name_texts, param_names, pred_ref_text, source_signature,
    start_text, ty_text, type_parameter_list, type_params_text, type_ref_text,
};
use crate::hir::{
    AdtDef, Analysis, BodyId, BodyTypes, BuiltinKind, ClassDef, ContractDef, ContractItem, DefId,
    ExportKind, Expr, ExprEntry, ExprKind, ExprType, FieldId, FuncBody, FuncKind, FuncParam, FunctionDef,
    InstanceDef, Item, LocalBinding, Module, Name, ParamId, PatKind, PatType, Resolution, SchemeFacts,
    SchemeKey, SourceFacts, Span, StmtKind, Ty, TyScheme, TypeAlias, TypeRef,
};
use crate::inlay_hints::{find_let_type, find_types, let_type, types_of};
use crate::line_index::{char_index, cut, lemma_cut, range_at, LineIndexExt};
use crate::protocol::{Position, Range};
use crate::references::{
    expr_name, expr_reference, ReferenceTarget, TargetParts,
};
use crate::rename::{
    find_module_alias, find_rename_target, module_alias, rename_target_in_file, RenameParts,
    RenameTarget,
};
use crate::resolve::{
    bodies_in, body_tree, contexts, derefs, function_contexts, function_owning_offset, innermost,
    innermost_expr, owner_at, FunctionAtOffset,
};
use crate::selection_range::{byte_offset, lemma_byte_offset, lemma_offsets_grow};
use crate::seqs::{
    find, find_map, first_seen, first_where, join, lemma_find_step, pointee, seen, views,
};
use crate::state::WorldState;
use crate::text::{alphanumeric, from_chars, str_eq, to_chars, utf8};
use crate::url::{text_of, Url};

verus! {

/// Whether a character can stand in an identifier.
pub open spec fn identifier_char(c: char) -> bool {
    alphanumeric(c) || c == '_' || c == '-'
}

pub fn is_identifier_char(c: char) -> (found: bool)
    ensures
        found == identifier_char(c),
{
    c.is_alphanumeric() || c == '_' || c == '-'
}

/// The first of the identifier characters that end at an index.
pub open spec fn run_start(text: Seq<char>, k: int) -> int
    decreases k,
{
    if 0 < k <= text.len() && identifier_char(text[k - 1]) {
        run_start(text, k - 1)
    } else {
        k
    }
}

/// The index behind the identifier characters that begin at an index.
pub open spec fn run_end(text: Seq<char>, k: int) -> int
    decreases text.len() - k,
{
    if 0 <= k < text.len() && identifier_char(text[k]) {
        run_end(text, k + 1)
    } else {
        k
    }
}

/// The bytes of the identifier at an offset or right before it.
pub open spec fn identifier_at(text: Seq<char>, offset: int) -> Option<(u32, u32)> {
    if offset > utf8(text).len() || !is_char_boundary(utf8(text), offset) {
        None
    } else {
        let k = char_index(text, offset);
        if (k < text.len() && identifier_char(text[k])) || (k > 0 && identifier_char(text[k - 1])) {
            Some(
                (
                    byte_offset(text, run_start(text, k)) as u32,
                    byte_offset(text, run_end(text, k)) as u32,
                ),
            )
        } else {
            None
        }
    }
}

/// Returns the bytes of the identifier at an offset or right before it.
pub fn identifier_range(text: &str, offset: u32) -> (range: Option<(u32, u32)>)
    ensures
        range == identifier_at(text@, offset as int),
{
    if offset as usize > text.as_bytes().len() || !text.is_char_boundary(offset as usize) {
        return None;
    }
    let (before, _, _) = cut(text, offset, offset);
    let chars = to_chars(text);
    let k: usize = to_chars(before).len();
    assert(k == char_index(text@, offset as int));
    if !(k < chars.len() && is_identifier_char(chars[k])) && !(k > 0 && is_identifier_char(
        chars[k - 1],
    )) {
        return None;
    }
    let mut start: usize = k;
    while start > 0 && is_identifier_char(chars[start - 1])
        invariant
            start <= k <= chars@.len(),
            run_start(chars@, start as int) == run_start(chars@, k as int),
        decreases start,
    {
        start -= 1;
    }
    let mut end: usize = k;
    while end < chars.len() && is_identifier_char(chars[end])
        invariant
            k <= end <= chars@.len(),
            run_end(chars@, end as int) == run_end(chars@, k as int),
        decreases chars@.len() - end,
    {
        end += 1;
    }
    let head = from_chars(chars.as_slice(), 0, start);
    let whole = from_chars(chars.as_slice(), 0, end);
    assert(head@ == text@.take(start as int));
    assert(whole@ == text@.take(end as int));
    Some((head.as_str().as_bytes().len() as u32, whole.as_str().as_bytes().len() as u32))
}

/// Whether some characters are a whole run of identifier characters.
pub open spec fn is_run(text: Seq<char>, first: int, last: int) -> bool {
    &&& 0 <= first < last <= text.len()
    &&& forall|k: int| first <= k < last ==> identifier_char(#[trigger] text[k])
    &&& first > 0 ==> !identifier_char(text[first - 1])
    &&& last < text.len() ==> !identifier_char(text[last])
}

proof fn lemma_run_start(text: Seq<char>, k: int)
    requires
        0 <= k <= text.len(),
    ensures
        0 <= run_start(text, k) <= k,
        forall|j: int| run_start(text, k) <= j < k ==> identifier_char(#[trigger] text[j]),
        run_start(text, k) > 0 ==> !identifier_char(text[run_start(text, k) - 1]),
    decreases k,
{
    if k > 0 && identifier_char(text[k - 1]) {
        lemma_run_start(text, k - 1);
    }
}

proof fn lemma_run_end(text: Seq<char>, k: int)
    requires
        0 <= k <= text.len(),
    ensures
        k <= run_end(text, k) <= text.len(),
        forall|j: int| k <= j < run_end(text, k) ==> identifier_char(#[trigger] text[j]),
        run_end(text, k) < text.len() ==> !identifier_char(text[run_end(text, k)]),
    decreases text.len() - k,
{
    if k < text.len() && identifier_char(text[k]) {
        lemma_run_end(text, k + 1);
    }
}

/// A run is found from each of its characters and from behind the last one.
proof fn lemma_run_found(text: Seq<char>, first: int, last: int, k: int)
    requires
        is_run(text, first, last),
        first <= k <= last,
    ensures
        run_start(text, k) == first,
        run_end(text, k) == last,
{
    lemma_run_start(text, k);
    lemma_run_end(text, k);
    let start = run_start(text, k);
    let end = run_end(text, k);
    if start < first {
        assert(identifier_char(text[first - 1]));
    } else if start > first {
        assert(identifier_char(text[start - 1]));
    }
    if end > last {
        assert(identifier_char(text[last]));
    } else if end < last {
        assert(identifier_char(text[end]));
    }
}

/// The identifier at an offset is a whole run of identifier characters around the offset, and all
/// offsets between its characters and at its ends get the same one.
pub proof fn law_identifier_at(text: Seq<char>, offset: int, other: int)
    requires
        utf8(text).len() <= u32::MAX,
        0 <= offset,
    ensures
        identifier_at(text, offset) matches Some((start, end)) ==> {
            &&& start <= offset <= end <= utf8(text).len()
            &&& is_char_boundary(utf8(text), start as int)
            &&& is_char_boundary(utf8(text), end as int)
            &&& is_run(text, char_index(text, start as int), char_index(text, end as int))
            &&& start <= other <= end && is_char_boundary(utf8(text), other) ==> identifier_at(
                text,
                other,
            ) == Some((start, end))
        },
{
    if let Some((start, end)) = identifier_at(text, offset) {
        let k = char_index(text, offset);
        let first = run_start(text, k);
        let last = run_end(text, k);
        lemma_cut(text, offset);
        lemma_offset_of(text, offset);
        lemma_run_start(text, k);
        lemma_run_end(text, k);
        lemma_byte_offset(text, first);
        lemma_byte_offset(text, last);
        lemma_offsets_grow(text, first, k);
        lemma_offsets_grow(text, k, last);
        assert(is_run(text, first, last));
        if start <= other <= end && is_char_boundary(utf8(text), other) {
            let m = char_index(text, other);
            lemma_cut(text, other);
            lemma_offset_of(text, other);
            if m < first {
                lemma_offsets_grow(text, m, first);
            } else if m > last {
                lemma_offsets_grow(text, last, m);
            }
            lemma_run_found(text, first, last, m);
            if m < last {
                assert(identifier_char(text[m]));
            } else {
                assert(identifier_char(text[m - 1]));
            }
        }
    }
}

/// An offset between two characters is that of the character behind it.
proof fn lemma_offset_of(text: Seq<char>, offset: int)
    requires
        0 <= offset <= utf8(text).len(),
        is_char_boundary(utf8(text), offset),
    ensures
        byte_offset(text, char_index(text, offset)) == offset,
{
    lemma_cut(text, offset);
}

/// The model of what has a type of its own.
pub enum KeyParts {
    Function(DefId),
    Ctor { ty: DefId, index: usize },
    Field(FieldId),
    Method { class: DefId, name: Seq<char> },
    Builtin(BuiltinKind),
}

impl View for SchemeKey {
    type V = KeyParts;

    open spec fn view(&self) -> KeyParts {
        match *self {
            SchemeKey::Function(def) => KeyParts::Function(def),
            SchemeKey::Ctor { ty, index } => KeyParts::Ctor { ty, index },
            SchemeKey::Field(field) => KeyParts::Field(field),
            SchemeKey::Method { class, name } => KeyParts::Method { class, name: name@ },
            SchemeKey::Builtin(kind) => KeyParts::Builtin(kind),
        }
    }
}

fn same_key(a: &SchemeKey, b: &SchemeKey) -> (same: bool)
    ensures
        same == (a@ == b@),
{
    match (a, b) {
        (SchemeKey::Function(a), SchemeKey::Function(b)) => *a == *b,
        (
            SchemeKey::Ctor { ty: a, index: i },
            SchemeKey::Ctor { ty: b, index: k },
        ) => *a == *b && *i == *k,
        (SchemeKey::Field(a), SchemeKey::Field(b)) => *a == *b,
        (
            SchemeKey::Method { class: a, name: n },
            SchemeKey::Method { class: b, name: m },
        ) => *a == *b && str_eq(n.as_str(), m.as_str()),
        (SchemeKey::Builtin(a), SchemeKey::Builtin(b)) => *a == *b,
        _ => false,
    }
}

/// The type of something.
pub open spec fn scheme_of(schemes: Seq<SchemeFacts>, key: KeyParts) -> Option<SchemeFacts> {
    find(schemes, |facts: SchemeFacts| facts.key@ == key)
}

pub fn find_scheme<'a>(schemes: &'a Vec<SchemeFacts>, key: &SchemeKey) -> (found: Option<
    &'a SchemeFacts,
>)
    ensures
        pointee(found) == scheme_of(schemes@, key@),
{
    let same = |facts: &SchemeFacts| -> (same: bool)
        ensures
            same == (facts.key@ == key@),
    {
        same_key(&facts.key, key)
    };
    first_where(schemes, same, Ghost(|facts: SchemeFacts| facts.key@ == key@))
}

/// The type of something that a module of the program declares.
pub open spec fn declared_scheme(schemes: Seq<SchemeFacts>, facts: SourceFacts, key: KeyParts) -> Option<
    SchemeFacts,
> {
    if facts.is_module {
        scheme_of(schemes, key)
    } else {
        None
    }
}

pub fn find_declared_scheme<'a>(
    schemes: &'a Vec<SchemeFacts>,
    facts: &SourceFacts,
    key: &SchemeKey,
) -> (found: Option<&'a SchemeFacts>)
    ensures
        pointee(found) == declared_scheme(schemes@, *facts, key@),
{
    if facts.is_module {
        find_scheme(schemes, key)
    } else {
        None
    }
}

/// A definition, and the names of the type variables that are in scope in it.
pub enum Definition<'a> {
    Function { function: &'a FunctionDef, names: Vec<String> },
    TypeAlias(&'a TypeAlias),
    Adt { adt: &'a AdtDef, names: Vec<String> },
    Class(&'a ClassDef),
    Instance(&'a InstanceDef),
    Contract(&'a ContractDef),
}

pub enum DefinitionParts {
    Function { function: FunctionDef, names: Seq<Seq<char>> },
    TypeAlias(TypeAlias),
    Adt { adt: AdtDef, names: Seq<Seq<char>> },
    Class(ClassDef),
    Instance(InstanceDef),
    Contract(ContractDef),
}

impl View for Definition<'_> {
    type V = DefinitionParts;

    open spec fn view(&self) -> DefinitionParts {
        match *self {
            Definition::Function { function, names } => DefinitionParts::Function {
                function: *function,
                names: views(names@),
            },
            Definition::TypeAlias(alias) => DefinitionParts::TypeAlias(*alias),
            Definition::Adt { adt, names } => DefinitionParts::Adt {
                adt: *adt,
                names: views(names@),
            },
            Definition::Class(class) => DefinitionParts::Class(*class),
            Definition::Instance(instance) => DefinitionParts::Instance(*instance),
            Definition::Contract(contract) => DefinitionParts::Contract(*contract),
        }
    }
}

/// The function with a definition, and the names of its type variables behind the inherited ones.
pub open spec fn function_definition(function: FunctionDef, def: DefId, inherited: Seq<Name>) -> Option<
    DefinitionParts,
> {
    if function.def == def {
        Some(
            DefinitionParts::Function {
                function,
                names: name_texts(inherited) + name_texts(function.sig.type_vars@),
            },
        )
    } else {
        None
    }
}

fn find_function_definition<'a>(function: &'a FunctionDef, def: DefId, inherited: &Vec<Name>) -> (found:
    Option<Definition<'a>>)
    ensures
        seen(found) == function_definition(*function, def, inherited@),
{
    if function.def == def {
        Some(
            Definition::Function {
                function,
                names: join(ident_names(inherited), ident_names(&function.sig.type_vars)),
            },
        )
    } else {
        None
    }
}

/// The definition that an item of a contract is.
pub open spec fn contract_item_definition(item: ContractItem, def: DefId, inherited: Seq<Name>) -> Option<
    DefinitionParts,
> {
    match item {
        ContractItem::FunctionDef(function) => function_definition(function, def, inherited),
        ContractItem::TypeAlias(alias) => if alias.def == def {
            Some(DefinitionParts::TypeAlias(alias))
        } else {
            None
        },
        ContractItem::AdtDef(adt) => if adt.def == def {
            Some(
                DefinitionParts::Adt {
                    adt,
                    names: name_texts(inherited) + name_texts(adt.params@),
                },
            )
        } else {
            None
        },
        ContractItem::Error { .. } => None,
    }
}

fn find_contract_item_definition<'a>(item: &'a ContractItem, def: DefId, inherited: &Vec<Name>) -> (found:
    Option<Definition<'a>>)
    ensures
        seen(found) == contract_item_definition(*item, def, inherited@),
{
    match item {
        ContractItem::FunctionDef(function) => find_function_definition(function, def, inherited),
        ContractItem::TypeAlias(alias) => if alias.def == def {
            Some(Definition::TypeAlias(alias))
        } else {
            None
        },
        ContractItem::AdtDef(adt) => if adt.def == def {
            Some(
                Definition::Adt {
                    adt,
                    names: join(ident_names(inherited), ident_names(&adt.params)),
                },
            )
        } else {
            None
        },
        ContractItem::Error { .. } => None,
    }
}

/// The definition that an item is or holds.
pub open spec fn item_definition(item: Item, def: DefId) -> Option<DefinitionParts> {
    match item {
        Item::FunctionDef(function) => function_definition(function, def, Seq::empty()),
        Item::TypeAlias(alias) => if alias.def == def {
            Some(DefinitionParts::TypeAlias(alias))
        } else {
            None
        },
        Item::AdtDef(adt) => if adt.def == def {
            Some(DefinitionParts::Adt { adt, names: name_texts(adt.params@) })
        } else {
            None
        },
        Item::ClassDef(class) => if class.def == def {
            Some(DefinitionParts::Class(class))
        } else {
            None
        },
        Item::InstanceDef(instance) => if instance.def == def {
            Some(DefinitionParts::Instance(instance))
        } else {
            find_map(
                instance.methods@,
                |method: FunctionDef| function_definition(method, def, instance.type_vars@),
            )
        },
        Item::ContractDef(contract) => if contract.def == def {
            Some(DefinitionParts::Contract(contract))
        } else {
            find_map(
                contract.items@,
                |inner: ContractItem| contract_item_definition(inner, def, contract.params@),
            )
        },
        _ => None,
    }
}

/// The definition of a module.
pub open spec fn definition_of(module: Module, def: DefId) -> Option<DefinitionParts> {
    find_map(module.items@, |item: Item| item_definition(item, def))
}

pub fn find_definition<'a>(module: &'a Module, def: DefId) -> (found: Option<Definition<'a>>)
    ensures
        seen(found) == definition_of(*module, def),
{
    let in_item = |item: &'a Item| -> (found: Option<Definition<'a>>)
        ensures
            seen(found) == item_definition(*item, def),
    {
        match item {
            Item::FunctionDef(function) => {
                let none: Vec<Name> = Vec::new();
                assert(none@ == Seq::<Name>::empty());
                find_function_definition(function, def, &none)
            },
            Item::TypeAlias(alias) => if alias.def == def {
                Some(Definition::TypeAlias(alias))
            } else {
                None
            },
            Item::AdtDef(adt) => if adt.def == def {
                Some(Definition::Adt { adt, names: ident_names(&adt.params) })
            } else {
                None
            },
            Item::ClassDef(class) => if class.def == def {
                Some(Definition::Class(class))
            } else {
                None
            },
            Item::InstanceDef(instance) => if instance.def == def {
                Some(Definition::Instance(instance))
            } else {
                let of_method = |method: &'a FunctionDef| -> (found: Option<Definition<'a>>)
                    ensures
                        seen(found) == function_definition(*method, def, instance.type_vars@),
                {
                    find_function_definition(method, def, &instance.type_vars)
                };
                first_seen(
                    &instance.methods,
                    of_method,
                    Ghost(
                        |method: FunctionDef|
                            function_definition(method, def, instance.type_vars@),
                    ),
                )
            },
            Item::ContractDef(contract) => if contract.def == def {
                Some(Definition::Contract(contract))
            } else {
                let of_inner = |inner: &'a ContractItem| -> (found: Option<Definition<'a>>)
                    ensures
                        seen(found) == contract_item_definition(*inner, def, contract.params@),
                {
                    find_contract_item_definition(inner, def, &contract.params)
                };
                first_seen(
                    &contract.items,
                    of_inner,
                    Ghost(
                        |inner: ContractItem|
                            contract_item_definition(inner, def, contract.params@),
                    ),
                )
            },
            _ => None,
        }
    };
    first_seen(&module.items, in_item, Ghost(|item: Item| item_definition(item, def)))
}

/// What is shown of a symbol: a line of code and its documentation.
pub struct HoverInfo {
    pub code: String,
    pub documentation: Option<String>,
}

pub struct InfoParts {
    pub code: Seq<char>,
    pub documentation: Option<Seq<char>>,
}

impl View for HoverInfo {
    type V = InfoParts;

    open spec fn view(&self) -> InfoParts {
        InfoParts { code: self.code@, documentation: text_of(self.documentation) }
    }
}

pub open spec fn func_keyword(kind: FuncKind) -> Seq<char> {
    match kind {
        FuncKind::Function => "function "@,
        FuncKind::Constructor => "constructor "@,
        FuncKind::Fallback => "fallback "@,
    }
}

/// What is shown of a function.
pub open spec fn function_info(
    schemes: Seq<SchemeFacts>,
    facts: SourceFacts,
    function: FunctionDef,
    names: Seq<Seq<char>>,
) -> InfoParts {
    InfoParts {
        code: func_keyword(function.kind) + match declared_scheme(
            schemes,
            facts,
            KeyParts::Function(function.def),
        ) {
            Some(found) => callable_text(
                function.sig.name.text@,
                param_names(function.sig.params@),
                names,
                found.scheme,
            ),
            None => source_signature(function.sig),
        },
        documentation: documentation(function.comments@),
    }
}

/// What is shown of a definition.
pub open spec fn definition_info(
    schemes: Seq<SchemeFacts>,
    facts: SourceFacts,
    definition: DefinitionParts,
) -> InfoParts {
    match definition {
        DefinitionParts::Function { function, names } => function_info(
            schemes,
            facts,
            function,
            names,
        ),
        DefinitionParts::TypeAlias(alias) => InfoParts {
            code: "type "@ + alias.name.text@ + type_params_text(alias.params@) + " = "@
                + type_ref_text(alias.ty),
            documentation: documentation(alias.comments@),
        },
        DefinitionParts::Adt { adt, .. } => InfoParts {
            code: adt_text(adt),
            documentation: documentation(adt.comments@),
        },
        DefinitionParts::Class(class) => InfoParts {
            code: "class "@ + pred_ref_text(class.head),
            documentation: documentation(class.comments@),
        },
        DefinitionParts::Instance(instance) => InfoParts {
            code: "instance "@ + pred_ref_text(instance.head),
            documentation: documentation(instance.comments@),
        },
        DefinitionParts::Contract(contract) => InfoParts {
            code: "contract "@ + contract.name.text@ + type_params_text(contract.params@),
            documentation: documentation(contract.comments@),
        },
    }
}

fn describe_function(
    schemes: &Vec<SchemeFacts>,
    facts: &SourceFacts,
    function: &FunctionDef,
    names: &Vec<String>,
) -> (info: HoverInfo)
    ensures
        info@ == function_info(schemes@, *facts, *function, views(names@)),
{
    let mut code = match function.kind {
        FuncKind::Function => "function ".to_owned(),
        FuncKind::Constructor => "constructor ".to_owned(),
        FuncKind::Fallback => "fallback ".to_owned(),
    };
    match find_declared_scheme(schemes, facts, &SchemeKey::Function(function.def)) {
        Some(found) => code.append(
            format_callable_scheme(
                function.sig.name.text.as_str(),
                &function_param_names(&function.sig.params),
                names,
                &found.scheme,
            ).as_str(),
        ),
        None => code.append(format_source_function_signature(&function.sig).as_str()),
    }
    HoverInfo { code, documentation: comments_markdown(&function.comments) }
}

fn describe_definition(
    schemes: &Vec<SchemeFacts>,
    facts: &SourceFacts,
    definition: &Definition<'_>,
) -> (info: HoverInfo)
    ensures
        info@ == definition_info(schemes@, *facts, definition@),
{
    match definition {
        Definition::Function { function, names } => describe_function(
            schemes,
            facts,
            function,
            names,
        ),
        Definition::TypeAlias(alias) => {
            let mut code = "type ".to_owned();
            code.append(alias.name.text.as_str());
            code.append(type_parameter_list(&alias.params).as_str());
            code.append(" = ");
            code.append(display_type_ref(&alias.ty).as_str());
            HoverInfo { code, documentation: comments_markdown(&alias.comments) }
        },
        Definition::Adt { adt, names: _ } => HoverInfo {
            code: format_adt_declaration(adt),
            documentation: comments_markdown(&adt.comments),
        },
        Definition::Class(class) => {
            let mut code = "class ".to_owned();
            code.append(display_pred_ref(&class.head).as_str());
            HoverInfo { code, documentation: comments_markdown(&class.comments) }
        },
        Definition::Instance(instance) => {
            let mut code = "instance ".to_owned();
            code.append(display_pred_ref(&instance.head).as_str());
            HoverInfo { code, documentation: comments_markdown(&instance.comments) }
        },
        Definition::Contract(contract) => {
            let mut code = "contract ".to_owned();
            code.append(contract.name.text.as_str());
            code.append(type_parameter_list(&contract.params).as_str());
            HoverInfo { code, documentation: comments_markdown(&contract.comments) }
        },
    }
}

/// The file of a definition and the definition.
pub open spec fn located_definition(files: Seq<SourceFacts>, def: DefId) -> Option<
    (SourceFacts, DefinitionParts),
> {
    match facts_numbered(files, def.file) {
        Some(facts) => match definition_of(facts.module, def) {
            Some(definition) => Some((facts, definition)),
            None => None,
        },
        None => None,
    }
}

fn locate_definition<'a>(files: &'a Vec<SourceFacts>, def: DefId) -> (found: Option<
    (&'a SourceFacts, Definition<'a>),
>)
    ensures
        match found {
            Some((facts, definition)) => located_definition(files@, def) == Some(
                (*facts, definition@),
            ),
            None => located_definition(files@, def) is None,
        },
{
    match file_numbered(files, def.file) {
        Some(facts) => match find_definition(&facts.module, def) {
            Some(definition) => Some((facts, definition)),
            None => None,
        },
        None => None,
    }
}

pub open spec fn def_info(analysis: Analysis, def: DefId) -> Option<InfoParts> {
    match located_definition(analysis.files@, def) {
        Some((facts, definition)) => Some(definition_info(analysis.schemes@, facts, definition)),
        None => None,
    }
}

fn definition_hover(analysis: &Analysis, def: DefId) -> (info: Option<HoverInfo>)
    ensures
        seen(info) == def_info(*analysis, def),
{
    match locate_definition(&analysis.files, def) {
        Some((facts, definition)) => Some(
            describe_definition(&analysis.schemes, facts, &definition),
        ),
        None => None,
    }
}

/// What is shown of a data constructor.
pub open spec fn ctor_info(analysis: Analysis, ty: DefId, index: usize) -> Option<InfoParts> {
    match located_definition(analysis.files@, ty) {
        Some((facts, DefinitionParts::Adt { adt, names })) => match (
            element(adt.ctors@, index),
            declared_scheme(analysis.schemes@, facts, KeyParts::Ctor { ty, index }),
        ) {
            (Some(ctor), Some(found)) => Some(
                InfoParts {
                    code: "constructor "@ + callable_text(
                        ctor.name.text@,
                        Seq::empty(),
                        names,
                        found.scheme,
                    ),
                    documentation: documentation(ctor.comments@),
                },
            ),
            _ => None,
        },
        _ => None,
    }
}

fn constructor_hover(analysis: &Analysis, ty: DefId, index: usize) -> (info: Option<HoverInfo>)
    ensures
        seen(info) == ctor_info(*analysis, ty, index),
{
    match locate_definition(&analysis.files, ty) {
        Some((facts, Definition::Adt { adt, names })) => {
            let ctor = match get(&adt.ctors, index) {
                Some(ctor) => ctor,
                None => return None,
            };
            let key = SchemeKey::Ctor { ty, index };
            let found = match find_declared_scheme(&analysis.schemes, facts, &key) {
                Some(found) => found,
                None => return None,
            };
            let none: Vec<String> = Vec::new();
            assert(views(none@) == Seq::<Seq<char>>::empty());
            let mut code = "constructor ".to_owned();
            code.append(
                format_callable_scheme(ctor.name.text.as_str(), &none, &names, &found.scheme).as_str(),
            );
            Some(HoverInfo { code, documentation: comments_markdown(&ctor.comments) })
        },
        _ => None,
    }
}

/// What is shown of a contract field.
pub open spec fn field_info(analysis: Analysis, field: FieldId) -> Option<InfoParts> {
    match located_definition(analysis.files@, field.contract) {
        Some((facts, DefinitionParts::Contract(contract))) => match (
            element(contract.fields@, field.index),
            declared_scheme(analysis.schemes@, facts, KeyParts::Field(field)),
        ) {
            (Some(declared), Some(found)) => Some(
                InfoParts {
                    code: declared.name.text@ + ": "@ + ty_text(
                        found.scheme.ty,
                        name_texts(contract.params@),
                    ),
                    documentation: documentation(declared.comments@),
                },
            ),
            _ => None,
        },
        _ => None,
    }
}

fn field_hover(analysis: &Analysis, field: FieldId) -> (info: Option<HoverInfo>)
    ensures
        seen(info) == field_info(*analysis, field),
{
    match locate_definition(&analysis.files, field.contract) {
        Some((facts, Definition::Contract(contract))) => {
            let declared = match get(&contract.fields, field.index) {
                Some(declared) => declared,
                None => return None,
            };
            let key = SchemeKey::Field(field);
            let found = match find_declared_scheme(&analysis.schemes, facts, &key) {
                Some(found) => found,
                None => return None,
            };
            let mut code = declared.name.text.clone();
            code.append(": ");
            code.append(display_ty(&found.scheme.ty, &ident_names(&contract.params)).as_str());
            Some(HoverInfo { code, documentation: comments_markdown(&declared.comments) })
        },
        _ => None,
    }
}

/// What is shown of a class method.
pub open spec fn method_info(analysis: Analysis, class: DefId, name: Seq<char>) -> Option<InfoParts> {
    match located_definition(analysis.files@, class) {
        Some((facts, DefinitionParts::Class(declared))) => match (
            method_of(declared, name),
            declared_scheme(analysis.schemes@, facts, KeyParts::Method { class, name }),
        ) {
            (Some(method), Some(found)) => Some(
                InfoParts {
                    code: "function "@ + callable_text(
                        name,
                        param_names(method.sig.params@),
                        name_texts(declared.type_vars@),
                        found.scheme,
                    ),
                    documentation: documentation(method.comments@),
                },
            ),
            _ => None,
        },
        _ => None,
    }
}

fn class_method_hover(analysis: &Analysis, class: DefId, name: &str) -> (info: Option<HoverInfo>)
    ensures
        seen(info) == method_info(*analysis, class, name@),
{
    match locate_definition(&analysis.files, class) {
        Some((facts, Definition::Class(declared))) => {
            let method = match find_method(declared, name) {
                Some(method) => method,
                None => return None,
            };
            let key = SchemeKey::Method { class, name: name.to_owned() };
            let found = match find_declared_scheme(&analysis.schemes, facts, &key) {
                Some(found) => found,
                None => return None,
            };
            let mut code = "function ".to_owned();
            code.append(
                format_callable_scheme(
                    name,
                    &function_param_names(&method.sig.params),
                    &ident_names(&declared.type_vars),
                    &found.scheme,
                ).as_str(),
            );
            Some(HoverInfo { code, documentation: comments_markdown(&method.comments) })
        },
        _ => None,
    }
}

/// Whether a body is one of the bodies of a function.
pub open spec fn tree_has(root: FuncBody, body: BodyId) -> bool {
    find(body_tree(root), |inner: FuncBody| inner.id == body) is Some
}

/// The function that a body belongs to.
pub open spec fn body_owner<'a>(module: &'a Module, body: BodyId) -> Option<FunctionAtOffset<'a>> {
    find(
        contexts(module, module.items@.len()),
        |context: FunctionAtOffset<'a>| tree_has(*context.root_body, body),
    )
}

fn body_tree_contains(root: &FuncBody, body: BodyId) -> (found: bool)
    ensures
        found == tree_has(*root, body),
{
    let bodies = bodies_in(root);
    let ghost all = derefs(bodies@);
    let ghost g = |inner: FuncBody|
        if (|inner: FuncBody| inner.id == body)(inner) {
            Some(inner)
        } else {
            None
        };
    let mut i: usize = 0;
    assert(all.take(0) == Seq::<FuncBody>::empty());
    while i < bodies.len()
        invariant
            i <= all.len(),
            all == derefs(bodies@),
            all == body_tree(*root),
            g == |inner: FuncBody|
                if (|inner: FuncBody| inner.id == body)(inner) {
                    Some(inner)
                } else {
                    None
                },
            find_map(all.take(i as int), g) is None,
        decreases all.len() - i,
    {
        proof {
            lemma_find_step(all, g, i as int);
        }
        if bodies[i].id == body {
            return true;
        }
        i += 1;
    }
    assert(all.take(i as int) == all);
    false
}

fn function_owner_for_body<'a>(module: &'a Module, body: BodyId) -> (owner: Option<
    FunctionAtOffset<'a>,
>)
    ensures
        owner == body_owner(module, body),
{
    let functions = function_contexts(module);
    let has = |context: &FunctionAtOffset<'a>| -> (has: bool)
        ensures
            has == tree_has(*context.root_body, body),
    {
        body_tree_contains(context.root_body, body)
    };
    match first_where(
        &functions,
        has,
        Ghost(|context: FunctionAtOffset<'a>| tree_has(*context.root_body, body)),
    ) {
        Some(owner) => Some(*owner),
        None => None,
    }
}

/// The names of the type variables in scope in a function.
pub open spec fn type_var_names(context: FunctionAtOffset<'_>) -> Seq<Seq<char>> {
    match context.inherited_type_vars {
        Some((_, inherited)) => name_texts(inherited@) + name_texts(
            context.function.sig.type_vars@,
        ),
        None => name_texts(context.function.sig.type_vars@),
    }
}

fn find_type_var_names(context: &FunctionAtOffset<'_>) -> (names: Vec<String>)
    ensures
        views(names@) == type_var_names(*context),
{
    let own = ident_names(&context.function.sig.type_vars);
    match context.inherited_type_vars {
        Some((_, inherited)) => join(ident_names(inherited), own),
        None => own,
    }
}

pub open spec fn lambda_param(expr: Expr, body: BodyId, index: usize) -> Option<FuncParam> {
    match expr.kind {
        ExprKind::Lambda { params, body: inner } => if inner.id == body {
            element(params@, index)
        } else {
            None
        },
        _ => None,
    }
}

/// A parameter of a function, or of a lambda in it.
pub open spec fn param_of(context: FunctionAtOffset<'_>, param: ParamId) -> Option<FuncParam> {
    if context.root_body.id == param.body {
        element(context.function.sig.params@, param.index)
    } else {
        find_map(
            body_tree(*context.root_body),
            |body: FuncBody|
                find_map(body.exprs@, |expr: Expr| lambda_param(expr, param.body, param.index)),
        )
    }
}

fn lambda_param_in<'a>(body: &'a FuncBody, param: ParamId) -> (found: Option<&'a FuncParam>)
    ensures
        pointee(found) == find_map(
            body.exprs@,
            |expr: Expr| lambda_param(expr, param.body, param.index),
        ),
{
    let ghost all = body.exprs@;
    let ghost g = |expr: Expr| lambda_param(expr, param.body, param.index);
    let mut i: usize = 0;
    assert(all.take(0) == Seq::<Expr>::empty());
    while i < body.exprs.len()
        invariant
            i <= all.len(),
            all == body.exprs@,
            g == |expr: Expr| lambda_param(expr, param.body, param.index),
            find_map(all.take(i as int), g) is None,
        decreases all.len() - i,
    {
        proof {
            lemma_find_step(all, g, i as int);
        }
        if let ExprKind::Lambda { params, body: inner } = &body.exprs[i].kind {
            if inner.id == param.body {
                let found = get(params, param.index);
                if found.is_some() {
                    return found;
                }
            }
        }
        i += 1;
    }
    assert(all.take(i as int) == all);
    None
}

fn parameter_for_body<'a>(context: &FunctionAtOffset<'a>, param: ParamId) -> (found: Option<
    &'a FuncParam,
>)
    ensures
        pointee(found) == param_of(*context, param),
{
    if context.root_body.id == param.body {
        return get(&context.function.sig.params, param.index);
    }
    let bodies = bodies_in(context.root_body);
    let ghost all = derefs(bodies@);
    let ghost g = |body: FuncBody|
        find_map(body.exprs@, |expr: Expr| lambda_param(expr, param.body, param.index));
    let mut i: usize = 0;
    assert(all.take(0) == Seq::<FuncBody>::empty());
    while i < bodies.len()
        invariant
            i <= all.len(),
            all == derefs(bodies@),
            all == body_tree(*context.root_body),
            context.root_body.id != param.body,
            g == |body: FuncBody|
                find_map(body.exprs@, |expr: Expr| lambda_param(expr, param.body, param.index)),
            find_map(all.take(i as int), g) is None,
        decreases all.len() - i,
    {
        proof {
            lemma_find_step(all, g, i as int);
        }
        let found = lambda_param_in(bodies[i], param);
        if found.is_some() {
            return found;
        }
        i += 1;
    }
    assert(all.take(i as int) == all);
    None
}

pub open spec fn is_type_of_expr(entry: ExprType, body: BodyId, expr: usize) -> bool {
    entry.body == body && entry.expr == expr
}

/// The inferred type of an expression.
pub open spec fn expr_type(types: BodyTypes, body: BodyId, expr: usize) -> Option<Ty> {
    match find(types.exprs@, |entry: ExprType| is_type_of_expr(entry, body, expr)) {
        Some(entry) => Some(entry.ty),
        None => None,
    }
}

fn find_expr_type(types: &BodyTypes, body: BodyId, expr: usize) -> (ty: Option<&Ty>)
    ensures
        pointee(ty) == expr_type(*types, body, expr),
{
    let same = |entry: &ExprType| -> (same: bool)
        ensures
            same == is_type_of_expr(*entry, body, expr),
    {
        entry.body == body && entry.expr == expr
    };
    match first_where(
        &types.exprs,
        same,
        Ghost(|entry: ExprType| is_type_of_expr(entry, body, expr)),
    ) {
        Some(entry) => Some(&entry.ty),
        None => None,
    }
}

pub open spec fn is_type_of_pat(entry: PatType, body: BodyId, pat: usize) -> bool {
    entry.body == body && entry.pat == pat
}

/// The inferred type of a pattern.
pub open spec fn pat_type(types: BodyTypes, body: BodyId, pat: usize) -> Option<Ty> {
    match find(types.pats@, |entry: PatType| is_type_of_pat(entry, body, pat)) {
        Some(entry) => Some(entry.ty),
        None => None,
    }
}

fn find_pat_type(types: &BodyTypes, body: BodyId, pat: usize) -> (ty: Option<&Ty>)
    ensures
        pointee(ty) == pat_type(*types, body, pat),
{
    let same = |entry: &PatType| -> (same: bool)
        ensures
            same == is_type_of_pat(*entry, body, pat),
    {
        entry.body == body && entry.pat == pat
    };
    match first_where(
        &types.pats,
        same,
        Ghost(|entry: PatType| is_type_of_pat(entry, body, pat)),
    ) {
        Some(entry) => Some(&entry.ty),
        None => None,
    }
}

/// The inferred type of a parameter of the function itself.
pub open spec fn root_param_type(scheme: TyScheme, index: usize) -> Option<Ty> {
    match scheme.ty {
        Ty::Function { params, .. } => element(params@, index),
        _ => None,
    }
}

pub open spec fn param_use_type(types: BodyTypes, entry: ExprEntry, param: ParamId) -> Option<Ty> {
    match entry.resolution {
        Resolution::Param(found) => if found == param {
            expr_type(types, entry.body, entry.expr)
        } else {
            None
        },
        _ => None,
    }
}

/// The inferred type of a parameter: that of the function says it of its own, the first use of
/// it says it of one of a lambda.
pub open spec fn param_type(facts: SourceFacts, root: BodyId, param: ParamId) -> Option<Ty> {
    match types_of(facts, root) {
        Some(types) => if param.body == root {
            root_param_type(types.scheme, param.index)
        } else {
            match map_of(facts, root) {
                Some(found) => find_map(
                    found.map.exprs@,
                    |entry: ExprEntry| param_use_type(types, entry, param),
                ),
                None => None,
            }
        },
        None => None,
    }
}

fn find_param_type<'a>(facts: &'a SourceFacts, root: BodyId, param: ParamId) -> (ty: Option<&'a Ty>)
    ensures
        pointee(ty) == param_type(*facts, root, param),
{
    let types = match find_types(facts, root) {
        Some(types) => types,
        None => return None,
    };
    if param.body == root {
        return match &types.scheme.ty {
            Ty::Function { params, ret: _ } => get(params, param.index),
            _ => None,
        };
    }
    let found = match body_resolution_map(facts, root) {
        Some(found) => found,
        None => return None,
    };
    let entries = &found.map.exprs;
    let ghost all = entries@;
    let ghost g = |entry: ExprEntry| param_use_type(*types, entry, param);
    let mut i: usize = 0;
    assert(all.take(0) == Seq::<ExprEntry>::empty());
    while i < entries.len()
        invariant
            i <= all.len(),
            all == entries@,
            types_of(*facts, root) == Some(*types),
            map_of(*facts, root) == Some(*found),
            all == found.map.exprs@,
            param.body != root,
            g == |entry: ExprEntry| param_use_type(*types, entry, param),
            find_map(all.take(i as int), g) is None,
        decreases all.len() - i,
    {
        proof {
            lemma_find_step(all, g, i as int);
        }
        if let Resolution::Param(used) = &entries[i].resolution {
            if *used == param {
                let ty = find_expr_type(types, entries[i].body, entries[i].expr);
                if ty.is_some() {
                    return ty;
                }
            }
        }
        i += 1;
    }
    assert(all.take(i as int) == all);
    None
}

/// The text of an inferred type, else of the written one, else a placeholder.
pub open spec fn shown_type(inferred: Option<Ty>, written: Option<TypeRef>, names: Seq<Seq<char>>) -> Seq<
    char,
> {
    match inferred {
        Some(ty) => ty_text(ty, names),
        None => match written {
            Some(ty) => type_ref_text(ty),
            None => "_"@,
        },
    }
}

fn show_type(inferred: Option<&Ty>, written: Option<&TypeRef>, names: &Vec<String>) -> (text: String)
    ensures
        text@ == shown_type(pointee(inferred), pointee(written), views(names@)),
{
    match inferred {
        Some(ty) => display_ty(ty, names),
        None => match written {
            Some(ty) => display_type_ref(ty),
            None => "_".to_owned(),
        },
    }
}

/// What is shown of a parameter.
pub open spec fn param_info(facts: SourceFacts, param: ParamId) -> Option<InfoParts> {
    match body_owner(&facts.module, param.body) {
        Some(owner) => {
            let inferred = param_type(facts, owner.root_body.id, param);
            let names = type_var_names(owner);
            match param_of(owner, param) {
                Some(FuncParam::Typed { comptime, name, ty }) => Some(
                    InfoParts {
                        code: comptime_prefix(comptime) + name.text@ + ": "@ + shown_type(
                            inferred,
                            Some(ty),
                            names,
                        ),
                        documentation: None,
                    },
                ),
                Some(FuncParam::Untyped { comptime, name }) => Some(
                    InfoParts {
                        code: comptime_prefix(comptime) + name.text@ + ": "@ + shown_type(
                            inferred,
                            None,
                            names,
                        ),
                        documentation: None,
                    },
                ),
                _ => None,
            }
        },
        None => None,
    }
}

fn parameter_hover(facts: &SourceFacts, param: ParamId) -> (info: Option<HoverInfo>)
    ensures
        seen(info) == param_info(*facts, param),
{
    let owner = match function_owner_for_body(&facts.module, param.body) {
        Some(owner) => owner,
        None => return None,
    };
    let inferred = find_param_type(facts, owner.root_body.id, param);
    let names = find_type_var_names(&owner);
    let (comptime, name, written) = match parameter_for_body(&owner, param) {
        Some(FuncParam::Typed { comptime, name, ty }) => (*comptime, name, Some(ty)),
        Some(FuncParam::Untyped { comptime, name }) => (*comptime, name, None),
        _ => return None,
    };
    let mut code = start_text(comptime);
    code.append(name.text.as_str());
    code.append(": ");
    code.append(show_type(inferred, written, &names).as_str());
    Some(HoverInfo { code, documentation: None })
}

/// What is shown of a name that a `let` binds.
pub open spec fn let_info(facts: SourceFacts, body: BodyId, stmt: usize) -> Option<InfoParts> {
    match (body_owner(&facts.module, body), stmt_of(facts.module, body, stmt)) {
        (Some(owner), Some(found)) => match found.kind {
            StmtKind::Let { comptime, name, ty } => {
                let inferred = match types_of(facts, owner.root_body.id) {
                    Some(types) => match let_type(types, body, stmt) {
                        Some(entry) => Some(entry.ty),
                        None => None,
                    },
                    None => None,
                };
                Some(
                    InfoParts {
                        code: comptime_prefix(comptime) + "let "@ + name.text@ + ": "@
                            + shown_type(inferred, ty, type_var_names(owner)),
                        documentation: None,
                    },
                )
            },
            StmtKind::Other => None,
        },
        _ => None,
    }
}

fn let_hover(facts: &SourceFacts, body: BodyId, stmt: usize) -> (info: Option<HoverInfo>)
    ensures
        seen(info) == let_info(*facts, body, stmt),
{
    let owner = match function_owner_for_body(&facts.module, body) {
        Some(owner) => owner,
        None => return None,
    };
    let found = match find_stmt(&facts.module, body, stmt) {
        Some(found) => found,
        None => return None,
    };
    match &found.kind {
        StmtKind::Let { comptime, name, ty } => {
            let inferred = match find_types(facts, owner.root_body.id) {
                Some(types) => match find_let_type(types, body, stmt) {
                    Some(entry) => Some(&entry.ty),
                    None => None,
                },
                None => None,
            };
            let names = find_type_var_names(&owner);
            let mut code = start_text(*comptime);
            code.append("let ");
            code.append(name.text.as_str());
            code.append(": ");
            code.append(show_type(inferred, ty.as_ref(), &names).as_str());
            Some(HoverInfo { code, documentation: None })
        },
        StmtKind::Other => None,
    }
}

/// What is shown of a name that a pattern binds.
pub open spec fn pattern_info(facts: SourceFacts, body: BodyId, pat: usize) -> Option<InfoParts> {
    match (body_owner(&facts.module, body), pat_of(facts.module, body, pat)) {
        (Some(owner), Some(found)) => match found.kind {
            PatKind::Var { name } => {
                let inferred = match types_of(facts, owner.root_body.id) {
                    Some(types) => pat_type(types, body, pat),
                    None => None,
                };
                Some(
                    InfoParts {
                        code: name.text@ + ": "@ + shown_type(
                            inferred,
                            None,
                            type_var_names(owner),
                        ),
                        documentation: None,
                    },
                )
            },
            _ => None,
        },
        _ => None,
    }
}

fn pattern_hover(facts: &SourceFacts, body: BodyId, pat: usize) -> (info: Option<HoverInfo>)
    ensures
        seen(info) == pattern_info(*facts, body, pat),
{
    let owner = match function_owner_for_body(&facts.module, body) {
        Some(owner) => owner,
        None => return None,
    };
    let found = match find_pat(&facts.module, body, pat) {
        Some(found) => found,
        None => return None,
    };
    match &found.kind {
        PatKind::Var { name } => {
            let inferred = match find_types(facts, owner.root_body.id) {
                Some(types) => find_pat_type(types, body, pat),
                None => None,
            };
            let names = find_type_var_names(&owner);
            let mut code = name.text.clone();
            code.append(": ");
            code.append(show_type(inferred, None, &names).as_str());
            Some(HoverInfo { code, documentation: None })
        },
        _ => None,
    }
}

pub open spec fn type_var_info(name: Seq<char>) -> InfoParts {
    InfoParts { code: "type parameter "@ + name, documentation: None }
}

fn labelled(label: &str, name: &str) -> (info: HoverInfo)
    ensures
        info@ == (InfoParts { code: label@ + name@, documentation: None }),
{
    let mut code = label.to_owned();
    code.append(name);
    HoverInfo { code, documentation: None }
}

fn local_hover(facts: &SourceFacts, binding: &LocalBinding) -> (info: Option<HoverInfo>)
    ensures
        seen(info) == match *binding {
            LocalBinding::Let { body, stmt } => let_info(*facts, body, stmt),
            LocalBinding::Pattern { body, pat } => pattern_info(*facts, body, pat),
            LocalBinding::TypeVar { name, .. } => Some(type_var_info(name@)),
        },
{
    match binding {
        LocalBinding::Let { body, stmt } => let_hover(facts, *body, *stmt),
        LocalBinding::Pattern { body, pat } => pattern_hover(facts, *body, *pat),
        LocalBinding::TypeVar { owner: _, index: _, name } => Some(
            labelled("type parameter ", name.as_str()),
        ),
    }
}

/// What is shown of a symbol.
pub open spec fn target_info(analysis: Analysis, facts: SourceFacts, target: TargetParts) -> Option<
    InfoParts,
> {
    match target {
        TargetParts::Def(def) => def_info(analysis, def),
        TargetParts::Ctor { ty, index } => ctor_info(analysis, ty, index),
        TargetParts::Param(param) => param_info(facts, param),
        TargetParts::Let { body, stmt } => let_info(facts, body, stmt),
        TargetParts::Pattern { body, pat } => pattern_info(facts, body, pat),
        TargetParts::TypeVar { name, .. } => Some(type_var_info(name)),
        TargetParts::Field(field) => field_info(analysis, field),
        TargetParts::ClassMethod { class, name } => method_info(analysis, class, name),
    }
}

fn target_hover(analysis: &Analysis, facts: &SourceFacts, target: &ReferenceTarget) -> (info: Option<
    HoverInfo,
>)
    ensures
        seen(info) == target_info(*analysis, *facts, target@),
{
    match target {
        ReferenceTarget::Def(def) => definition_hover(analysis, *def),
        ReferenceTarget::Ctor { ty, index } => constructor_hover(analysis, *ty, *index),
        ReferenceTarget::Param(param) => parameter_hover(facts, *param),
        ReferenceTarget::Local(binding) => local_hover(facts, binding),
        ReferenceTarget::Field(field) => field_hover(analysis, *field),
        ReferenceTarget::ClassMethod { class, name } => class_method_hover(
            analysis,
            *class,
            name.as_str(),
        ),
    }
}

/// What is shown of a name that an import or an export gives to a module at a place.
pub open spec fn module_alias_info(item: Item, span: Span) -> Option<InfoParts> {
    if module_alias(item) == Some(span) {
        match item {
            Item::Import(import) => Some(
                InfoParts {
                    code: "import alias "@ + import.alias->0.text@,
                    documentation: None,
                },
            ),
            Item::Export(export) => Some(
                InfoParts {
                    code: "exported module alias "@ + export.kind->alias->0.text@,
                    documentation: None,
                },
            ),
            _ => None,
        }
    } else {
        None
    }
}

pub open spec fn given_module_info(files: Seq<SourceFacts>, span: Span) -> Option<InfoParts> {
    match facts_numbered(files, span.file) {
        Some(facts) => find_map(facts.module.items@, |item: Item| module_alias_info(item, span)),
        None => None,
    }
}

fn given_module_hover(files: &Vec<SourceFacts>, span: Span) -> (info: Option<HoverInfo>)
    ensures
        seen(info) == given_module_info(files@, span),
{
    let facts = match file_numbered(files, span.file) {
        Some(facts) => facts,
        None => return None,
    };
    let of_item = |item: &Item| -> (info: Option<HoverInfo>)
        ensures
            seen(info) == module_alias_info(*item, span),
    {
        match find_module_alias(item) {
            Some(found) => if found != span {
                None
            } else {
                match item {
                    Item::Import(import) => match &import.alias {
                        Some(alias) => Some(labelled("import alias ", alias.text.as_str())),
                        None => None,
                    },
                    Item::Export(export) => match &export.kind {
                        ExportKind::Module { alias: Some(alias) } => Some(
                            labelled("exported module alias ", alias.text.as_str()),
                        ),
                        _ => None,
                    },
                    _ => None,
                }
            },
            None => None,
        }
    };
    first_seen(&facts.module.items, of_item, Ghost(|item: Item| module_alias_info(item, span)))
}

/// What is shown of the name of a module at an offset.
pub open spec fn module_name_info(facts: SourceFacts, offset: u32) -> Option<InfoParts> {
    match expr_entry_at(facts, offset) {
        Some((expr, entry)) => match (expr_name(expr), entry.resolution) {
            (Some(spelled), Resolution::Module { name }) => if spelled.span.holds(
                facts.file,
                offset,
            ) {
                Some(InfoParts { code: "module "@ + name@, documentation: None })
            } else {
                None
            },
            _ => None,
        },
        None => None,
    }
}

fn module_name_hover(facts: &SourceFacts, offset: u32) -> (info: Option<HoverInfo>)
    ensures
        seen(info) == module_name_info(*facts, offset),
{
    match resolved_expr_at(facts, offset) {
        Some((expr, entry)) => match (expr_reference(expr), &entry.resolution) {
            (Some(spelled), Resolution::Module { name }) => if spelled.span.contains_offset(
                facts.file,
                offset,
            ) {
                Some(labelled("module ", name.as_str()))
            } else {
                None
            },
            _ => None,
        },
        None => None,
    }
}

/// What is shown of the name at an offset.
pub open spec fn name_info(analysis: Analysis, facts: SourceFacts, offset: u32) -> Option<InfoParts> {
    match rename_target_in_file(analysis.files@, facts, offset) {
        Some(RenameParts::Alias { text, .. }) => Some(
            InfoParts { code: "import alias "@ + text, documentation: None },
        ),
        Some(RenameParts::Module { span }) => given_module_info(analysis.files@, span),
        Some(RenameParts::Symbol(target)) => target_info(analysis, facts, target),
        None => module_name_info(facts, offset),
    }
}

fn semantic_hover_info(analysis: &Analysis, facts: &SourceFacts, offset: u32) -> (info: Option<
    HoverInfo,
>)
    ensures
        seen(info) == name_info(*analysis, *facts, offset),
{
    match find_rename_target(&analysis.files, facts, offset) {
        Some(RenameTarget::Alias { file: _, span: _, text, target: _ }) => Some(
            labelled("import alias ", text.as_str()),
        ),
        Some(RenameTarget::Module { span }) => given_module_hover(&analysis.files, span),
        Some(RenameTarget::Symbol(target)) => target_hover(analysis, facts, &target),
        None => module_name_hover(facts, offset),
    }
}

/// A hover: a line of code in the language, documentation, and the range that it is about.
pub struct Hover {
    pub code: String,
    pub documentation: Option<String>,
    pub range: Option<Range>,
}

pub struct HoverParts {
    pub info: InfoParts,
    pub range: Option<Range>,
}

impl View for Hover {
    type V = HoverParts;

    open spec fn view(&self) -> HoverParts {
        HoverParts {
            info: InfoParts { code: self.code@, documentation: text_of(self.documentation) },
            range: self.range,
        }
    }
}

/// The inferred type of the smallest expression at an offset, with its range.
pub open spec fn expr_hover(text: Seq<char>, facts: SourceFacts, offset: u32) -> Option<HoverParts> {
    match owner_at(&facts.module, facts.file, offset) {
        Some(owner) => match (
            types_of(facts, owner.root_body.id),
            innermost(*owner.root_body, facts.file, offset),
        ) {
            (Some(types), Some(at)) => {
                let body = body_tree(*owner.root_body)[at.body];
                match expr_type(types, body.id, at.expr as usize) {
                    Some(ty) => Some(
                        HoverParts {
                            info: InfoParts {
                                code: ty_text(ty, type_var_names(owner)),
                                documentation: None,
                            },
                            range: Some(
                                range_at(
                                    text,
                                    body.exprs@[at.expr].span.start as int,
                                    body.exprs@[at.expr].span.end as int,
                                ),
                            ),
                        },
                    ),
                    None => None,
                }
            },
            _ => None,
        },
        None => None,
    }
}

fn expression_hover(index: &LineIndexExt, facts: &SourceFacts, offset: u32) -> (hover: Option<Hover>)
    ensures
        seen(hover) == expr_hover(index@, *facts, offset),
{
    let owner = match function_owning_offset(&facts.module, facts.file, offset) {
        Some(owner) => owner,
        None => return None,
    };
    let types = match find_types(facts, owner.root_body.id) {
        Some(types) => types,
        None => return None,
    };
    let (body, expr) = match innermost_expr(owner.root_body, facts.file, offset) {
        Some(found) => found,
        None => return None,
    };
    let ty = match find_expr_type(types, body.id, expr) {
        Some(ty) => ty,
        None => return None,
    };
    let span = body.exprs[expr].span;
    Some(
        Hover {
            code: display_ty(ty, &find_type_var_names(&owner)),
            documentation: None,
            range: Some(index.range(span.start, span.end)),
        },
    )
}

/// The range of the identifier at an offset.
pub open spec fn name_range(text: Seq<char>, offset: u32) -> Option<Range> {
    match identifier_at(text, offset as int) {
        Some((start, end)) => Some(range_at(text, start as int, end as int)),
        None => None,
    }
}

/// The hover at an offset of a file: of the name there, else of the expression.
pub open spec fn hover_in_file(analysis: Analysis, text: Seq<char>, facts: SourceFacts, offset: u32) -> Option<
    HoverParts,
> {
    match name_info(analysis, facts, offset) {
        Some(info) => Some(HoverParts { info, range: name_range(text, offset) }),
        None => expr_hover(text, facts, offset),
    }
}

/// Computes hover information at a source position.
///
/// Named declarations and references are resolved through the same semantic identity as
/// references and rename. Expression inference remains the fallback for literals and other
/// non-name syntax.
pub fn handle_hover(world: &WorldState, analysis: &Analysis, uri: &Url, position: Position) -> (hover:
    Option<Hover>)
    ensures
        seen(hover) == match (
            requested(world@, analysis.files@, uri@, position),
            known_text(world@, uri@),
        ) {
            (Some((facts, offset)), Some(text)) => hover_in_file(*analysis, text, facts, offset),
            _ => None,
        },
{
    let (facts, offset) = match locate_request(world, &analysis.files, uri, position) {
        Some(found) => found,
        None => return None,
    };
    let index = match world.line_index(uri) {
        Some(index) => index,
        None => return None,
    };
    match semantic_hover_info(analysis, facts, offset) {
        Some(info) => {
            let range = match identifier_range(index.text(), offset) {
                Some((start, end)) => Some(index.range(start, end)),
                None => None,
            };
            Some(Hover { code: info.code, documentation: info.documentation, range })
        },
        None => expression_hover(index, facts, offset),
    }
}

} // verus!
