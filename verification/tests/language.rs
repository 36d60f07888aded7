//! Requests on programs.
//!
//! The programs are read by the small front end at the start of this file: it parses the part of
//! the language that the programs use, resolves their names and infers plain types.
use solcore_lsp::code_actions::{
    edits_by_document, handle_code_action, missing_import_for_diagnostic,
    suggestion_workspace_edit, CodeAction, CodeActionContext, MissingImport, ModuleFindings,
    RequestedDiagnostic, MAX_AUTO_IMPORT_CANDIDATES,
};
use solcore_lsp::completion::handle_completion;
use solcore_lsp::capabilities::{initialize_result, server_capabilities};
use solcore_lsp::definition::handle_definition;
use solcore_lsp::diag::{
    Applicability, ConstructorCandidates, DiagLabel, DiagRange, ImportCandidate, ImportCandidates,
    ImportNamespace, ModuleCandidates, NameCandidates, NameProblem, ReportedName, Severity,
    SourceDiagnostic, SuggestedEdit, Suggestion,
};
use solcore_lsp::diagnostics::{
    compute_diagnostics, diagnostics_entry, Diagnostic, DiagnosticCode, DiagnosticSeverity,
    DiagnosticsEntry,
};
use solcore_lsp::dispatch::{dispatch, Dispatch, Method};
use solcore_lsp::document_highlight::handle_document_highlight;
use solcore_lsp::files::{close_to_disk, initial_workspace_roots};
use solcore_lsp::folding::handle_folding_range;
use solcore_lsp::formatting::handle_formatting;
use solcore_lsp::hir::{
    AdtCtor, AdtDef, Analysis, BodyFacts, BodyId, BodyResolutionMap, BodyTypes, BuiltinKind,
    ClassDef, ClassMethod, ContractDef, ContractItem, ContractKind, ContractScope, CtorEntry,
    DefId, DefLocation, DefResolutionKind, Export, ExportKind, ExportedName, Expr, ExprEntry,
    ExprKind, ExprType, FieldDef, FieldEntry, FieldId, FuncBody, FuncKind, FuncParam, FuncSig,
    FunctionDef, Import, ImportSelector, ImportedName, InstanceDef, Item, ItemResolutionFacts,
    ItemScopeFacts, LetType, LocalBinding, Module, ModuleEnv, Name, NamedModule, Namespace,
    ParamId, ParsedFile, Pat, PatEntry, PatKind, PredEntry, PredRef, ResolvedModule, Resolution,
    SchemeFacts, SchemeKey, ScopeEntry, SelectedName, ShownReturn, SourceFacts, Span, Stmt,
    StmtEntry, StmtKind, Ty, TyScheme, TypeAlias, TypeEntry, TypeRef,
};
use solcore_lsp::hover::{handle_hover, Hover};
use solcore_lsp::import_edits::{
    insertion, plan_import_edit, plan_import_fix, plan_module_import_edit, plan_module_import_fix,
    plan_wildcard_import_edit, ImportEdit,
};
use solcore_lsp::inlay_hints::handle_inlay_hints;
use solcore_lsp::protocol::{
    CompletionItem, CompletionItemKind, DocumentEdits, DocumentHighlightKind, FoldingRangeKind,
    FormattingOptions, Location, Position, Range, SelectionRange, SymbolKind,
    TextDocumentContentChangeEvent,
};
use solcore_lsp::references::handle_references;
use solcore_lsp::rename::{handle_prepare_rename, handle_rename};
use solcore_lsp::selection_range::handle_selection_range;
use solcore_lsp::semantic_tokens::{
    declaration_bitset, handle_semantic_tokens_full, token_modifiers, token_type_index,
    token_types, SemanticToken, TokenKind,
};
use solcore_lsp::signature_help::{handle_signature_help, SignatureHelp};
use solcore_lsp::state::WorldState;
use solcore_lsp::symbols::{handle_document_symbol, Symbol};
use solcore_lsp::url::Url;
use solcore_lsp::workspace_symbols::{handle_workspace_symbol, SymbolInformation};

// ---------------------------------------------------------------------------------------------
// Tokens
// ---------------------------------------------------------------------------------------------

#[derive(Clone, Copy, PartialEq, Eq, Debug)]
enum TokKind {
    Word,
    Number,
    Text,
    Mark,
    End,
}

#[derive(Clone, Debug)]
struct Tok {
    kind: TokKind,
    text: String,
    start: u32,
    end: u32,
    comments: Vec<String>,
}

fn lex(source: &str) -> Vec<Tok> {
    let chars: Vec<(usize, char)> = source.char_indices().collect();
    let at = |k: usize| chars.get(k).map(|(_, c)| *c);
    let byte = |k: usize| chars.get(k).map_or(source.len(), |(i, _)| *i) as u32;
    let mut tokens = Vec::new();
    let mut comments: Vec<String> = Vec::new();
    let mut k = 0;
    while let Some(c) = at(k) {
        let first = k;
        if c.is_whitespace() {
            k += 1;
            continue;
        }
        if c == '/' && at(k + 1) == Some('/') {
            while at(k).is_some_and(|c| c != '\n') {
                k += 1;
            }
            comments.push(source[byte(first) as usize + 2..byte(k) as usize].to_owned());
            continue;
        }
        if c == '/' && at(k + 1) == Some('*') {
            let mut depth = 0;
            while at(k).is_some() {
                if at(k) == Some('/') && at(k + 1) == Some('*') {
                    depth += 1;
                    k += 2;
                } else if at(k) == Some('*') && at(k + 1) == Some('/') {
                    depth -= 1;
                    k += 2;
                    if depth == 0 {
                        break;
                    }
                } else {
                    k += 1;
                }
            }
            comments.push(source[byte(first) as usize + 2..byte(k) as usize].to_owned());
            continue;
        }
        let kind = if c.is_alphabetic() || c == '_' {
            while at(k).is_some_and(|c| c.is_alphanumeric() || c == '_')
                || (at(k) == Some('-') && at(k + 1).is_some_and(char::is_alphabetic))
            {
                k += 1;
            }
            TokKind::Word
        } else if c.is_ascii_digit() {
            while at(k).is_some_and(char::is_alphanumeric) {
                k += 1;
            }
            TokKind::Number
        } else if c == '"' {
            k += 1;
            while at(k).is_some_and(|c| c != '"') {
                k += 1;
            }
            k += 1;
            TokKind::Text
        } else {
            k += 1;
            if (c == '-' && at(k) == Some('>')) || (c == '=' && at(k) == Some('>')) {
                k += 1;
            }
            TokKind::Mark
        };
        tokens.push(Tok {
            kind,
            text: source[byte(first) as usize..byte(k) as usize].to_owned(),
            start: byte(first),
            end: byte(k),
            comments: std::mem::take(&mut comments),
        });
    }
    tokens.push(Tok {
        kind: TokKind::End,
        text: String::new(),
        start: source.len() as u32,
        end: source.len() as u32,
        comments,
    });
    tokens
}

// ---------------------------------------------------------------------------------------------
// Syntax
// ---------------------------------------------------------------------------------------------

#[derive(Clone, Debug)]
struct Nm {
    text: String,
    start: u32,
    end: u32,
}

#[derive(Clone, Debug)]
enum AstTy {
    Named { qualifier: Option<Nm>, name: Nm, args: Vec<AstTy> },
    Function { params: Vec<AstTy>, ret: Box<AstTy>, shown: String },
    Tuple(Vec<AstTy>),
}

#[derive(Clone, Debug)]
struct AstParam {
    comptime: bool,
    name: Nm,
    ty: Option<AstTy>,
}

#[derive(Clone, Debug)]
struct AstPred {
    start: u32,
    end: u32,
    ty: AstTy,
    class: Nm,
}

#[derive(Clone, Debug)]
enum AstExpr {
    Ident(Nm),
    DotCtor(Nm),
    Field { object: usize, name: Nm },
    Call { callee: usize, args: Vec<usize> },
    Lambda { params: Vec<AstParam>, body: Box<AstBody> },
    Number,
    Text,
    Other(Vec<usize>),
}

#[derive(Clone, Debug)]
enum AstPat {
    Var(Nm),
    Ctor { qualifiers: Vec<Nm>, name: Nm, args: Vec<usize> },
    Other,
}

#[derive(Clone, Debug)]
enum AstStmt {
    Let { stmt: usize, name: Nm, ty: Option<AstTy>, init: Option<usize> },
    Value(usize),
    Block(Vec<AstStmt>),
    Arms(Vec<(Vec<usize>, Vec<AstStmt>)>),
}

#[derive(Clone, Debug)]
struct AstBody {
    id: u32,
    start: u32,
    end: u32,
    exprs: Vec<(u32, u32, AstExpr)>,
    pats: Vec<(u32, u32, AstPat)>,
    lets: Vec<(u32, u32, Option<(Nm, Option<AstTy>)>)>,
    tree: Vec<AstStmt>,
}

#[derive(Clone, Debug)]
struct AstFunction {
    def: u32,
    kind: FuncKind,
    start: u32,
    end: u32,
    sig_start: u32,
    sig_end: u32,
    name: Nm,
    type_vars: Vec<Nm>,
    preds: Vec<AstPred>,
    params: Vec<AstParam>,
    ret: Option<AstTy>,
    body: Option<AstBody>,
    comments: Vec<String>,
}

#[derive(Clone, Debug)]
struct AstCtor {
    name: Nm,
    fields: Vec<AstTy>,
}

#[derive(Clone, Debug)]
enum AstKind {
    Function(AstFunction),
    Alias { name: Nm, ty: AstTy },
    Adt { name: Nm, ctors: Vec<AstCtor> },
    Class { head: AstPred, type_vars: Vec<Nm>, methods: Vec<AstFunction> },
    Instance { head: AstPred, type_vars: Vec<Nm>, methods: Vec<AstFunction> },
    Contract { kind: ContractKind, name: Nm, fields: Vec<(u32, u32, Nm, AstTy)>, items: Vec<AstItem> },
    Import(AstImport),
    Export(AstExport),
    Pragma,
    Broken,
}

#[derive(Clone, Debug)]
struct AstSelected {
    name: Nm,
    alias: Option<Nm>,
}

#[derive(Clone, Debug)]
struct AstImport {
    external: bool,
    path: Vec<Nm>,
    alias: Option<Nm>,
    wildcard: bool,
    names: Option<Vec<AstSelected>>,
    hiding: Vec<Nm>,
}

#[derive(Clone, Debug)]
enum AstExport {
    List(Vec<(Nm, Vec<Nm>)>),
    Module { path: Vec<Nm>, alias: Option<Nm> },
}

#[derive(Clone, Debug)]
struct AstItem {
    def: u32,
    start: u32,
    end: u32,
    comments: Vec<String>,
    kind: AstKind,
}

const WORDS: &[&str] = &[
    "contract", "import", "export", "as", "let", "data", "class", "forall", "instance", "if",
    "else", "for", "switch", "type", "case", "default", "match", "public", "payable", "function",
    "constructor", "fallback", "return", "leave", "continue", "break", "lam", "assembly", "pragma",
    "true", "false", "enum", "trait", "alias", "interface", "library", "returns", "where",
];

fn is_word(text: &str) -> bool {
    let mut chars = text.chars();
    chars.next().is_some_and(char::is_alphabetic)
        && chars.all(|c| c == '_' || c.is_alphanumeric())
        && !WORDS.contains(&text)
}

struct Parser {
    tokens: Vec<Tok>,
    at: usize,
    defs: u32,
    bodies: u32,
    clean: bool,
}

impl Parser {
    fn new(source: &str) -> Parser {
        Parser {
            tokens: lex(source),
            at: 0,
            defs: 0,
            bodies: 0,
            clean: true,
        }
    }

    fn peek(&self) -> &str {
        &self.tokens[self.at].text
    }

    fn peek_at(&self, ahead: usize) -> &str {
        self.tokens
            .get(self.at + ahead)
            .map_or("", |token| token.text.as_str())
    }

    fn kind(&self) -> TokKind {
        self.tokens[self.at].kind
    }

    fn start(&self) -> u32 {
        self.tokens[self.at].start
    }

    fn last_end(&self) -> u32 {
        if self.at == 0 {
            0
        } else {
            self.tokens[self.at - 1].end
        }
    }

    fn is(&self, text: &str) -> bool {
        self.kind() != TokKind::Text && self.peek() == text
    }

    fn next(&mut self) -> Tok {
        let token = self.tokens[self.at].clone();
        if self.at + 1 < self.tokens.len() {
            self.at += 1;
        } else {
            self.clean = false;
        }
        token
    }

    fn eat(&mut self, text: &str) -> bool {
        if self.is(text) {
            self.next();
            true
        } else {
            false
        }
    }

    fn expect(&mut self, text: &str) {
        if !self.eat(text) {
            self.clean = false;
        }
    }

    fn done(&self) -> bool {
        self.kind() == TokKind::End
    }

    fn name(&mut self) -> Nm {
        if self.is("(") {
            let start = self.start();
            let mut text = String::new();
            loop {
                let token = self.next();
                text.push_str(&token.text);
                if token.text == ")" || self.done() {
                    return Nm { text, start, end: token.end };
                }
            }
        }
        if self.kind() != TokKind::Word {
            self.clean = false;
        }
        let token = self.next();
        Nm {
            text: token.text,
            start: token.start,
            end: token.end,
        }
    }

    fn def(&mut self) -> u32 {
        self.defs += 1;
        self.defs
    }

    fn ty(&mut self) -> AstTy {
        if self.is("function") {
            let first = self.at;
            self.next();
            self.expect("(");
            let params = self.tys(")");
            let mut ret = AstTy::Tuple(Vec::new());
            while !self.done() && !self.is("returns") && !self.is(",") && !self.is(")") {
                self.next();
            }
            if self.eat("returns") {
                self.expect("(");
                ret = AstTy::Tuple(self.tys(")"));
            }
            let mut shown = String::new();
            for token in &self.tokens[first..self.at] {
                let tight = shown.is_empty() || shown.ends_with('(') || token.text == ")"
                    || (token.text == "(" && shown == "function");
                if !tight {
                    shown.push(' ');
                }
                shown.push_str(&token.text);
            }
            return AstTy::Function { params, ret: Box::new(ret), shown };
        }
        if self.eat("(") {
            return AstTy::Tuple(self.tys(")"));
        }
        let first = self.name();
        let (qualifier, name) = if self.is(".") {
            self.next();
            (Some(first), self.name())
        } else {
            (None, first)
        };
        let args = if self.eat("<") {
            self.tys(">")
        } else if self.is("(") && self.peek_at(1) != ")" {
            self.next();
            self.tys(")")
        } else {
            Vec::new()
        };
        AstTy::Named { qualifier, name, args }
    }

    fn tys(&mut self, close: &str) -> Vec<AstTy> {
        let mut tys = Vec::new();
        while !self.done() && !self.is(close) {
            tys.push(self.ty());
            if !self.eat(",") {
                break;
            }
        }
        self.expect(close);
        tys
    }

    fn params(&mut self) -> Vec<AstParam> {
        self.expect("(");
        let mut params = Vec::new();
        while !self.done() && !self.is(")") {
            let comptime = self.eat("comptime");
            let name = self.name();
            let ty = if self.eat(":") { Some(self.ty()) } else { None };
            params.push(AstParam { comptime, name, ty });
            if !self.eat(",") {
                break;
            }
        }
        self.expect(")");
        params
    }

    fn pred(&mut self) -> AstPred {
        let start = self.start();
        let ty = self.ty();
        self.expect(":");
        let class = self.name();
        AstPred { start, end: class.end, ty, class }
    }

    fn function(&mut self, start: u32, comments: Vec<String>, mut type_vars: Vec<Nm>, mut preds: Vec<AstPred>) -> AstFunction {
        let def = self.def();
        let sig_start = self.start();
        let token = self.next();
        let (kind, name) = match token.text.as_str() {
            "function" => (FuncKind::Function, self.name()),
            "constructor" => (
                FuncKind::Constructor,
                Nm { text: token.text, start: token.start, end: token.end },
            ),
            _ => (
                FuncKind::Fallback,
                Nm { text: token.text, start: token.start, end: token.end },
            ),
        };
        if self.eat("<") {
            while !self.done() && !self.eat(">") {
                let var = self.name();
                type_vars.push(var);
                self.eat(",");
            }
        }
        let params = self.params();
        let mut ret = None;
        while ["public", "payable", "external", "internal", "view", "pure"].contains(&self.peek()) {
            self.next();
        }
        if self.eat("->") {
            ret = Some(self.ty());
        } else if self.eat("returns") {
            self.expect("(");
            let mut tys = self.tys(")");
            ret = Some(if tys.len() == 1 { tys.remove(0) } else { AstTy::Tuple(tys) });
        }
        if self.eat("where") {
            loop {
                let pred = self.pred();
                preds.push(pred);
                if !self.eat(",") {
                    break;
                }
            }
        }
        let sig_end = self.last_end();
        let body = if self.is("{") {
            Some(self.body())
        } else {
            self.expect(";");
            None
        };
        AstFunction {
            def,
            kind,
            start,
            end: self.last_end(),
            sig_start,
            sig_end,
            name,
            type_vars,
            preds,
            params,
            ret,
            body,
            comments,
        }
    }

    fn body(&mut self) -> AstBody {
        self.bodies += 1;
        let mut body = AstBody {
            id: self.bodies,
            start: self.start(),
            end: 0,
            exprs: Vec::new(),
            pats: Vec::new(),
            lets: Vec::new(),
            tree: Vec::new(),
        };
        body.tree = self.block(&mut body);
        body.end = self.last_end();
        body
    }

    fn block(&mut self, body: &mut AstBody) -> Vec<AstStmt> {
        self.expect("{");
        let mut stmts = Vec::new();
        while !self.done() && !self.is("}") {
            let before = self.at;
            if let Some(stmt) = self.stmt(body) {
                stmts.push(stmt);
            }
            if self.at == before {
                self.clean = false;
                self.next();
            }
        }
        self.expect("}");
        stmts
    }

    fn stmt(&mut self, body: &mut AstBody) -> Option<AstStmt> {
        let start = self.start();
        if self.eat(";") {
            return None;
        }
        if self.is("{") {
            return Some(AstStmt::Block(self.block(body)));
        }
        if self.eat("let") {
            let name = self.name();
            let ty = if self.eat(":") { Some(self.ty()) } else { None };
            let init = if self.eat("=") { Some(self.expr(body)) } else { None };
            self.expect(";");
            let stmt = body.lets.len();
            body.lets.push((start, self.last_end(), Some((name.clone(), ty.clone()))));
            return Some(AstStmt::Let { stmt, name, ty, init });
        }
        if self.eat("assembly") {
            let mut depth = 0;
            loop {
                let token = self.next();
                if token.text == "{" {
                    depth += 1;
                } else if token.text == "}" {
                    depth -= 1;
                    if depth == 0 {
                        break;
                    }
                }
                if self.done() {
                    break;
                }
            }
            return None;
        }
        if self.eat("if") {
            self.expect("(");
            let condition = self.expr(body);
            self.expect(")");
            let mut parts = vec![AstStmt::Value(condition)];
            let block = self.block(body);
            parts.push(AstStmt::Block(block));
            if self.eat("else") {
                let block = self.block(body);
                parts.push(AstStmt::Block(block));
            }
            return Some(AstStmt::Block(parts));
        }
        if self.eat("match") {
            let value = self.expr(body);
            self.expect("{");
            let mut arms = Vec::new();
            while !self.done() && !self.is("}") {
                self.eat("|");
                let braced = self.is("case") || self.is("default");
                let pats = if self.eat("default") {
                    Vec::new()
                } else {
                    self.eat("case");
                    vec![self.pat(body)]
                };
                let mut stmts = Vec::new();
                if braced {
                    stmts.extend(self.stmt(body));
                    arms.push((pats, stmts));
                    continue;
                }
                self.expect("=>");
                while !self.done() && !self.is("|") && !self.is("}") {
                    if let Some(stmt) = self.stmt(body) {
                        stmts.push(stmt);
                    }
                }
                arms.push((pats, stmts));
            }
            self.expect("}");
            return Some(AstStmt::Block(vec![AstStmt::Value(value), AstStmt::Arms(arms)]));
        }
        self.eat("return");
        if self.eat(";") {
            return None;
        }
        let value = self.expr(body);
        self.expect(";");
        Some(AstStmt::Value(value))
    }

    fn pat(&mut self, body: &mut AstBody) -> usize {
        let start = self.start();
        let mut path = vec![self.name()];
        while self.eat(".") {
            let name = self.name();
            path.push(name);
        }
        let mut args = Vec::new();
        let mut called = false;
        if self.eat("(") {
            called = true;
            while !self.done() && !self.is(")") {
                let arg = self.pat(body);
                args.push(arg);
                if !self.eat(",") {
                    break;
                }
            }
            self.expect(")");
        }
        let name = path.pop().expect("pattern");
        let kind = if name.text == "_" {
            AstPat::Other
        } else if called || !path.is_empty() {
            AstPat::Ctor { qualifiers: path, name, args }
        } else {
            AstPat::Var(name)
        };
        body.pats.push((start, self.last_end(), kind));
        body.pats.len() - 1
    }

    fn add(&mut self, body: &mut AstBody, start: u32, kind: AstExpr) -> usize {
        body.exprs.push((start, self.last_end(), kind));
        body.exprs.len() - 1
    }

    fn expr(&mut self, body: &mut AstBody) -> usize {
        let start = self.start();
        let mut left = self.unary(body);
        while ["+", "-", "*", "/"].contains(&self.peek()) {
            self.next();
            let right = self.unary(body);
            left = self.add(body, start, AstExpr::Other(vec![left, right]));
        }
        left
    }

    fn unary(&mut self, body: &mut AstBody) -> usize {
        let start = self.start();
        let mut value = self.primary(body);
        loop {
            if self.eat(".") {
                let name = if self.kind() == TokKind::Word {
                    self.name()
                } else {
                    self.clean = false;
                    Nm { text: String::new(), start: self.start(), end: self.start() }
                };
                value = self.add(body, start, AstExpr::Field { object: value, name });
            } else if self.eat("(") {
                let mut args = Vec::new();
                while !self.done() && !self.is(")") {
                    let arg = self.expr(body);
                    args.push(arg);
                    if !self.eat(",") {
                        break;
                    }
                }
                self.expect(")");
                value = self.add(body, start, AstExpr::Call { callee: value, args });
            } else {
                return value;
            }
        }
    }

    fn primary(&mut self, body: &mut AstBody) -> usize {
        let start = self.start();
        match self.kind() {
            TokKind::Number => {
                self.next();
                self.add(body, start, AstExpr::Number)
            }
            TokKind::Text => {
                self.next();
                self.add(body, start, AstExpr::Text)
            }
            _ if self.is("(") => {
                self.next();
                let inner = self.expr(body);
                self.expect(")");
                self.add(body, start, AstExpr::Other(vec![inner]))
            }
            _ if self.is(".") => {
                self.next();
                let name = self.name();
                self.add(body, start, AstExpr::DotCtor(name))
            }
            _ if self.is("lam") => {
                self.next();
                let params = self.params();
                let inner = self.body();
                self.add(body, start, AstExpr::Lambda { params, body: Box::new(inner) })
            }
            TokKind::Word => {
                let name = self.name();
                self.add(body, start, AstExpr::Ident(name))
            }
            _ => {
                self.clean = false;
                self.add(body, start, AstExpr::Other(Vec::new()))
            }
        }
    }

    fn path(&mut self) -> Vec<Nm> {
        let mut path = vec![self.name()];
        while self.is(".") && self.peek_at(1) != "{" {
            self.next();
            let name = self.name();
            path.push(name);
        }
        path
    }

    fn selector(&mut self, import: &mut AstImport) {
        self.expect("{");
        let mut names = Vec::new();
        while !self.done() && !self.is("}") {
            if self.eat("*") {
                import.wildcard = true;
            } else {
                let name = self.name();
                let alias = if self.eat("as") { Some(self.name()) } else { None };
                names.push(AstSelected { name, alias });
            }
            if !self.eat(",") {
                break;
            }
        }
        self.expect("}");
        if !import.wildcard {
            import.names = Some(names);
        }
    }

    fn import(&mut self) -> AstImport {
        let mut import = AstImport {
            external: false,
            path: Vec::new(),
            alias: None,
            wildcard: false,
            names: None,
            hiding: Vec::new(),
        };
        self.next();
        if self.is("{") {
            self.selector(&mut import);
            self.expect("from");
            import.external = self.eat("@");
            import.path = self.path();
        } else if self.eat("*") {
            if self.eat("as") {
                import.alias = Some(self.name());
            } else {
                import.wildcard = true;
            }
            self.expect("from");
            import.external = self.eat("@");
            import.path = self.path();
        } else {
            import.external = self.eat("@");
            import.path = self.path();
            if self.eat(".") {
                self.selector(&mut import);
            }
            if self.eat("as") {
                import.alias = Some(self.name());
            }
        }
        if self.eat("hiding") {
            self.expect("{");
            while !self.done() && !self.is("}") {
                let name = self.name();
                import.hiding.push(name);
                self.eat(",");
            }
            self.expect("}");
        }
        self.expect(";");
        import
    }

    fn export(&mut self) -> AstExport {
        self.next();
        let export = if self.eat("{") {
            let mut names = Vec::new();
            while !self.done() && !self.is("}") {
                let name = self.name();
                let mut ctors = Vec::new();
                if self.eat("(") {
                    while !self.done() && !self.is(")") {
                        if self.is("*") {
                            let star = self.next();
                            ctors.push(Nm { text: star.text, start: star.start, end: star.end });
                        } else {
                            let ctor = self.name();
                            ctors.push(ctor);
                        }
                        self.eat(",");
                    }
                    self.expect(")");
                }
                names.push((name, ctors));
                if !self.eat(",") {
                    break;
                }
            }
            self.expect("}");
            AstExport::List(names)
        } else {
            let path = self.path();
            let alias = if self.eat("as") { Some(self.name()) } else { None };
            AstExport::Module { path, alias }
        };
        self.expect(";");
        export
    }

    fn methods(&mut self) -> Vec<AstFunction> {
        self.expect("{");
        let mut methods = Vec::new();
        while !self.done() && !self.is("}") {
            let before = self.at;
            let start = self.start();
            let comments = self.tokens[self.at].comments.clone();
            if self.is("function") {
                let method = self.function(start, comments, Vec::new(), Vec::new());
                methods.push(method);
            }
            if self.at == before {
                self.clean = false;
                self.next();
            }
        }
        self.expect("}");
        methods
    }

    fn item(&mut self) -> AstItem {
        let start = self.start();
        let comments = self.tokens[self.at].comments.clone();
        let mut type_vars = Vec::new();
        let mut preds = Vec::new();
        if self.eat("forall") {
            while !self.done() && !self.eat(".") {
                let var = self.name();
                type_vars.push(var);
                self.eat(",");
            }
            while !self.done() && !["class", "instance", "function"].contains(&self.peek()) {
                let pred = self.pred();
                preds.push(pred);
                self.eat(",");
                self.eat("=>");
            }
        }
        let mut def = 0;
        let kind = match self.peek() {
            "pragma" => {
                while !self.done() && !self.eat(";") {
                    self.next();
                }
                AstKind::Pragma
            }
            "import" => AstKind::Import(self.import()),
            "export" => AstKind::Export(self.export()),
            "function" | "constructor" | "fallback" => {
                let function = self.function(start, comments.clone(), type_vars, preds);
                def = function.def;
                AstKind::Function(function)
            }
            "class" => {
                def = self.def();
                self.next();
                let head = self.pred();
                let methods = self.methods();
                AstKind::Class { head, type_vars, methods }
            }
            "trait" => {
                def = self.def();
                self.next();
                let class = self.name();
                self.expect("<");
                let var = self.name();
                self.expect(">");
                let head = AstPred {
                    start: class.start,
                    end: self.last_end(),
                    ty: AstTy::Named { qualifier: None, name: var.clone(), args: Vec::new() },
                    class,
                };
                let methods = self.methods();
                AstKind::Class { head, type_vars: vec![var], methods }
            }
            "instance" => {
                def = self.def();
                self.next();
                let head = self.pred();
                let methods = self.methods();
                AstKind::Instance { head, type_vars, methods }
            }
            "data" => {
                def = self.def();
                self.next();
                let name = self.name();
                self.expect("=");
                let mut ctors = Vec::new();
                loop {
                    let ctor = self.name();
                    let fields = if self.eat("(") { self.tys(")") } else { Vec::new() };
                    ctors.push(AstCtor { name: ctor, fields });
                    if !self.eat("|") {
                        break;
                    }
                }
                self.expect(";");
                AstKind::Adt { name, ctors }
            }
            "enum" => {
                def = self.def();
                self.next();
                let name = self.name();
                self.expect("{");
                let mut ctors = Vec::new();
                while !self.done() && !self.is("}") {
                    let ctor = self.name();
                    let fields = if self.eat("(") { self.tys(")") } else { Vec::new() };
                    ctors.push(AstCtor { name: ctor, fields });
                    if !self.eat(",") {
                        break;
                    }
                }
                self.expect("}");
                AstKind::Adt { name, ctors }
            }
            "type" | "alias" => {
                def = self.def();
                self.next();
                let name = self.name();
                self.expect("=");
                let ty = self.ty();
                self.expect(";");
                AstKind::Alias { name, ty }
            }
            "contract" | "interface" | "library" => {
                def = self.def();
                let kind = match self.next().text.as_str() {
                    "contract" => ContractKind::Contract,
                    "interface" => ContractKind::Interface,
                    _ => ContractKind::Library,
                };
                let name = self.name();
                self.expect("{");
                let mut fields = Vec::new();
                let mut items = Vec::new();
                while !self.done() && !self.is("}") {
                    if self.peek_at(1) == ":" {
                        let first = self.start();
                        let field = self.name();
                        self.expect(":");
                        let ty = self.ty();
                        self.expect(";");
                        fields.push((first, self.last_end(), field, ty));
                    } else {
                        let item = self.item();
                        items.push(item);
                    }
                }
                self.expect("}");
                AstKind::Contract { kind, name, fields, items }
            }
            _ => {
                self.clean = false;
                self.next();
                AstKind::Broken
            }
        };
        AstItem { def, start, end: self.last_end(), comments, kind }
    }
}

#[derive(Clone)]
struct SourceFile {
    number: u32,
    path: String,
    url: String,
    text: String,
    clean: bool,
    items: Vec<AstItem>,
}

fn read_file(number: u32, path: &str, url: &str, text: &str) -> SourceFile {
    let mut parser = Parser::new(text);
    let mut items = Vec::new();
    while !parser.done() {
        let item = parser.item();
        items.push(item);
    }
    SourceFile {
        number,
        path: path.to_owned(),
        url: url.to_owned(),
        text: text.to_owned(),
        clean: parser.clean,
        items,
    }
}

// ---------------------------------------------------------------------------------------------
// Names
// ---------------------------------------------------------------------------------------------

#[derive(Clone, Debug, PartialEq)]
enum Found {
    Def(u32, u32, DefResolutionKind),
    Ctor(u32, u32, usize),
    Param(u32, u32, usize),
    Let(u32, u32, usize),
    Pattern(u32, u32, usize),
    TypeVar(u32, u32, usize, String),
    Field(u32, u32, usize),
    Method(u32, u32, String),
    Module(String),
    BuiltinType,
    Deferred,
    Nothing,
}

fn resolution(found: &Found) -> Resolution {
    match found {
        Found::Def(file, index, kind) => Resolution::Def {
            def: DefId { file: *file, index: *index },
            kind: *kind,
        },
        Found::Ctor(file, index, ctor) => Resolution::Ctor {
            ty: DefId { file: *file, index: *index },
            index: *ctor,
        },
        Found::Param(file, body, index) => Resolution::Param(ParamId {
            body: BodyId { file: *file, index: *body },
            index: *index,
        }),
        Found::Let(file, body, stmt) => Resolution::Local(LocalBinding::Let {
            body: BodyId { file: *file, index: *body },
            stmt: *stmt,
        }),
        Found::Pattern(file, body, pat) => Resolution::Local(LocalBinding::Pattern {
            body: BodyId { file: *file, index: *body },
            pat: *pat,
        }),
        Found::TypeVar(file, owner, index, name) => Resolution::Local(LocalBinding::TypeVar {
            owner: DefId { file: *file, index: *owner },
            index: *index,
            name: name.clone(),
        }),
        Found::Field(file, contract, index) => Resolution::Field(FieldId {
            contract: DefId { file: *file, index: *contract },
            index: *index,
        }),
        Found::Method(file, class, name) => Resolution::ClassMethod {
            class: DefId { file: *file, index: *class },
            name: name.clone(),
        },
        Found::Module(name) => Resolution::Module { name: name.clone() },
        Found::BuiltinType => Resolution::Builtin(BuiltinKind::Type),
        Found::Deferred => Resolution::DotCtorDeferred,
        Found::Nothing => Resolution::Unresolved,
    }
}

#[derive(Clone)]
struct Entry {
    name: String,
    span: (u32, u32),
    found: Found,
}

#[derive(Clone, Default)]
struct Scope {
    types: Vec<Entry>,
    terms: Vec<Entry>,
    ctors: Vec<(u32, u32, u32, usize)>,
    fields: Vec<Entry>,
}

#[derive(Clone, Default)]
struct Env {
    names: Vec<(Namespace, String, Found)>,
    modules: Vec<(String, Option<u32>)>,
    origins: Vec<(String, Option<u32>)>,
}

struct Front {
    files: Vec<SourceFile>,
}

fn look(entries: &[Entry], name: &str) -> Option<Found> {
    entries
        .iter()
        .find(|entry| entry.name == name)
        .map(|entry| entry.found.clone())
}

fn scope_of(file: u32, items: &[AstItem]) -> Scope {
    let mut scope = Scope::default();
    let add_ctors = |scope: &mut Scope, def: u32, ty: &Nm, ctors: &[AstCtor]| {
        for (index, ctor) in ctors.iter().enumerate() {
            scope.terms.push(Entry {
                name: format!("{}.{}", ty.text, ctor.name.text),
                span: (ctor.name.start, ctor.name.end),
                found: Found::Ctor(file, def, index),
            });
            scope.ctors.push((ctor.name.start, ctor.name.end, def, index));
        }
    };
    for item in items {
        let (name, kind) = match &item.kind {
            AstKind::Function(function) => (&function.name, DefResolutionKind::Function),
            AstKind::Alias { name, .. } => (name, DefResolutionKind::TypeAlias),
            AstKind::Adt { name, .. } => (name, DefResolutionKind::Adt),
            AstKind::Class { head, .. } => (&head.class, DefResolutionKind::Class),
            AstKind::Contract { name, .. } => (name, DefResolutionKind::Contract),
            _ => continue,
        };
        let entry = Entry {
            name: name.text.clone(),
            span: (name.start, name.end),
            found: Found::Def(file, item.def, kind),
        };
        if kind == DefResolutionKind::Function {
            scope.terms.push(entry);
        } else {
            scope.types.push(entry);
        }
        if let AstKind::Adt { name, ctors } = &item.kind {
            add_ctors(&mut scope, item.def, name, ctors);
        }
        if let AstKind::Class { head, methods, .. } = &item.kind {
            for method in methods {
                scope.terms.push(Entry {
                    name: format!("{}.{}", head.class.text, method.name.text),
                    span: (method.name.start, method.name.end),
                    found: Found::Method(file, item.def, method.name.text.clone()),
                });
            }
        }
    }
    scope
}

fn contract_scope_of(file: u32, item: &AstItem) -> Scope {
    match &item.kind {
        AstKind::Contract { fields, items, .. } => {
            let mut scope = scope_of(file, items);
            for (index, (_, _, name, _)) in fields.iter().enumerate() {
                scope.fields.push(Entry {
                    name: name.text.clone(),
                    span: (name.start, name.end),
                    found: Found::Field(file, item.def, index),
                });
            }
            scope
        }
        _ => Scope::default(),
    }
}

impl Front {
    fn file(&self, number: u32) -> &SourceFile {
        &self.files[number as usize]
    }

    fn module_at(&self, from: u32, path: &[Nm]) -> Option<u32> {
        let mut parts: Vec<&str> = path.iter().map(|part| part.text.as_str()).collect();
        if parts[0] == "std" {
            let wanted = format!("/std/{}.solc", parts.join("/"));
            return self.find(&wanted);
        }
        if parts[0] == "lib" && parts.len() > 1 {
            parts.remove(0);
        }
        let base = self.file(from).path.rsplit_once('/').map_or("", |(dir, _)| dir);
        self.find(&format!("{base}/{}.solc", parts.join("/")))
    }

    fn find(&self, path: &str) -> Option<u32> {
        self.files
            .iter()
            .find(|file| file.path == path)
            .map(|file| file.number)
    }

    /// What a module exports, by name. Constructors and methods go by qualified names.
    fn exports(&self, file: u32) -> Vec<(Namespace, String, Found)> {
        let scope = scope_of(file, &self.file(file).items);
        let mut exports = Vec::new();
        for item in &self.file(file).items {
            let AstKind::Export(AstExport::List(names)) = &item.kind else {
                continue;
            };
            for (name, ctors) in names {
                let term = look(&scope.terms, &name.text);
                let ty = look(&scope.types, &name.text);
                if term.is_none() && ty.is_none() {
                    for (namespace, local, found) in self.selected(file) {
                        if local == name.text {
                            exports.push((namespace, local, found));
                        }
                    }
                }
                if let Some(found) = term {
                    exports.push((Namespace::Term, name.text.clone(), found));
                }
                if let Some(found) = ty {
                    exports.push((Namespace::Type, name.text.clone(), found));
                }
                let prefix = format!("{}.", name.text);
                for entry in &scope.terms {
                    let Some(member) = entry.name.strip_prefix(&prefix) else {
                        continue;
                    };
                    let listed = match &entry.found {
                        Found::Ctor(..) => ctors
                            .iter()
                            .any(|ctor| ctor.text == member || ctor.text == "*"),
                        _ => true,
                    };
                    if listed {
                        exports.push((Namespace::Term, entry.name.clone(), entry.found.clone()));
                    }
                }
            }
        }
        exports
    }

    /// The names that selective imports bring into a module.
    fn selected(&self, file: u32) -> Vec<(Namespace, String, Found)> {
        let mut names = Vec::new();
        for item in &self.file(file).items {
            let AstKind::Import(import) = &item.kind else {
                continue;
            };
            let Some(target) = self.module_at(file, &import.path) else {
                continue;
            };
            let exports = self.exports(target);
            if import.wildcard {
                names.extend(exports);
                continue;
            }
            for selected in import.names.iter().flatten() {
                let local = selected.alias.as_ref().unwrap_or(&selected.name);
                let prefix = format!("{}.", selected.name.text);
                for (namespace, name, found) in &exports {
                    if *name == selected.name.text {
                        names.push((*namespace, local.text.clone(), found.clone()));
                    } else if let Some(member) = name.strip_prefix(&prefix) {
                        names.push((
                            *namespace,
                            format!("{}.{member}", local.text),
                            found.clone(),
                        ));
                    }
                }
            }
        }
        names
    }

    fn known_modules(&self, env: &mut Env, name: String, file: Option<u32>, depth: usize) {
        env.modules.push((name.clone(), file));
        let Some(number) = file else {
            return;
        };
        if depth > 4 {
            return;
        }
        for item in &self.file(number).items {
            if let AstKind::Export(AstExport::Module { path, alias }) = &item.kind {
                let inner = alias.as_ref().unwrap_or(&path[path.len() - 1]);
                let target = self.module_at(number, path);
                self.known_modules(env, format!("{name}.{}", inner.text), target, depth + 1);
            }
        }
    }

    fn env(&self, file: u32) -> Env {
        let mut env = Env {
            names: self.selected(file),
            ..Env::default()
        };
        for item in &self.file(file).items {
            let AstKind::Import(import) = &item.kind else {
                continue;
            };
            if import.wildcard || import.names.is_some() {
                continue;
            }
            let target = self.module_at(file, &import.path);
            let parts: Vec<&str> = import.path.iter().map(|part| part.text.as_str()).collect();
            let name = match &import.alias {
                Some(alias) => alias.text.clone(),
                None => parts.join("."),
            };
            if import.alias.is_none() {
                for count in 1..parts.len() {
                    env.origins.push((parts[..count].join("."), target));
                }
            }
            self.known_modules(&mut env, name, target, 0);
        }
        for (name, target) in env.modules.clone() {
            env.names
                .push((Namespace::Module, name.clone(), Found::Module(name.clone())));
            for (namespace, member, found) in target.map_or(Vec::new(), |file| self.exports(file)) {
                env.names.push((namespace, format!("{name}.{member}"), found));
            }
        }
        env
    }
}

fn imported(env: &Env, namespace: Namespace, name: &str) -> Option<Found> {
    env.names
        .iter()
        .find(|(space, known, _)| *space == namespace && known == name)
        .map(|(_, _, found)| found.clone())
}

// ---------------------------------------------------------------------------------------------
// Resolution of a file
// ---------------------------------------------------------------------------------------------

#[derive(Clone, Default)]
struct NameMap {
    root: u32,
    exprs: Vec<(u32, usize, Found)>,
    stmts: Vec<(u32, usize, Found)>,
    pats: Vec<(u32, usize, Found)>,
    types: Vec<(AstTy, Found)>,
    expr_types: Vec<(u32, usize, AstTy)>,
    let_types: Vec<(u32, usize, AstTy)>,
}

#[derive(Clone)]
struct Local {
    name: String,
    found: Found,
    ty: Option<AstTy>,
}

struct Resolver<'a> {
    front: &'a Front,
    file: u32,
    env: &'a Env,
    scope: &'a Scope,
    contract: Option<Scope>,
    vars: Vec<(String, Found)>,
}

fn plain(text: &str) -> AstTy {
    AstTy::Named {
        qualifier: None,
        name: Nm { text: text.to_owned(), start: 0, end: 0 },
        args: Vec::new(),
    }
}

impl Resolver<'_> {
    fn term(&self, name: &str) -> Option<Found> {
        if let Some(contract) = &self.contract {
            if let Some(found) = look(&contract.fields, name).or_else(|| look(&contract.terms, name)) {
                return Some(found);
            }
        }
        look(&self.scope.terms, name).or_else(|| imported(self.env, Namespace::Term, name))
    }

    fn ty_named(&self, name: &str) -> Option<Found> {
        if let Some((_, found)) = self.vars.iter().rev().find(|(var, _)| var == name) {
            return Some(found.clone());
        }
        if let Some(contract) = &self.contract {
            if let Some(found) = look(&contract.types, name) {
                return Some(found);
            }
        }
        look(&self.scope.types, name)
            .or_else(|| imported(self.env, Namespace::Type, name))
            .or_else(|| {
                ["word", "bool", "string", "pair"]
                    .contains(&name)
                    .then_some(Found::BuiltinType)
            })
    }

    fn tys(&self, ty: &AstTy, types: &mut Vec<(AstTy, Found)>) {
        match ty {
            AstTy::Named { qualifier, name, args } => {
                let full = match qualifier {
                    Some(qualifier) => format!("{}.{}", qualifier.text, name.text),
                    None => name.text.clone(),
                };
                types.push((ty.clone(), self.ty_named(&full).unwrap_or(Found::Nothing)));
                for arg in args {
                    self.tys(arg, types);
                }
            }
            AstTy::Function { params, ret, .. } => {
                for param in params {
                    self.tys(param, types);
                }
                self.tys(ret, types);
            }
            AstTy::Tuple(elems) => {
                for elem in elems {
                    self.tys(elem, types);
                }
            }
        }
    }

    /// What a name or a path of names stands for.
    fn path_found(&self, body: &AstBody, expr: usize, locals: &[Local]) -> Option<(String, Found)> {
        match &body.exprs[expr].2 {
            AstExpr::Ident(name) => {
                if let Some(local) = locals.iter().rev().find(|local| local.name == name.text) {
                    return Some((name.text.clone(), local.found.clone()));
                }
                let found = self
                    .term(&name.text)
                    .or_else(|| self.ty_named(&name.text))
                    .or_else(|| self.module_named(&name.text))
                    .unwrap_or(Found::Nothing);
                Some((name.text.clone(), found))
            }
            AstExpr::Field { object, name } => {
                let (outer, _) = self.path_found(body, *object, locals)?;
                let full = format!("{outer}.{}", name.text);
                let found = self
                    .term(&full)
                    .or_else(|| self.ty_named(&full))
                    .or_else(|| self.module_named(&full))
                    .unwrap_or(Found::Nothing);
                Some((full, found))
            }
            AstExpr::DotCtor(name) => Some((name.text.clone(), Found::Deferred)),
            _ => None,
        }
    }

    fn module_named(&self, name: &str) -> Option<Found> {
        self.env
            .modules
            .iter()
            .chain(self.env.origins.iter())
            .find(|(known, _)| known == name)
            .map(|_| Found::Module(name.to_owned()))
    }

    fn value(&self, map: &mut NameMap, body: &AstBody, expr: usize, locals: &[Local]) -> Option<AstTy> {
        let ty = match &body.exprs[expr].2 {
            AstExpr::Ident(name) => {
                let local = locals.iter().rev().find(|local| local.name == name.text);
                let (_, found) = self.path_found(body, expr, locals)?;
                map.exprs.push((body.id, expr, found));
                local.and_then(|local| local.ty.clone())
            }
            AstExpr::DotCtor(_) => {
                map.exprs.push((body.id, expr, Found::Deferred));
                None
            }
            AstExpr::Field { object, .. } => {
                self.value(map, body, *object, locals);
                if let Some((_, found)) = self.path_found(body, expr, locals) {
                    map.exprs.push((body.id, expr, found));
                }
                None
            }
            AstExpr::Call { callee, args } => {
                self.value(map, body, *callee, locals);
                for arg in args {
                    self.value(map, body, *arg, locals);
                }
                self.path_found(body, *callee, locals)
                    .and_then(|(_, found)| self.front.result_of(&found))
            }
            AstExpr::Lambda { params, body: inner } => {
                let mut locals = locals.to_vec();
                for (index, param) in params.iter().enumerate() {
                    locals.push(Local {
                        name: param.name.text.clone(),
                        found: Found::Param(self.file, inner.id, index),
                        ty: param.ty.clone(),
                    });
                    if let Some(ty) = &param.ty {
                        self.tys(ty, &mut map.types);
                    }
                }
                self.stmts(map, inner, &inner.tree, &mut locals);
                None
            }
            AstExpr::Number => Some(plain("word")),
            AstExpr::Text => Some(plain("string")),
            AstExpr::Other(children) => {
                let mut ty = None;
                for child in children {
                    ty = self.value(map, body, *child, locals);
                }
                ty
            }
        };
        if let Some(ty) = &ty {
            map.expr_types.push((body.id, expr, ty.clone()));
        }
        ty
    }

    fn pattern(&self, map: &mut NameMap, body: &AstBody, pat: usize, locals: &mut Vec<Local>) {
        match &body.pats[pat].2 {
            AstPat::Var(name) => {
                let found = Found::Pattern(self.file, body.id, pat);
                map.pats.push((body.id, pat, found.clone()));
                locals.push(Local { name: name.text.clone(), found, ty: None });
            }
            AstPat::Ctor { qualifiers, name, args } => {
                let mut full: Vec<&str> = qualifiers.iter().map(|part| part.text.as_str()).collect();
                full.push(&name.text);
                let found = self.term(&full.join(".")).unwrap_or(Found::Nothing);
                map.pats.push((body.id, pat, found));
                for arg in args {
                    self.pattern(map, body, *arg, locals);
                }
            }
            AstPat::Other => {}
        }
    }

    fn stmts(&self, map: &mut NameMap, body: &AstBody, tree: &[AstStmt], locals: &mut Vec<Local>) {
        let depth = locals.len();
        for stmt in tree {
            match stmt {
                AstStmt::Let { stmt, name, ty, init } => {
                    if let Some(ty) = ty {
                        self.tys(ty, &mut map.types);
                    }
                    let inferred = init.and_then(|init| self.value(map, body, init, locals));
                    let found = Found::Let(self.file, body.id, *stmt);
                    map.stmts.push((body.id, *stmt, found.clone()));
                    let ty = ty.clone().or(inferred);
                    if let Some(ty) = &ty {
                        map.let_types.push((body.id, *stmt, ty.clone()));
                    }
                    locals.push(Local { name: name.text.clone(), found, ty });
                }
                AstStmt::Value(value) => {
                    self.value(map, body, *value, locals);
                }
                AstStmt::Block(inner) => self.stmts(map, body, inner, locals),
                AstStmt::Arms(arms) => {
                    for (pats, stmts) in arms {
                        let depth = locals.len();
                        for pat in pats {
                            self.pattern(map, body, *pat, locals);
                        }
                        self.stmts(map, body, stmts, locals);
                        locals.truncate(depth);
                    }
                }
            }
        }
        locals.truncate(depth);
    }

    fn function_map(&mut self, function: &AstFunction) -> Option<NameMap> {
        let body = function.body.as_ref()?;
        let depth = self.vars.len();
        self.push_vars(function.def, &function.type_vars);
        let mut map = NameMap { root: body.id, ..NameMap::default() };
        let mut locals = Vec::new();
        for (index, param) in function.params.iter().enumerate() {
            locals.push(Local {
                name: param.name.text.clone(),
                found: Found::Param(self.file, body.id, index),
                ty: param.ty.clone(),
            });
        }
        self.stmts(&mut map, body, &body.tree, &mut locals);
        self.vars.truncate(depth);
        Some(map)
    }

    fn push_vars(&mut self, owner: u32, vars: &[Nm]) {
        for (index, var) in vars.iter().enumerate() {
            self.vars.push((
                var.text.clone(),
                Found::TypeVar(self.file, owner, index, var.text.clone()),
            ));
        }
    }

    fn signature(&mut self, function: &AstFunction, types: &mut Vec<(AstTy, Found)>, preds: &mut Vec<(AstPred, Found)>) {
        let depth = self.vars.len();
        self.push_vars(function.def, &function.type_vars);
        for pred in &function.preds {
            self.head(pred, types, preds);
        }
        for param in &function.params {
            if let Some(ty) = &param.ty {
                self.tys(ty, types);
            }
        }
        if let Some(ty) = &function.ret {
            self.tys(ty, types);
        }
        self.vars.truncate(depth);
    }

    fn head(&self, pred: &AstPred, types: &mut Vec<(AstTy, Found)>, preds: &mut Vec<(AstPred, Found)>) {
        self.tys(&pred.ty, types);
        let found = self.ty_named(&pred.class.text).unwrap_or(Found::Nothing);
        preds.push((pred.clone(), found));
    }
}

fn function_among(items: &[AstItem], def: u32) -> Option<&AstFunction> {
    items.iter().find_map(|item| match &item.kind {
        AstKind::Function(function) if function.def == def => Some(function),
        AstKind::Contract { items, .. } => function_among(items, def),
        AstKind::Instance { methods, .. } => methods.iter().find(|method| method.def == def),
        _ => None,
    })
}

impl Front {
    fn function(&self, file: u32, def: u32) -> Option<&AstFunction> {
        function_among(&self.file(file).items, def)
    }

    fn result_of(&self, found: &Found) -> Option<AstTy> {
        match found {
            Found::Def(file, def, DefResolutionKind::Function) => {
                self.function(*file, *def)?.ret.clone()
            }
            Found::Ctor(file, def, _) => self.file(*file).items.iter().find_map(|item| {
                match &item.kind {
                    AstKind::Adt { name, .. } if item.def == *def => Some(plain(&name.text)),
                    _ => None,
                }
            }),
            _ => None,
        }
    }

    /// The uses of types and classes in a file, and the maps of its functions.
    fn resolve(&self, file: u32) -> (Vec<(AstTy, Found)>, Vec<(AstPred, Found)>, Vec<NameMap>) {
        let env = self.env(file);
        let scope = scope_of(file, &self.file(file).items);
        let mut resolver = Resolver {
            front: self,
            file,
            env: &env,
            scope: &scope,
            contract: None,
            vars: Vec::new(),
        };
        let mut types = Vec::new();
        let mut preds = Vec::new();
        let mut maps = Vec::new();
        for item in &self.file(file).items {
            match &item.kind {
                AstKind::Function(function) => {
                    resolver.signature(function, &mut types, &mut preds);
                    maps.extend(resolver.function_map(function));
                }
                AstKind::Alias { ty, .. } => resolver.tys(ty, &mut types),
                AstKind::Adt { ctors, .. } => {
                    for ctor in ctors {
                        for field in &ctor.fields {
                            resolver.tys(field, &mut types);
                        }
                    }
                }
                AstKind::Class { head, type_vars, methods } => {
                    resolver.push_vars(item.def, type_vars);
                    resolver.tys(&head.ty, &mut types);
                    for method in methods {
                        resolver.signature(method, &mut types, &mut preds);
                    }
                    resolver.vars.clear();
                }
                AstKind::Instance { head, type_vars, methods } => {
                    resolver.push_vars(item.def, type_vars);
                    resolver.head(head, &mut types, &mut preds);
                    for method in methods {
                        resolver.signature(method, &mut types, &mut preds);
                        maps.extend(resolver.function_map(method));
                    }
                    resolver.vars.clear();
                }
                AstKind::Contract { fields, items, .. } => {
                    resolver.contract = Some(contract_scope_of(file, item));
                    for (_, _, _, ty) in fields {
                        resolver.tys(ty, &mut types);
                    }
                    for inner in items {
                        match &inner.kind {
                            AstKind::Function(function) => {
                                resolver.signature(function, &mut types, &mut preds);
                                maps.extend(resolver.function_map(function));
                            }
                            AstKind::Adt { ctors, .. } => {
                                for ctor in ctors {
                                    for field in &ctor.fields {
                                        resolver.tys(field, &mut types);
                                    }
                                }
                            }
                            AstKind::Alias { ty, .. } => resolver.tys(ty, &mut types),
                            _ => {}
                        }
                    }
                    resolver.contract = None;
                }
                _ => {}
            }
        }
        (types, preds, maps)
    }
}

// ---------------------------------------------------------------------------------------------
// What the server is told
// ---------------------------------------------------------------------------------------------

fn span(file: u32, start: u32, end: u32) -> Span {
    Span { file, start, end }
}

fn name(file: u32, name: &Nm) -> Name {
    Name {
        text: name.text.clone(),
        span: span(file, name.start, name.end),
    }
}

fn names(file: u32, list: &[Nm]) -> Vec<Name> {
    list.iter().map(|entry| name(file, entry)).collect()
}

fn type_ref(file: u32, ty: &AstTy) -> TypeRef {
    match ty {
        AstTy::Named { qualifier, name: own, args } => TypeRef::Named {
            qualifier: qualifier.as_ref().map(|part| name(file, part)),
            name: name(file, own),
            args: type_refs(file, args),
        },
        AstTy::Function { params, ret, .. } => TypeRef::Fn {
            params: type_refs(file, params),
            ret: Box::new(type_ref(file, ret)),
        },
        AstTy::Tuple(elems) => TypeRef::Tuple { elems: type_refs(file, elems) },
    }
}

fn type_refs(file: u32, tys: &[AstTy]) -> Vec<TypeRef> {
    tys.iter().map(|ty| type_ref(file, ty)).collect()
}

fn pred_ref(file: u32, pred: &AstPred) -> PredRef {
    PredRef {
        span: span(file, pred.start, pred.end),
        ty: type_ref(file, &pred.ty),
        class: name(file, &pred.class),
        args: Vec::new(),
    }
}

fn func_param(file: u32, param: &AstParam) -> FuncParam {
    match &param.ty {
        Some(ty) => FuncParam::Typed {
            comptime: param.comptime,
            name: name(file, &param.name),
            ty: type_ref(file, ty),
        },
        None => FuncParam::Untyped {
            comptime: param.comptime,
            name: name(file, &param.name),
        },
    }
}

fn func_params(file: u32, params: &[AstParam]) -> Vec<FuncParam> {
    params.iter().map(|param| func_param(file, param)).collect()
}

fn func_body(file: u32, body: &AstBody) -> FuncBody {
    FuncBody {
        id: BodyId { file, index: body.id },
        span: span(file, body.start, body.end),
        stmts: body
            .lets
            .iter()
            .map(|(start, end, bound)| Stmt {
                span: span(file, *start, *end),
                kind: match bound {
                    Some((own, ty)) => StmtKind::Let {
                        comptime: false,
                        name: name(file, own),
                        ty: ty.as_ref().map(|ty| type_ref(file, ty)),
                    },
                    None => StmtKind::Other,
                },
            })
            .collect(),
        exprs: body
            .exprs
            .iter()
            .map(|(start, end, kind)| Expr {
                span: span(file, *start, *end),
                kind: match kind {
                    AstExpr::Ident(own) => ExprKind::Ident { name: name(file, own) },
                    AstExpr::DotCtor(own) => ExprKind::DotCtor { name: name(file, own) },
                    AstExpr::Field { name: own, .. } => ExprKind::Field { name: name(file, own) },
                    AstExpr::Call { callee, args } => ExprKind::Call {
                        callee: *callee,
                        args: args.clone(),
                    },
                    AstExpr::Lambda { params, body } => ExprKind::Lambda {
                        params: func_params(file, params),
                        body: func_body(file, body),
                    },
                    AstExpr::Number | AstExpr::Text | AstExpr::Other(_) => ExprKind::Other,
                },
            })
            .collect(),
        pats: body
            .pats
            .iter()
            .map(|(start, end, kind)| Pat {
                span: span(file, *start, *end),
                kind: match kind {
                    AstPat::Var(own) => PatKind::Var { name: name(file, own) },
                    AstPat::Ctor { qualifiers, name: own, .. } => PatKind::Ctor {
                        qualifiers: names(file, qualifiers),
                        name: name(file, own),
                    },
                    AstPat::Other => PatKind::Other,
                },
            })
            .collect(),
    }
}

fn func_sig(file: u32, function: &AstFunction) -> FuncSig {
    FuncSig {
        span: span(file, function.sig_start, function.sig_end),
        name: name(file, &function.name),
        type_vars: names(file, &function.type_vars),
        params: func_params(file, &function.params),
        ret: function.ret.as_ref().map(|ty| type_ref(file, ty)),
    }
}

fn function_def(file: u32, function: &AstFunction) -> FunctionDef {
    FunctionDef {
        def: DefId { file, index: function.def },
        kind: function.kind,
        span: span(file, function.start, function.end),
        sig: func_sig(file, function),
        body: function.body.as_ref().map(|body| func_body(file, body)),
        comments: function.comments.clone(),
    }
}

fn alias_def(file: u32, item: &AstItem, own: &Nm, ty: &AstTy) -> TypeAlias {
    TypeAlias {
        def: DefId { file, index: item.def },
        span: span(file, item.start, item.end),
        name: name(file, own),
        params: Vec::new(),
        ty: type_ref(file, ty),
        comments: item.comments.clone(),
    }
}

fn adt_def(file: u32, item: &AstItem, own: &Nm, ctors: &[AstCtor]) -> AdtDef {
    AdtDef {
        def: DefId { file, index: item.def },
        span: span(file, item.start, item.end),
        name: name(file, own),
        params: Vec::new(),
        ctors: ctors
            .iter()
            .map(|ctor| AdtCtor {
                name: name(file, &ctor.name),
                field_count: ctor.fields.len() as u32,
                fields: if ctor.fields.len() == 1 {
                    type_ref(file, &ctor.fields[0])
                } else {
                    TypeRef::Tuple { elems: type_refs(file, &ctor.fields) }
                },
                comments: Vec::new(),
            })
            .collect(),
        comments: item.comments.clone(),
    }
}

impl Front {
    fn item(&self, file: u32, item: &AstItem) -> Item {
        let place = span(file, item.start, item.end);
        let def = DefId { file, index: item.def };
        match &item.kind {
            AstKind::Function(function) => Item::FunctionDef(function_def(file, function)),
            AstKind::Alias { name, ty } => Item::TypeAlias(alias_def(file, item, name, ty)),
            AstKind::Adt { name, ctors } => Item::AdtDef(adt_def(file, item, name, ctors)),
            AstKind::Class { head, type_vars, methods } => Item::ClassDef(ClassDef {
                def,
                span: place,
                head: pred_ref(file, head),
                type_vars: names(file, type_vars),
                methods: methods
                    .iter()
                    .map(|method| ClassMethod {
                        sig: func_sig(file, method),
                        comments: method.comments.clone(),
                    })
                    .collect(),
                comments: item.comments.clone(),
            }),
            AstKind::Instance { head, type_vars, methods } => Item::InstanceDef(InstanceDef {
                def,
                span: place,
                head: pred_ref(file, head),
                type_vars: names(file, type_vars),
                methods: methods.iter().map(|method| function_def(file, method)).collect(),
                comments: item.comments.clone(),
            }),
            AstKind::Contract { kind, name: own, fields, items } => Item::ContractDef(ContractDef {
                def,
                kind: *kind,
                span: place,
                name: name(file, own),
                params: Vec::new(),
                fields: fields
                    .iter()
                    .map(|(start, end, own, _)| FieldDef {
                        span: span(file, *start, *end),
                        name: name(file, own),
                        init: None,
                        comments: Vec::new(),
                    })
                    .collect(),
                items: items
                    .iter()
                    .map(|item| match &item.kind {
                        AstKind::Function(function) => {
                            ContractItem::FunctionDef(function_def(file, function))
                        }
                        AstKind::Alias { name, ty } => {
                            ContractItem::TypeAlias(alias_def(file, item, name, ty))
                        }
                        AstKind::Adt { name, ctors } => {
                            ContractItem::AdtDef(adt_def(file, item, name, ctors))
                        }
                        _ => ContractItem::Error { span: span(file, item.start, item.end) },
                    })
                    .collect(),
                comments: item.comments.clone(),
            }),
            AstKind::Import(import) => Item::Import(Import {
                span: place,
                external: import.external,
                path: names(file, &import.path),
                alias: import.alias.as_ref().map(|alias| name(file, alias)),
                selector: if import.wildcard {
                    Some(ImportSelector::Wildcard)
                } else {
                    import.names.as_ref().map(|list| {
                        ImportSelector::Names(
                            list.iter()
                                .map(|selected| SelectedName {
                                    name: name(file, &selected.name),
                                    ctors: Vec::new(),
                                    alias: selected.alias.as_ref().map(|alias| name(file, alias)),
                                })
                                .collect(),
                        )
                    })
                },
                hiding: names(file, &import.hiding),
                target: self.module_at(file, &import.path),
            }),
            AstKind::Export(AstExport::List(list)) => Item::Export(Export {
                span: place,
                kind: ExportKind::List(
                    list.iter()
                        .map(|(own, ctors)| ExportedName {
                            name: name(file, own),
                            ctors: ctors
                                .iter()
                                .filter(|ctor| ctor.text != "*")
                                .map(|ctor| name(file, ctor))
                                .collect(),
                        })
                        .collect(),
                ),
            }),
            AstKind::Export(AstExport::Module { alias, .. }) => Item::Export(Export {
                span: place,
                kind: ExportKind::Module { alias: alias.as_ref().map(|alias| name(file, alias)) },
            }),
            AstKind::Pragma => Item::Pragma { span: place },
            AstKind::Broken => Item::Error { span: place },
        }
    }

    fn module(&self, file: u32) -> Module {
        let source = self.file(file);
        Module {
            span: span(file, 0, source.text.len() as u32),
            items: source.items.iter().map(|item| self.item(file, item)).collect(),
        }
    }

    fn scope_facts(&self, file: u32) -> ItemScopeFacts {
        let items = &self.file(file).items;
        let scope = scope_of(file, items);
        ItemScopeFacts {
            types: scope_entries(file, &scope.types),
            terms: scope_entries(file, &scope.terms),
            modules: Vec::new(),
            ctors: ctor_entries(file, &scope),
            contracts: items
                .iter()
                .filter(|item| matches!(item.kind, AstKind::Contract { .. }))
                .map(|item| {
                    let inner = contract_scope_of(file, item);
                    ContractScope {
                        contract: DefId { file, index: item.def },
                        types: scope_entries(file, &inner.types),
                        terms: scope_entries(file, &inner.terms),
                        fields: inner
                            .fields
                            .iter()
                            .enumerate()
                            .map(|(index, entry)| FieldEntry {
                                name: entry.name.clone(),
                                span: span(file, entry.span.0, entry.span.1),
                                field: FieldId {
                                    contract: DefId { file, index: item.def },
                                    index,
                                },
                            })
                            .collect(),
                        ctors: ctor_entries(file, &inner),
                    }
                })
                .collect(),
        }
    }

    fn facts(&self, file: u32) -> SourceFacts {
        let source = self.file(file);
        let env = self.env(file);
        let (types, preds, maps) = self.resolve(file);
        SourceFacts {
            file,
            path: source.path.clone(),
            url: source.url.clone(),
            content: Some(source.text.clone()),
            is_module: true,
            module: self.module(file),
            scope: self.scope_facts(file),
            item_facts: item_facts(file, &types, &preds),
            env: ModuleEnv {
                names: env
                    .names
                    .iter()
                    .map(|(namespace, name, found)| ImportedName {
                        namespace: *namespace,
                        name: name.clone(),
                        resolution: Some(resolution(found)),
                    })
                    .collect(),
                modules: named_modules(&env.modules),
                module_origins: named_modules(&env.origins),
            },
            bodies: maps
                .iter()
                .map(|map| BodyFacts {
                    root: BodyId { file, index: map.root },
                    map: body_map(file, map),
                })
                .collect(),
            resolved: ResolvedModule {
                scope: self.scope_facts(file),
                item_facts: item_facts(file, &types, &preds),
                bodies: maps.iter().map(|map| body_map(file, map)).collect(),
            },
            def_locations: source
                .items
                .iter()
                .map(|item| DefLocation {
                    def: DefId { file, index: item.def },
                    offset: item.start,
                })
                .collect(),
            types: maps.iter().map(|map| body_types(file, map)).collect(),
        }
    }

    fn schemes(&self) -> Vec<SchemeFacts> {
        let mut schemes = Vec::new();
        for source in &self.files {
            let file = source.number;
            for item in &source.items {
                match &item.kind {
                    AstKind::Function(function) => schemes.push(function_scheme(
                        SchemeKey::Function(DefId { file, index: function.def }),
                        function,
                    )),
                    AstKind::Class { methods, .. } => {
                        for method in methods {
                            schemes.push(function_scheme(
                                SchemeKey::Method {
                                    class: DefId { file, index: item.def },
                                    name: method.name.text.clone(),
                                },
                                method,
                            ));
                        }
                    }
                    AstKind::Adt { name, ctors } => {
                        for (index, ctor) in ctors.iter().enumerate() {
                            schemes.push(SchemeFacts {
                                key: SchemeKey::Ctor {
                                    ty: DefId { file, index: item.def },
                                    index,
                                },
                                scheme: TyScheme {
                                    ty: Ty::Function {
                                        params: ctor.fields.iter().map(inferred).collect(),
                                        ret: Box::new(inferred(&plain(&name.text))),
                                    },
                                    preds: Vec::new(),
                                },
                                params: ctor.fields.iter().map(shown).collect(),
                                ret: ShownReturn::Other(format!("adt:{}", name.text)),
                                source_params: ctor
                                    .fields
                                    .iter()
                                    .map(|field| Some(shown(field)))
                                    .collect(),
                                source_ret: None,
                            });
                        }
                    }
                    AstKind::Contract { fields, items, .. } => {
                        for inner in items {
                            if let AstKind::Function(function) = &inner.kind {
                                schemes.push(function_scheme(
                                    SchemeKey::Function(DefId { file, index: function.def }),
                                    function,
                                ));
                            }
                        }
                        for (index, (_, _, _, ty)) in fields.iter().enumerate() {
                            schemes.push(SchemeFacts {
                                key: SchemeKey::Field(FieldId {
                                    contract: DefId { file, index: item.def },
                                    index,
                                }),
                                scheme: TyScheme { ty: inferred(ty), preds: Vec::new() },
                                params: Vec::new(),
                                ret: ShownReturn::Other(shown(ty)),
                                source_params: Vec::new(),
                                source_ret: None,
                            });
                        }
                    }
                    _ => {}
                }
            }
        }
        schemes
    }

    fn reachable(&self, entry: u32) -> Vec<u32> {
        let mut reached = vec![entry];
        let mut next = 0;
        while next < reached.len() {
            let from = reached[next];
            for item in &self.file(from).items {
                let path = match &item.kind {
                    AstKind::Import(import) => &import.path,
                    AstKind::Export(AstExport::Module { path, .. }) => path,
                    _ => continue,
                };
                if let Some(target) = self.module_at(from, path) {
                    if !reached.contains(&target) {
                        reached.push(target);
                    }
                }
            }
            next += 1;
        }
        reached
    }
}

fn scope_entries(file: u32, entries: &[Entry]) -> Vec<ScopeEntry> {
    entries
        .iter()
        .map(|entry| ScopeEntry {
            name: entry.name.clone(),
            span: span(file, entry.span.0, entry.span.1),
            resolution: resolution(&entry.found),
        })
        .collect()
}

fn ctor_entries(file: u32, scope: &Scope) -> Vec<CtorEntry> {
    scope
        .ctors
        .iter()
        .map(|(start, end, def, index)| CtorEntry {
            span: span(file, *start, *end),
            ty: DefId { file, index: *def },
            index: *index,
        })
        .collect()
}

fn named_modules(modules: &[(String, Option<u32>)]) -> Vec<NamedModule> {
    modules
        .iter()
        .map(|(name, file)| NamedModule { name: name.clone(), file: *file })
        .collect()
}

fn type_entries(file: u32, types: &[(AstTy, Found)]) -> Vec<TypeEntry> {
    types
        .iter()
        .map(|(ty, found)| TypeEntry {
            ty: type_ref(file, ty),
            resolution: resolution(found),
        })
        .collect()
}

fn item_facts(file: u32, types: &[(AstTy, Found)], preds: &[(AstPred, Found)]) -> ItemResolutionFacts {
    ItemResolutionFacts {
        types: type_entries(file, types),
        preds: preds
            .iter()
            .map(|(pred, found)| PredEntry {
                pred: pred_ref(file, pred),
                resolution: resolution(found),
            })
            .collect(),
    }
}

fn body_map(file: u32, map: &NameMap) -> BodyResolutionMap {
    let body = |index: u32| BodyId { file, index };
    BodyResolutionMap {
        exprs: map
            .exprs
            .iter()
            .map(|(id, expr, found)| ExprEntry {
                body: body(*id),
                expr: *expr,
                resolution: resolution(found),
            })
            .collect(),
        stmt_bindings: map
            .stmts
            .iter()
            .map(|(id, stmt, found)| StmtEntry {
                body: body(*id),
                stmt: *stmt,
                resolution: resolution(found),
            })
            .collect(),
        pats: map
            .pats
            .iter()
            .map(|(id, pat, found)| PatEntry {
                body: body(*id),
                pat: *pat,
                resolution: resolution(found),
            })
            .collect(),
        types: type_entries(file, &map.types),
        preds: Vec::new(),
    }
}

fn inferred(ty: &AstTy) -> Ty {
    match ty {
        AstTy::Named { name, args, .. } => Ty::Named {
            name: name.text.clone(),
            args: args.iter().map(inferred).collect(),
        },
        AstTy::Function { params, ret, .. } => Ty::Function {
            params: params.iter().map(inferred).collect(),
            ret: Box::new(inferred(ret)),
        },
        AstTy::Tuple(elems) => Ty::Tuple { elems: elems.iter().map(inferred).collect() },
    }
}

fn shown(ty: &AstTy) -> String {
    match ty {
        AstTy::Named { name, args, .. } if args.is_empty() => name.text.clone(),
        AstTy::Named { name, args, .. } => {
            let args: Vec<String> = args.iter().map(shown).collect();
            format!("{}({})", name.text, args.join(", "))
        }
        AstTy::Function { shown, .. } => shown.clone(),
        AstTy::Tuple(elems) => {
            let elems: Vec<String> = elems.iter().map(shown).collect();
            format!("({})", elems.join(", "))
        }
    }
}

fn shown_return(ty: &AstTy) -> ShownReturn {
    match ty {
        AstTy::Tuple(elems) => ShownReturn::Tuple(elems.iter().map(shown).collect()),
        _ => ShownReturn::Other(shown(ty)),
    }
}

fn function_scheme(key: SchemeKey, function: &AstFunction) -> SchemeFacts {
    let unit = AstTy::Tuple(Vec::new());
    let unknown = plain("word");
    let params: Vec<&AstTy> = function
        .params
        .iter()
        .map(|param| param.ty.as_ref().unwrap_or(&unknown))
        .collect();
    let ret = function.ret.as_ref().unwrap_or(&unit);
    SchemeFacts {
        key,
        scheme: TyScheme {
            ty: Ty::Function {
                params: params.iter().map(|ty| inferred(ty)).collect(),
                ret: Box::new(inferred(ret)),
            },
            preds: Vec::new(),
        },
        params: params.iter().map(|ty| shown(ty)).collect(),
        ret: shown_return(ret),
        source_params: function
            .params
            .iter()
            .map(|param| param.ty.as_ref().map(shown))
            .collect(),
        source_ret: function.ret.as_ref().map(shown_return),
    }
}

fn body_types(file: u32, map: &NameMap) -> BodyTypes {
    let body = |index: u32| BodyId { file, index };
    BodyTypes {
        root: body(map.root),
        scheme: TyScheme { ty: Ty::Unknown, preds: Vec::new() },
        exprs: map
            .expr_types
            .iter()
            .map(|(id, expr, ty)| ExprType { body: body(*id), expr: *expr, ty: inferred(ty) })
            .collect(),
        lets: map
            .let_types
            .iter()
            .map(|(id, stmt, ty)| LetType {
                body: body(*id),
                stmt: *stmt,
                ty: inferred(ty),
                shown: shown(ty),
            })
            .collect(),
        pats: Vec::new(),
    }
}

const STD: &str = "function addWord(x: word, y: word) -> word { return x; }\nexport { addWord };\n";

fn front_of(world: &WorldState) -> Front {
    let mut uris = world.workspace_document_uris();
    for uri in world.open_document_uris() {
        if !uris.iter().any(|known| known.same(&uri)) {
            uris.push(uri);
        }
    }
    let mut files = Vec::new();
    for uri in uris {
        let (Some(path), Some(index)) = (world.vfs_path_for_uri(&uri), world.line_index(&uri)) else {
            continue;
        };
        let url = solcore_lsp::paths::vfs_url_for_path(&path).expect("address");
        files.push(read_file(files.len() as u32, &path, &url, index.text()));
    }
    let number = files.len() as u32;
    files.push(read_file(number, "/std/std.solc", "file:///std/std.solc", STD));
    Front { files }
}

/// What the front end finds in the documents of a world, with the first of them that there is as
/// the entry of the program.
fn analyse(world: &WorldState) -> Analysis {
    let front = front_of(world);
    let entry = front.find("/main/main.solc").unwrap_or(0);
    Analysis {
        files: (0..front.files.len() as u32).map(|file| front.facts(file)).collect(),
        reachable: front.reachable(entry),
        schemes: front.schemes(),
    }
}

fn parsed(source: &str) -> ParsedFile {
    let front = Front {
        files: vec![read_file(0, "/main/main.solc", "file:///main/main.solc", source)],
    };
    ParsedFile {
        content: Some(source.to_owned()),
        clean: front.files[0].clean,
        module: front.module(0),
    }
}

/// The words among some texts that are identifiers.
fn identifiers(texts: &[&str]) -> Vec<String> {
    texts
        .iter()
        .filter(|text| is_word(text))
        .map(|text| (*text).to_owned())
        .collect()
}

// ---------------------------------------------------------------------------------------------
// Programs
// ---------------------------------------------------------------------------------------------

fn url(text: &str) -> Url {
    Url::parse(text).expect("url")
}

fn world_with(documents: &[(&str, &str)]) -> WorldState {
    let mut world = WorldState::new();
    for (uri, source) in documents {
        assert!(world.open_document(url(uri), (*source).to_owned()));
    }
    world
}

const MAIN: &str = "file:///main/main.solc";
const MATH: &str = "file:///main/math.solc";

fn world_with_main(source: &str) -> (WorldState, Url) {
    (world_with(&[(MAIN, source)]), url(MAIN))
}

fn world_with_main_and_math(main: &str, math: &str) -> (WorldState, Url, Url) {
    (world_with(&[(MAIN, main), (MATH, math)]), url(MAIN), url(MATH))
}

fn offset_of(source: &str, text: &str) -> u32 {
    source.find(text).expect("text") as u32
}

fn last_offset_of(source: &str, text: &str) -> u32 {
    source.rfind(text).expect("text") as u32
}

fn position(world: &WorldState, uri: &Url, offset: u32) -> Position {
    world.line_index(uri).expect("line index").byte_to_position(offset)
}

fn range(world: &WorldState, uri: &Url, start: u32, len: usize) -> Range {
    world
        .line_index(uri)
        .expect("line index")
        .range(start, start + len as u32)
}

// ---------------------------------------------------------------------------------------------
// Import edits
// ---------------------------------------------------------------------------------------------

fn path_words(target: &str, name: &str) -> Vec<String> {
    let mut texts: Vec<&str> = target.trim_start_matches('@').split('.').collect();
    texts.push(name);
    identifiers(&texts)
}

fn plan(source: &str, target: &str, name: &str) -> Option<ImportEdit> {
    plan_import_edit(source, &parsed(source), target, name, &path_words(target, name))
}

fn plan_module(source: &str, target: &str) -> Option<ImportEdit> {
    plan_module_import_edit(source, &parsed(source), target, &path_words(target, ""))
}

fn plan_wildcard(source: &str, target: &str) -> Option<ImportEdit> {
    plan_wildcard_import_edit(source, &parsed(source), target, &path_words(target, ""))
}

fn apply(source: &str, edit: &ImportEdit) -> String {
    let start = edit.start as usize;
    let end = edit.end as usize;
    format!("{}{}{}", &source[..start], edit.replacement, &source[end..])
}

#[test]
fn appends_to_matching_selective_import() {
    let source = "import lib.math.{old};\nfunction main() { value; }\n";
    let edit = plan(source, "lib.math", "value").expect("edit");

    assert_eq!(edit.start, edit.end);
    assert_eq!(edit.replacement, ", value");
    assert_eq!(
        apply(source, &edit),
        "import lib.math.{old, value};\nfunction main() { value; }\n"
    );
}

#[test]
fn wildcard_upgrade_preserves_an_existing_selective_import() {
    let source = "import std.dispatch.{NonPayable, SigString};\nfunction main() {}\n";
    let edit = plan_wildcard(source, "std.dispatch").expect("edit");

    assert_eq!(
        apply(source, &edit),
        "import std.dispatch.{NonPayable, SigString, *};\nfunction main() {}\n"
    );
}

#[test]
fn wildcard_import_is_inserted_when_target_is_not_selected() {
    let source = "import std.{*};\nfunction main() {}\n";
    let edit = plan_wildcard(source, "std.dispatch").expect("edit");

    assert_eq!(
        apply(source, &edit),
        "import std.{*};\nimport std.dispatch.{*};\nfunction main() {}\n"
    );
}

#[test]
fn existing_wildcard_import_needs_no_edit() {
    let source = "import std.dispatch.{*};\nfunction main() {}\n";
    assert!(plan_wildcard(source, "std.dispatch").is_none());
}

#[test]
fn appends_after_the_last_alias_without_disturbing_operator_or_hiding() {
    let source =
        "import lib.{(^^), source as local} hiding {hidden};\nfunction main() { value; }\n";
    let edit = plan(source, "lib", "value").expect("edit");

    assert_eq!(
        apply(source, &edit),
        "import lib.{(^^), source as local, value} hiding {hidden};\nfunction main() { value; }\n"
    );
}

#[test]
fn appending_keeps_selector_comments_and_crlf_layout() {
    let source = "import lib.{old // keep old\r\n}; // keep import\r\n\r\nfunction main() { value; }\r\n";
    let edit = plan(source, "lib", "value").expect("edit");

    assert_eq!(
        apply(source, &edit),
        "import lib.{old, value // keep old\r\n}; // keep import\r\n\r\nfunction main() { value; }\r\n"
    );
}

#[test]
fn appending_skips_a_nested_selector_comment() {
    let source =
        "import lib.{old /* outer /* inner */ still outer */};\nfunction main() { value; }\n";
    let edit = plan(source, "lib", "value").expect("edit");

    assert_eq!(
        apply(source, &edit),
        "import lib.{old, value /* outer /* inner */ still outer */};\nfunction main() { value; }\n"
    );
}

#[test]
fn does_not_duplicate_an_existing_unaliased_name() {
    let source = "import lib.{value};\nfunction main() { value; }\n";
    assert!(plan(source, "lib", "value").is_none());
}

#[test]
fn existing_source_alias_gets_a_separate_import() {
    let source = "import lib.{value as renamed};\nfunction main() { value; }\n";
    let edit = plan(source, "lib", "value").expect("edit");

    assert_eq!(
        apply(source, &edit),
        "import lib.{value as renamed};\nimport lib.{value};\nfunction main() { value; }\n"
    );
}

#[test]
fn selector_hiding_the_name_gets_a_separate_import() {
    let source = "import lib.{old} hiding {value};\nfunction main() { value; }\n";
    let edit = plan(source, "lib", "value").expect("edit");

    assert_eq!(
        apply(source, &edit),
        "import lib.{old} hiding {value};\nimport lib.{value};\nfunction main() { value; }\n"
    );
}

#[test]
fn hidden_selected_name_does_not_suppress_a_clean_import() {
    let source = "import lib.{Option} hiding {Option};\nfunction main() { Option; }\n";
    let edit = plan(source, "lib", "Option").expect("edit");

    assert_eq!(
        apply(source, &edit),
        "import lib.{Option} hiding {Option};\nimport lib.{Option};\nfunction main() { Option; }\n"
    );
}

#[test]
fn hidden_aliased_source_does_not_create_a_local_name_collision() {
    let source = "import lib.{Other as Option} hiding {Other};\nfunction main() { Option; }\n";
    let edit = plan(source, "lib", "Option").expect("edit");

    assert_eq!(
        apply(source, &edit),
        "import lib.{Other as Option} hiding {Other};\nimport lib.{Option};\nfunction main() { Option; }\n"
    );
}

#[test]
fn active_alias_still_suppresses_an_ambiguous_selective_import() {
    let source = "import lib.{Other as Option};\nfunction main() { Option; }\n";
    assert!(plan(source, "lib", "Option").is_none());
}

#[test]
fn wildcard_plain_and_module_alias_imports_get_separate_imports() {
    for existing in ["import lib.{*};", "import lib;", "import lib as L;"] {
        let source = format!("{existing}\nfunction main() {{ value; }}\n");
        let edit = plan(&source, "lib", "value").expect("edit");
        assert_eq!(
            apply(&source, &edit),
            format!("{existing}\nimport lib.{{value}};\nfunction main() {{ value; }}\n")
        );
    }
}

#[test]
fn new_import_follows_the_complete_import_block_and_keeps_blank_lines() {
    let source =
        "import first.{a};\nimport second.{b}; // second\n\nfunction main() { value; }\n";
    let edit = plan(source, "lib", "value").expect("edit");

    assert_eq!(
        apply(source, &edit),
        "import first.{a};\nimport second.{b}; // second\nimport lib.{value};\n\nfunction main() { value; }\n"
    );
}

#[test]
fn new_import_does_not_split_a_multiline_trailing_block_comment() {
    let source = "import first.{a}; /* trailing\n   block */\nfunction main() { value; }\n";
    let edit = plan(source, "lib", "value").expect("edit");

    assert_eq!(
        apply(source, &edit),
        "import first.{a}; /* trailing\n   block */\nimport lib.{value};\nfunction main() { value; }\n"
    );
}

#[test]
fn new_import_does_not_split_a_nested_trailing_block_comment() {
    let source = "import first.{a}; /* outer\n  /* inner */\n  still outer */\nfunction main() { value; }\n";
    let edit = plan(source, "lib", "value").expect("edit");

    assert_eq!(
        apply(source, &edit),
        "import first.{a}; /* outer\n  /* inner */\n  still outer */\nimport lib.{value};\nfunction main() { value; }\n"
    );
}

#[test]
fn new_import_preserves_crlf_and_trailing_line_comment() {
    let source = "import first.{a}; // first\r\n\r\nfunction main() { value; }\r\n";
    let edit = plan(source, "lib", "value").expect("edit");

    assert_eq!(
        apply(source, &edit),
        "import first.{a}; // first\r\nimport lib.{value};\r\n\r\nfunction main() { value; }\r\n"
    );
}

#[test]
fn new_import_follows_leading_pragmas() {
    let source = "// license\npragma no-patterson-condition;\n\nfunction main() { value; }\n";
    let edit = plan(source, "lib", "value").expect("edit");

    assert_eq!(
        apply(source, &edit),
        "// license\npragma no-patterson-condition;\nimport lib.{value};\n\nfunction main() { value; }\n"
    );
}

#[test]
fn new_import_follows_header_comments_without_consuming_blank_line() {
    let source = "// Copyright\n/* License */\n\nfunction main() { value; }\n";
    let edit = plan(source, "lib", "value").expect("edit");

    assert_eq!(
        apply(source, &edit),
        "// Copyright\n/* License */\nimport lib.{value};\n\nfunction main() { value; }\n"
    );
}

#[test]
fn new_import_follows_a_complete_nested_header_comment() {
    let source = "/* outer /* inner */ still outer */\n\nfunction main() { value; }\n";
    let edit = plan(source, "lib", "value").expect("edit");

    assert_eq!(
        apply(source, &edit),
        "/* outer /* inner */ still outer */\nimport lib.{value};\n\nfunction main() { value; }\n"
    );
}

#[test]
fn empty_source_gets_a_top_level_import() {
    let edit = plan("", "lib.math", "value").expect("edit");
    let expected = insertion(0, "import lib.math.{value};\n".to_owned());
    assert_eq!((edit.start, edit.end), (expected.start, expected.end));
    assert_eq!(edit.replacement, expected.replacement);
}

#[test]
fn import_at_eof_stays_on_its_own_line() {
    let source = "import first.{a}; // first";
    let edit = plan(source, "lib", "value").expect("edit");
    assert_eq!(
        apply(source, &edit),
        "import first.{a}; // first\nimport lib.{value};"
    );
}

#[test]
fn supports_external_import_paths() {
    let source = "function main() { value; }\n";
    let edit = plan(source, "@dep.util", "value").expect("edit");
    assert_eq!(
        apply(source, &edit),
        "import @dep.util.{value};\nfunction main() { value; }\n"
    );
}

#[test]
fn plans_a_plain_module_import() {
    let source = "function main() { lib.value; }\n";
    let edit = plan_module(source, "lib.math").expect("edit");

    assert_eq!(
        apply(source, &edit),
        "import lib.math;\nfunction main() { lib.value; }\n"
    );
}

#[test]
fn quick_fixes_write_names_in_front_of_paths() {
    let source = "function main() {}\n";
    let words = path_words("@dep.util", "value");
    let fix = |target: &str| plan_module_import_fix(source, &parsed(source), target, &words);
    let name = |target: &str, source: &str| {
        plan_import_fix(source, &parsed(source), target, "value", &words)
    };

    let texts = |edit: Option<ImportEdit>| edit.map(|edit| (edit.start, edit.end, edit.replacement));
    let text = |text: &str| Some((0, 0, text.to_owned()));
    assert_eq!(texts(fix("@dep.util")), text("import * as util from @dep.util;\n"));
    assert_eq!(texts(fix("@dep")), text("import * as dep from @dep;\n"));
    assert_eq!(texts(fix("")), None);
    assert_eq!(texts(name("@dep.util", source)), text("import {value} from @dep.util;\n"));
    let imported = "import {value} from @dep.util;\nfunction main() {}\n";
    assert_eq!(texts(name("@dep.util", imported)), None);
}

#[test]
fn identical_plain_module_import_needs_no_edit() {
    let source = "import lib.math; // already imported\nfunction main() { lib.value; }\n";
    assert!(plan_module(source, "lib.math").is_none());
}

#[test]
fn selected_wildcard_and_aliased_imports_do_not_count_as_plain() {
    for existing in [
        "import lib.math.{value};",
        "import lib.math.{other} hiding {other};",
        "import lib.math.{*};",
        "import lib.math as Math;",
    ] {
        let source = format!("{existing}\nfunction main() {{ lib.value; }}\n");
        let edit =
            plan_module(&source, "lib.math").unwrap_or_else(|| panic!("edit for {existing}"));
        assert_eq!(
            apply(&source, &edit),
            format!("{existing}\nimport lib.math;\nfunction main() {{ lib.value; }}\n")
        );
    }
}

#[test]
fn plain_module_import_preserves_crlf_after_nested_trailing_comment() {
    let source = "import first; /* outer\r\n  /* inner */\r\n  still outer */\r\n\r\nfunction main() { lib.value; }\r\n";
    let edit = plan_module(source, "lib.math").expect("edit");

    assert_eq!(
        apply(source, &edit),
        "import first; /* outer\r\n  /* inner */\r\n  still outer */\r\nimport lib.math;\r\n\r\nfunction main() { lib.value; }\r\n"
    );
}

#[test]
fn plain_module_import_follows_nested_header_comments() {
    let source =
        "/* license /* generated detail */ remains */\n\nfunction main() { lib.value; }\n";
    let edit = plan_module(source, "@dep.math").expect("edit");

    assert_eq!(
        apply(source, &edit),
        "/* license /* generated detail */ remains */\nimport @dep.math;\n\nfunction main() { lib.value; }\n"
    );
}

#[test]
fn plain_module_import_rejects_invalid_paths_and_stale_metadata() {
    let source = "function main() { lib.value; }\n";
    assert!(plan_module(source, "lib; export secret").is_none());
    assert!(plan_module(source, "").is_none());

    let parsed = parsed(source);
    let words = identifiers(&["lib", "math", "value"]);

    assert!(plan_module_import_edit("function main() {}\n", &parsed, "lib.math", &words).is_none());
}

#[test]
fn rejects_malformed_source_and_invalid_generated_syntax() {
    assert!(plan("import lib.{", "lib", "value").is_none());
    assert!(plan("function main() {}\n", "lib; export secret", "value").is_none());
    assert!(plan("function main() {}\n", "lib", "two names").is_none());
    assert!(plan("function main() {}\n", "", "value").is_none());
}

#[test]
fn rejects_stale_parse_metadata() {
    let source = "function main() { value; }\n";
    let parsed = parsed(source);
    let words = identifiers(&["lib", "math", "value"]);

    assert!(plan_import_edit("function main() {}\n", &parsed, "lib", "value", &words).is_none());
}

// ---------------------------------------------------------------------------------------------
// Folding and selection
// ---------------------------------------------------------------------------------------------

#[test]
fn folds_imports_comments_items_and_nested_blocks() {
    let source = "// first\n// second\nimport * as alpha from alpha;\nimport * as beta from beta;\n\n/* block\n   comment */\ncontract Box {\n  function get() returns (word) {\n    if (true) {\n      return 1;\n    }\n  }\n}\n";
    let (world, uri) = world_with_main(source);
    let module = parsed(source).module;
    let folds = handle_folding_range(&world, &uri, Some(&module)).expect("folding ranges");

    assert!(folds.iter().any(|fold| {
        fold.kind == Some(FoldingRangeKind::Comment) && fold.start_line == 0 && fold.end_line == 1
    }));
    assert!(folds.iter().any(|fold| {
        fold.kind == Some(FoldingRangeKind::Imports) && fold.start_line == 2 && fold.end_line == 3
    }));
    assert!(folds
        .iter()
        .any(|fold| fold.start_line == 7 && fold.end_line == 13));
    assert!(folds
        .iter()
        .any(|fold| fold.start_line == 9 && fold.end_line == 11));
}

#[test]
fn lexical_folding_ignores_delimiters_in_unicode_strings_and_comments() {
    let source = "function main() {\n  let label = \"😀 { not a block }\";\n  /* { ignored } */\n  {\n    return 1;\n  }\n}\n";
    let (world, uri) = world_with_main(source);
    let module = parsed(source).module;
    let folds = handle_folding_range(&world, &uri, Some(&module)).expect("folding ranges");

    assert_eq!(
        folds
            .iter()
            .filter(|fold| fold.kind.is_none())
            .map(|fold| (fold.start_line, fold.end_line))
            .collect::<Vec<_>>(),
        vec![(0, 6), (3, 5)]
    );
}

#[test]
fn malformed_source_still_returns_balanced_inner_blocks() {
    let source = "function main() {\n  {\n    return 1;\n  }\n";
    let (world, uri) = world_with_main(source);
    let module = parsed(source).module;
    let folds = handle_folding_range(&world, &uri, Some(&module)).expect("folding ranges");

    assert!(folds
        .iter()
        .any(|fold| fold.start_line == 1 && fold.end_line == 3));
}

#[test]
fn nested_blocks_with_the_same_line_extent_remain_distinct() {
    let source = "function main() { if (true) {\n  return 1;\n} }\n";
    let (world, uri) = world_with_main(source);
    let module = parsed(source).module;
    let folds = handle_folding_range(&world, &uri, Some(&module)).expect("folding ranges");
    let structural = folds
        .iter()
        .filter(|fold| fold.kind.is_none() && fold.start_line == 0 && fold.end_line == 2)
        .collect::<Vec<_>>();

    assert_eq!(structural.len(), 2);
    assert_ne!(structural[0].start_character, structural[1].start_character);
}

#[test]
fn unknown_document_has_no_folding_result() {
    let world = WorldState::new();
    let uri = url("file:///main/missing.solc");
    assert!(handle_folding_range(&world, &uri, None).is_none());
}

fn chain(selection: &SelectionRange) -> Vec<Range> {
    let mut ranges = Vec::new();
    let mut current = Some(selection);
    while let Some(selection) = current {
        ranges.push(selection.range);
        current = selection.parent.as_deref();
    }
    ranges
}

#[test]
fn builds_unicode_safe_leaf_to_module_chain() {
    let source = "function main(value: word) returns (word) {\n  let café = (value + 1);\n  return café;\n}\n";
    let (world, uri) = world_with_main(source);
    let module = parsed(source).module;
    let line_index = world.line_index(&uri).expect("line index");
    let leaf_start = source.find("café").expect("unicode identifier");
    let position = line_index.byte_to_position((leaf_start + "caf".len()) as u32);

    let selections =
        handle_selection_range(&world, &uri, &[position], Some(&module)).expect("selection range");
    let ranges = chain(&selections[0]);

    assert_eq!(
        ranges[0],
        line_index.range(leaf_start as u32, (leaf_start + "café".len()) as u32)
    );
    assert_eq!(
        *ranges.last().expect("module range"),
        line_index.range(0, source.len() as u32)
    );
    for pair in ranges.windows(2) {
        let inner_start = line_index.position_to_byte(pair[0].start).unwrap();
        let inner_end = line_index.position_to_byte(pair[0].end).unwrap();
        let outer_start = line_index.position_to_byte(pair[1].start).unwrap();
        let outer_end = line_index.position_to_byte(pair[1].end).unwrap();
        assert!(outer_start <= inner_start && inner_end <= outer_end);
    }
    assert!(
        ranges.len() >= 4,
        "expected leaf, syntax/line, item, module"
    );
}

#[test]
fn preserves_position_order_and_supports_incomplete_syntax() {
    let source = "function main() {\n  let x = (1 + 2);\n  { x; }\n";
    let (world, uri) = world_with_main(source);
    let module = parsed(source).module;
    let index = world.line_index(&uri).unwrap();
    let one = index.byte_to_position(source.find('1').unwrap() as u32);
    let x = index.byte_to_position(source.rfind('x').unwrap() as u32);

    let selections = handle_selection_range(&world, &uri, &[one, x], Some(&module)).unwrap();
    assert_eq!(selections.len(), 2);
    assert_eq!(
        selections[0].range,
        index.range(
            source.find('1').unwrap() as u32,
            source.find('1').unwrap() as u32 + 1
        )
    );
    assert_eq!(
        selections[1].range,
        index.range(
            source.rfind('x').unwrap() as u32,
            source.rfind('x').unwrap() as u32 + 1
        )
    );
}

#[test]
fn overlapping_source_line_does_not_hide_multiline_call_selection() {
    let source = "\
function main() returns (word) {
  let x = add(
    1,
    2); // trailing
  return x;
}
";
    let (world, uri) = world_with_main(source);
    let module = parsed(source).module;
    let position = Position::new(3, 4);
    let ranges =
        handle_selection_range(&world, &uri, &[position], Some(&module)).expect("selection ranges");

    assert!(chain(&ranges[0]).contains(&Range::new(Position::new(1, 13), Position::new(3, 6))));
}

#[test]
fn leaf_ranges_follow_identifier_and_operator_token_boundaries() {
    let source = "pragma solcore noBoundVariableCondition;\nfunction main() returns (word) {\n  let value = 1;\n  return value-1;\n}\n";
    let (world, uri) = world_with_main(source);
    let module = parsed(source).module;
    let index = world.line_index(&uri).unwrap();
    let pragma = source.find("noBoundVariableCondition").unwrap();
    let value = source.rfind("value-1").unwrap();
    let positions = [
        index.byte_to_position((pragma + 3) as u32),
        index.byte_to_position((value + 2) as u32),
    ];

    let selections = handle_selection_range(&world, &uri, &positions, Some(&module)).unwrap();
    assert_eq!(
        selections[0].range,
        index.range(
            pragma as u32,
            (pragma + "noBoundVariableCondition".len()) as u32
        )
    );
    assert_eq!(
        selections[1].range,
        index.range(value as u32, (value + "value".len()) as u32)
    );
}

#[test]
fn rejects_out_of_range_and_mid_surrogate_positions() {
    let source = "// 😀\n";
    let (world, uri) = world_with_main(source);
    let module = parsed(source).module;

    for position in [Position::new(99, 0), Position::new(0, 4)] {
        assert!(handle_selection_range(&world, &uri, &[position], Some(&module)).is_none());
    }
}

#[test]
fn empty_position_list_and_unknown_documents_are_handled() {
    let (world, uri) = world_with_main("");
    let selections = handle_selection_range(&world, &uri, &[], None).expect("selections");
    assert!(selections.is_empty());

    let missing = url("file:///main/missing.solc");
    assert!(handle_selection_range(&world, &missing, &[], None).is_none());
}

// ---------------------------------------------------------------------------------------------
// Definitions, references and highlights
// ---------------------------------------------------------------------------------------------

fn scalar_definition(world: &WorldState, uri: &Url, offset: u32) -> Location {
    handle_definition(world, &analyse(world), uri, position(world, uri, offset)).expect("definition")
}

#[test]
fn definition_of_parameter_use_points_to_parameter_name() {
    let source = "function id(x: word) -> word {\n  return x;\n}\n";
    let (world, uri) = world_with_main(source);
    let use_offset = offset_of(source, "return x") + "return ".len() as u32;
    let param_offset = offset_of(source, "x: word");

    let location = scalar_definition(&world, &uri, use_offset);

    assert_eq!(location.uri, uri);
    assert_eq!(location.range, range(&world, &uri, param_offset, 1));
}

#[test]
fn definition_of_import_selector_name_points_to_imported_declaration() {
    let main = "import math.{double};\nfunction main() -> word { return double(21); }\n";
    let math = "function double(x: word) -> word { return x + x; }\nexport { double };\n";
    let (world, main_uri, math_uri) = world_with_main_and_math(main, math);

    let location = scalar_definition(&world, &main_uri, offset_of(main, "double"));

    assert_eq!(location.uri, math_uri);
    assert_eq!(
        location.range,
        range(&world, &math_uri, offset_of(math, "double"), "double".len())
    );
}

#[test]
fn definition_in_embedded_std_is_not_returned_as_an_unopenable_uri() {
    let source = "import std.{addWord};\nfunction main() -> word { return addWord(1, 2); }\n";
    let (world, uri) = world_with_main(source);
    let call = last_offset_of(source, "addWord");

    assert!(handle_definition(&world, &analyse(&world), &uri, position(&world, &uri, call)).is_none());
}

#[test]
fn definition_of_cross_file_type_ref_points_to_type_declaration() {
    let main = "\
import models.{Box};
function wrap(value: word) -> Box {
  let boxed: Box = Box(value);
  return boxed;
}
";
    let models = "data Box = Box(word);\nexport { Box };\n";
    let models_uri = url("file:///main/models.solc");
    let world = world_with(&[(MAIN, main), ("file:///main/models.solc", models)]);
    let type_ref = offset_of(main, "boxed: Box") + "boxed: ".len() as u32;

    let location = scalar_definition(&world, &url(MAIN), type_ref);

    assert_eq!(location.uri, models_uri);
    assert_eq!(
        location.range,
        range(&world, &models_uri, offset_of(models, "Box"), "Box".len())
    );
}

#[test]
fn definition_on_type_declaration_points_to_itself() {
    let source = "data Choice = Left | Right;\n";
    let (world, uri) = world_with_main(source);
    let declaration = offset_of(source, "Choice");

    let location = scalar_definition(&world, &uri, declaration);

    assert_eq!(location.uri, uri);
    assert_eq!(
        location.range,
        range(&world, &uri, declaration, "Choice".len())
    );
}

#[test]
fn definition_of_predicate_points_to_class_declaration() {
    let source = "\
forall a. class a:Comparable {
  function compare(x: a, y: a) -> word;
}

forall a. a:Comparable =>
function keep(x: a) -> a { return x; }
";
    let (world, uri) = world_with_main(source);
    let declaration = offset_of(source, "Comparable");
    let predicate = last_offset_of(source, "Comparable");

    let location = scalar_definition(&world, &uri, predicate);

    assert_eq!(location.uri, uri);
    assert_eq!(
        location.range,
        range(&world, &uri, declaration, "Comparable".len())
    );
}

#[test]
fn definition_of_constructor_pattern_points_to_constructor_declaration() {
    let source = "\
data Choice = Left(word) | Right;

function unwrap(value: Choice) -> word {
  match value {
  | Choice.Left(x) => return x;
  | Choice.Right => return 0;
  }
}
";
    let (world, uri) = world_with_main(source);
    let declaration = offset_of(source, "Left");
    let pattern = last_offset_of(source, "Left");

    let location = scalar_definition(&world, &uri, pattern);

    assert_eq!(location.uri, uri);
    assert_eq!(location.range, range(&world, &uri, declaration, "Left".len()));
}

#[test]
fn definition_of_import_path_and_module_qualifier_points_to_module_start() {
    let main = "import foo.bar;\nfunction main() -> word { return foo.bar.value(); }\n";
    let bar = "export { value };\nfunction value() -> word { return 7; }\n";
    let bar_uri = url("file:///main/foo/bar.solc");
    let world = world_with(&[(MAIN, main), ("file:///main/foo/bar.solc", bar)]);
    let expected = range(&world, &bar_uri, 0, 0);
    let import_foo = offset_of(main, "foo.bar");
    let import_bar = import_foo + "foo.".len() as u32;
    let qualifier_foo = last_offset_of(main, "foo.bar");
    let qualifier_bar = qualifier_foo + "foo.".len() as u32;

    for offset in [import_foo, import_bar, qualifier_foo, qualifier_bar] {
        let location = scalar_definition(&world, &url(MAIN), offset);
        assert_eq!(location.uri, bar_uri, "offset {offset}");
        assert_eq!(location.range, expected, "offset {offset}");
    }
}

#[test]
fn definition_of_exact_module_qualifier_wins_over_shared_navigation_origin() {
    let main = "import foo.bar;\nimport foo;\nfunction main() -> word { return foo.value(); }\n";
    let foo = "export { value };\nfunction value() -> word { return 1; }\n";
    let bar = "export { value };\nfunction value() -> word { return 2; }\n";
    let foo_uri = url("file:///main/foo.solc");
    let world = world_with(&[
        (MAIN, main),
        ("file:///main/foo.solc", foo),
        ("file:///main/foo/bar.solc", bar),
    ]);
    let qualifier = last_offset_of(main, "foo.value");

    let location = scalar_definition(&world, &url(MAIN), qualifier);

    assert_eq!(location.uri, foo_uri);
    assert_eq!(location.range, range(&world, &foo_uri, 0, 0));
}

#[test]
fn parameter_highlights_declaration_and_uses_in_current_file() {
    let source = "function id(x: word) -> word {\n  let y = x;\n  return x;\n}\n";
    let (world, uri) = world_with_main(source);
    let first_use = offset_of(source, "let y = x") + "let y = ".len() as u32;
    let second_use = offset_of(source, "return x") + "return ".len() as u32;
    let declaration = offset_of(source, "x: word");

    let highlights = handle_document_highlight(
        &world,
        &analyse(&world),
        &uri,
        position(&world, &uri, first_use),
    )
    .expect("document highlights");

    assert_eq!(
        highlights
            .iter()
            .map(|highlight| (highlight.range, highlight.kind))
            .collect::<Vec<_>>(),
        vec![
            (range(&world, &uri, declaration, 1), Some(DocumentHighlightKind::Text)),
            (range(&world, &uri, first_use, 1), Some(DocumentHighlightKind::Text)),
            (range(&world, &uri, second_use, 1), Some(DocumentHighlightKind::Text)),
        ]
    );
}

#[test]
fn whitespace_returns_none() {
    let source = "function id(x: word) -> word {\n  let y = x;\n  return x;\n}\n";
    let (world, uri) = world_with_main(source);
    let whitespace = offset_of(source, "let y = x") + "let".len() as u32;

    assert!(handle_document_highlight(
        &world,
        &analyse(&world),
        &uri,
        position(&world, &uri, whitespace)
    )
    .is_none());
}

fn ranges_for_uri(locations: &[Location], uri: &Url) -> Vec<Range> {
    assert!(locations.iter().all(|location| location.uri == *uri));
    locations.iter().map(|location| location.range).collect()
}

fn ranges_for_uri_filtered(locations: &[Location], uri: &Url) -> Vec<Range> {
    locations
        .iter()
        .filter(|location| location.uri == *uri)
        .map(|location| location.range)
        .collect()
}

#[test]
fn parameter_references_include_uses_and_optional_declaration() {
    let source = "function id(x: word) -> word {\n  let y = x;\n  return x;\n}\n";
    let (world, uri) = world_with_main(source);
    let analysis = analyse(&world);
    let first_use = offset_of(source, "let y = x") + "let y = ".len() as u32;
    let second_use = offset_of(source, "return x") + "return ".len() as u32;
    let declaration = offset_of(source, "x: word");
    let position = position(&world, &uri, first_use);

    let references =
        handle_references(&world, &analysis, &uri, position, false).expect("references");
    assert_eq!(
        ranges_for_uri(&references, &uri),
        vec![
            range(&world, &uri, first_use, 1),
            range(&world, &uri, second_use, 1),
        ]
    );

    let references = handle_references(&world, &analysis, &uri, position, true)
        .expect("references with declaration");
    assert_eq!(
        ranges_for_uri(&references, &uri),
        vec![
            range(&world, &uri, declaration, 1),
            range(&world, &uri, first_use, 1),
            range(&world, &uri, second_use, 1),
        ]
    );
}

#[test]
fn top_level_function_declaration_finds_call_site() {
    let source = "\
function target() -> word {
  return 1;
}

function caller() -> word {
  return target();
}
";
    let (world, uri) = world_with_main(source);
    let declaration = offset_of(source, "target");
    let call = last_offset_of(source, "target");

    let references = handle_references(
        &world,
        &analyse(&world),
        &uri,
        position(&world, &uri, declaration),
        false,
    )
    .expect("references");
    assert_eq!(
        ranges_for_uri(&references, &uri),
        vec![range(&world, &uri, call, "target".len())]
    );
}

#[test]
fn import_and_export_names_are_references_to_exported_item() {
    let main = "import math.{double};\nfunction main() -> word { return double(21); }\n";
    let math = "function double(x: word) -> word { return x + x; }\nexport { double };\n";
    let (world, main_uri, math_uri) = world_with_main_and_math(main, math);
    let import = offset_of(main, "double");
    let call = last_offset_of(main, "double");
    let declaration = offset_of(math, "double");
    let export = last_offset_of(math, "double");

    let references = handle_references(
        &world,
        &analyse(&world),
        &main_uri,
        position(&world, &main_uri, call),
        true,
    )
    .expect("references");

    assert_eq!(
        ranges_for_uri_filtered(&references, &main_uri),
        vec![
            range(&world, &main_uri, import, "double".len()),
            range(&world, &main_uri, call, "double".len()),
        ]
    );
    assert_eq!(
        ranges_for_uri_filtered(&references, &math_uri),
        vec![
            range(&world, &math_uri, declaration, "double".len()),
            range(&world, &math_uri, export, "double".len()),
        ]
    );
}

// ---------------------------------------------------------------------------------------------
// Renaming
// ---------------------------------------------------------------------------------------------

fn rename(world: &WorldState, uri: &Url, offset: u32, new_name: &str) -> Option<Vec<DocumentEdits>> {
    handle_rename(
        world,
        &analyse(world),
        uri,
        position(world, uri, offset),
        new_name,
        &identifiers(&[new_name]),
    )
    .map(|edit| edit.changes)
}

fn prepare_rename(world: &WorldState, uri: &Url, offset: u32) -> Option<Range> {
    handle_prepare_rename(world, &analyse(world), uri, position(world, uri, offset))
}

fn edited(changes: &[DocumentEdits], uri: &Url) -> Option<Vec<Range>> {
    changes
        .iter()
        .find(|document| document.uri == *uri)
        .map(|document| document.edits.iter().map(|edit| edit.range).collect())
}

fn all_texts_are(changes: &[DocumentEdits], text: &str) -> bool {
    changes
        .iter()
        .all(|document| document.edits.iter().all(|edit| edit.new_text == text))
}

#[test]
fn renaming_parameter_edits_declaration_and_uses() {
    let source = "function id(x: word) -> word {\n  let y = x;\n  return x;\n}\n";
    let (world, uri) = world_with_main(source);
    let declaration = offset_of(source, "x: word");
    let first_use = offset_of(source, "let y = x") + "let y = ".len() as u32;
    let second_use = offset_of(source, "return x") + "return ".len() as u32;

    let changes = rename(&world, &uri, first_use, "renamed").expect("rename edit");

    assert!(all_texts_are(&changes, "renamed"));
    assert_eq!(
        edited(&changes, &uri),
        Some(vec![
            range(&world, &uri, declaration, 1),
            range(&world, &uri, first_use, 1),
            range(&world, &uri, second_use, 1),
        ])
    );
}

#[test]
fn prepare_rename_returns_user_symbol_range_but_not_builtin_or_keyword() {
    let source = "function id(x: word) -> word {\n  return x;\n}\n";
    let (world, uri) = world_with_main(source);
    let use_offset = offset_of(source, "return x") + "return ".len() as u32;

    assert_eq!(
        prepare_rename(&world, &uri, use_offset),
        Some(range(&world, &uri, use_offset, 1))
    );
    assert_eq!(prepare_rename(&world, &uri, offset_of(source, "word")), None);
    assert_eq!(prepare_rename(&world, &uri, offset_of(source, "return")), None);
}

#[test]
fn the_range_that_a_rename_offers_is_one_that_it_edits() {
    let source = "function id(x: word) -> word {\n  let y = x;\n  return y;\n}\n";
    let (world, uri) = world_with_main(source);

    let mut offered = 0;
    for offset in 0..source.len() as u32 {
        if let Some(range) = prepare_rename(&world, &uri, offset) {
            let changes = rename(&world, &uri, offset, "renamed").expect("rename edit");
            assert!(edited(&changes, &uri).expect("edits").contains(&range));
            offered += 1;
        }
    }
    assert_eq!(offered, "id".len() + "x".len() * 2 + "y".len() * 2);
}

#[test]
fn renamed_places_of_a_document_are_edited_once_and_in_order() {
    let math = "function double(x: word) -> word { return x; }\nexport { double };\n";
    let main = "import math.{double};\nfunction main() -> word { return double(double(1)); }\n";
    let world = world_with(&[(MATH, math), (MAIN, main)]);
    let changes =
        rename(&world, &url(MAIN), offset_of(main, "double(double"), "twice").expect("rename edit");

    let uris: Vec<&str> = changes.iter().map(|document| document.uri.as_str()).collect();
    assert_eq!(uris, [MAIN, MATH]);
    for document in &changes {
        for pair in document.edits.windows(2) {
            let (end, start) = (pair[0].range.end, pair[1].range.start);
            assert!((end.line, end.character) <= (start.line, start.character));
        }
    }
    assert_eq!(edited(&changes, &url(MAIN)).expect("edits").len(), 3);
    assert_eq!(edited(&changes, &url(MATH)).expect("edits").len(), 2);
}

#[test]
fn rename_rejects_invalid_new_name() {
    let source = "function id(x: word) -> word {\n  return x;\n}\n";
    let (world, uri) = world_with_main(source);
    let use_offset = offset_of(source, "return x") + "return ".len() as u32;

    for invalid in ["1bad", "", "return", "bad-name", "_bad"] {
        assert!(rename(&world, &uri, use_offset, invalid).is_none(), "{invalid}");
    }
    assert!(rename(&world, &uri, use_offset, "λvalue").is_some());
}

#[test]
fn renaming_exported_function_edits_import_and_export_names() {
    let main = "import math.{double};\nfunction main() -> word { return double(21); }\n";
    let math = "function double(x: word) -> word { return x + x; }\nexport { double };\n";
    let (world, main_uri, math_uri) = world_with_main_and_math(main, math);
    let call = last_offset_of(main, "double");

    let changes = rename(&world, &main_uri, call, "twice").expect("rename edit");

    assert!(all_texts_are(&changes, "twice"));
    assert_eq!(
        edited(&changes, &main_uri),
        Some(vec![
            range(&world, &main_uri, offset_of(main, "double"), "double".len()),
            range(&world, &main_uri, call, "double".len()),
        ])
    );
    assert_eq!(
        edited(&changes, &math_uri),
        Some(vec![
            range(&world, &math_uri, offset_of(math, "double"), "double".len()),
            range(&world, &math_uri, last_offset_of(math, "double"), "double".len()),
        ])
    );
}

#[test]
fn embedded_std_symbol_is_not_offered_for_rename() {
    let source = "import std.{addWord};\nfunction main() -> word { return addWord(1, 2); }\n";
    let (world, uri) = world_with_main(source);
    let call = last_offset_of(source, "addWord");

    assert_eq!(prepare_rename(&world, &uri, call), None);
    assert!(rename(&world, &uri, call, "sumWords").is_none());
}

#[test]
fn renaming_exported_function_from_defining_module_edits_importer() {
    let main = "import math.{double};\nfunction main() -> word { return double(21); }\n";
    let math = "\
function double(x: word) -> word { return x + x; }
function local() -> word { return double(2); }
export { double };
";
    let world = world_with(&[(MATH, math), (MAIN, main)]);
    let (main_uri, math_uri) = (url(MAIN), url(MATH));
    let local_call = offset_of(math, "double(2)");

    let changes = rename(&world, &math_uri, local_call, "twice").expect("rename edit");

    assert!(all_texts_are(&changes, "twice"));
    assert_eq!(
        edited(&changes, &main_uri),
        Some(vec![
            range(&world, &main_uri, offset_of(main, "double"), "double".len()),
            range(&world, &main_uri, last_offset_of(main, "double"), "double".len()),
        ])
    );
    assert_eq!(
        edited(&changes, &math_uri),
        Some(vec![
            range(&world, &math_uri, offset_of(math, "double"), "double".len()),
            range(&world, &math_uri, local_call, "double".len()),
            range(&world, &math_uri, last_offset_of(math, "double"), "double".len()),
        ])
    );
}

#[test]
fn renaming_selected_import_alias_only_edits_local_alias_uses() {
    let main = "import math.{double as twice};\nfunction main() -> word { return twice(21); }\n";
    let math = "function double(x: word) -> word { return x; }\nexport { double };\n";
    let (world, main_uri, math_uri) = world_with_main_and_math(main, math);
    let use_offset = last_offset_of(main, "twice");

    let changes = rename(&world, &main_uri, use_offset, "applyTwice").expect("alias rename");

    assert_eq!(edited(&changes, &math_uri), None);
    assert_eq!(
        edited(&changes, &main_uri),
        Some(vec![
            range(&world, &main_uri, offset_of(main, "twice"), "twice".len()),
            range(&world, &main_uri, use_offset, "twice".len()),
        ])
    );
}

#[test]
fn renaming_explicit_module_alias_edits_alias_and_qualifiers() {
    let main = "import math as M;\nfunction main() -> word { return M.value(); }\n";
    let math = "function value() -> word { return 1; }\nexport { value };\n";
    let (world, main_uri, _) = world_with_main_and_math(main, math);
    let use_offset = last_offset_of(main, "M.value");

    let changes = rename(&world, &main_uri, use_offset, "Math").expect("module alias rename");

    assert_eq!(
        edited(&changes, &main_uri),
        Some(vec![
            range(&world, &main_uri, offset_of(main, "M;"), 1),
            range(&world, &main_uri, use_offset, 1),
        ])
    );
}

#[test]
fn renaming_module_alias_updates_type_and_pattern_qualifiers() {
    let main = "\
import math as M;
function unwrap(token: M.Token) -> word {
  match token {
  | M.Token.Ok(value) => return value;
  | M.Token.Err(value) => return value;
  }
}
";
    let model = "data Token = Ok(word) | Err(word);\nexport { Token(Ok, Err) };\n";
    let (world, main_uri, _) = world_with_main_and_math(main, model);
    let type_qualifier = offset_of(main, "M.Token");

    let changes = rename(&world, &main_uri, type_qualifier, "Model").expect("module alias rename");

    assert_eq!(
        edited(&changes, &main_uri),
        Some(vec![
            range(&world, &main_uri, offset_of(main, "M;"), 1),
            range(&world, &main_uri, type_qualifier, 1),
            range(&world, &main_uri, offset_of(main, "M.Token.Ok"), 1),
            range(&world, &main_uri, offset_of(main, "M.Token.Err"), 1),
        ])
    );
}

#[test]
fn exported_selected_alias_is_not_offered_an_incomplete_text_rename() {
    let main = "\
import math.{double as twice};
export { twice };
function main() -> word { return twice(21); }
";
    let math = "function double(x: word) -> word { return x; }\nexport { double };\n";
    let (world, main_uri, _) = world_with_main_and_math(main, math);
    let use_offset = last_offset_of(main, "twice");

    assert_eq!(prepare_rename(&world, &main_uri, use_offset), None);
    assert!(rename(&world, &main_uri, use_offset, "thrice").is_none());
}

#[test]
fn renaming_exported_module_alias_updates_downstream_qualifiers() {
    let util = "function value() -> word { return 1; }\nexport { value };\n";
    let facade = "export util as Tools;\n";
    let main = "import facade;\nfunction main() -> word { return facade.Tools.value(); }\n";
    let consumer = "import facade;\nfunction consume() -> word { return facade.Tools.value(); }\n";
    let world = world_with(&[
        ("file:///main/util.solc", util),
        ("file:///main/facade.solc", facade),
        (MAIN, main),
        ("file:///main/consumer.solc", consumer),
    ]);
    let facade_uri = url("file:///main/facade.solc");
    let consumer_uri = url("file:///main/consumer.solc");
    let main_uri = url(MAIN);
    let qualifier = offset_of(main, "Tools");

    let changes =
        rename(&world, &main_uri, qualifier, "Helpers").expect("exported module alias rename");

    assert_eq!(
        edited(&changes, &facade_uri),
        Some(vec![range(&world, &facade_uri, offset_of(facade, "Tools"), 5)])
    );
    assert_eq!(
        edited(&changes, &main_uri),
        Some(vec![range(&world, &main_uri, qualifier, 5)])
    );
    assert_eq!(
        edited(&changes, &consumer_uri),
        Some(vec![range(&world, &consumer_uri, offset_of(consumer, "Tools"), 5)])
    );
    assert!(all_texts_are(&changes, "Helpers"));
}

#[test]
fn source_definition_rename_is_rejected_across_exported_selected_alias() {
    let math = "function double(x: word) -> word { return x; }\nexport { double };\n";
    let bridge = "import math.{double as twice};\nexport { twice };\n";
    let main = "import bridge.{twice};\nfunction main() -> word { return twice(1); }\n";
    let world = world_with(&[(MATH, math), ("file:///main/bridge.solc", bridge), (MAIN, main)]);
    let declaration = offset_of(math, "double");

    assert_eq!(prepare_rename(&world, &url(MATH), declaration), None);
    assert!(rename(&world, &url(MATH), declaration, "timesTwo").is_none());
}

fn two_roots(name: &str) -> (Url, Url) {
    (
        url(&format!("file:///tmp/{name}/left/")),
        url(&format!("file:///tmp/{name}/right/")),
    )
}

#[test]
fn multi_root_rename_never_edits_same_spelling_in_another_root() {
    let (left_root, right_root) = two_roots("solcore-lsp-rename-multi-root");
    let left_main = url("file:///tmp/solcore-lsp-rename-multi-root/left/main.solc");
    let left_math = url("file:///tmp/solcore-lsp-rename-multi-root/left/math.solc");
    let right_main = url("file:///tmp/solcore-lsp-rename-multi-root/right/main.solc");
    let right_math = url("file:///tmp/solcore-lsp-rename-multi-root/right/math.solc");
    let left_source = "import lib.math.{value};\nfunction left() -> word { return value(); }\n";
    let right_source = "import lib.math.{value};\nfunction right() -> word { return value(); }\n";
    let left_library = "function value() -> word { return 1; }\nexport { value };\n";
    let right_library = "function value() -> word { return 2; }\nexport { value };\n";
    let mut world = WorldState::new();
    world.load_workspace_roots(vec![
        (
            left_root,
            vec![
                (left_main.clone(), left_source.to_owned()),
                (left_math.clone(), left_library.to_owned()),
            ],
        ),
        (
            right_root,
            vec![
                (right_main.clone(), right_source.to_owned()),
                (right_math.clone(), right_library.to_owned()),
            ],
        ),
    ]);
    assert!(world.open_document(left_main.clone(), left_source.to_owned()));

    let changes = rename(&world, &left_main, last_offset_of(left_source, "value"), "renamed")
        .expect("left rename");

    assert_eq!(changes.len(), 2);
    assert!(edited(&changes, &left_main).is_some());
    assert!(edited(&changes, &left_math).is_some());
    assert!(edited(&changes, &right_main).is_none());
    assert!(edited(&changes, &right_math).is_none());
}

#[test]
fn renaming_exported_module_alias_updates_unaliased_reexport_chain() {
    let util = "function value() -> word { return 1; }\nexport { value };\n";
    let facade = "export util as Tools;\n";
    let bridge = "export facade;\n";
    let main = "import bridge;\nfunction main() -> word { return bridge.facade.Tools.value(); }\n";
    let world = world_with(&[
        ("file:///main/util.solc", util),
        ("file:///main/facade.solc", facade),
        ("file:///main/bridge.solc", bridge),
        (MAIN, main),
    ]);
    let facade_uri = url("file:///main/facade.solc");
    let main_uri = url(MAIN);
    let use_offset = offset_of(main, "Tools");

    let changes =
        rename(&world, &main_uri, use_offset, "Helpers").expect("transitive module alias rename");

    assert_eq!(
        edited(&changes, &facade_uri),
        Some(vec![range(&world, &facade_uri, offset_of(facade, "Tools"), 5)])
    );
    assert_eq!(edited(&changes, &url("file:///main/bridge.solc")), None);
    assert_eq!(
        edited(&changes, &main_uri),
        Some(vec![range(&world, &main_uri, use_offset, 5)])
    );
}

#[test]
fn default_module_reexport_without_alias_is_not_text_renameable() {
    let util = "function value() -> word { return 1; }\nexport { value };\n";
    let facade = "export util;\n";
    let main = "import facade;\nfunction main() -> word { return facade.util.value(); }\n";
    let world = world_with(&[
        ("file:///main/util.solc", util),
        ("file:///main/facade.solc", facade),
        (MAIN, main),
    ]);
    let module = offset_of(main, "util");

    assert_eq!(prepare_rename(&world, &url(MAIN), module), None);
    assert!(rename(&world, &url(MAIN), module, "tools").is_none());
}

#[test]
fn renaming_constructor_updates_import_and_export_selectors() {
    let main = "import model.{Token};\nfunction make(x: word) -> Token { return Token.Ok(x); }\n";
    let model = "data Token = Ok(word) | Err(word);\nexport { Token(Ok, Err) };\n";
    let world = world_with(&[(MAIN, main), ("file:///main/model.solc", model)]);
    let (main_uri, model_uri) = (url(MAIN), url("file:///main/model.solc"));
    let use_ctor = last_offset_of(main, "Ok");

    let changes = rename(&world, &main_uri, use_ctor, "Success").expect("constructor rename");

    assert_eq!(
        edited(&changes, &main_uri),
        Some(vec![range(&world, &main_uri, use_ctor, 2)])
    );
    assert_eq!(
        edited(&changes, &model_uri),
        Some(vec![
            range(&world, &model_uri, offset_of(model, "Ok"), 2),
            range(&world, &model_uri, last_offset_of(model, "Ok"), 2),
        ])
    );
}

// ---------------------------------------------------------------------------------------------
// Hover, hints and signatures
// ---------------------------------------------------------------------------------------------

fn hover_at(world: &WorldState, uri: &Url, offset: u32) -> Hover {
    handle_hover(world, &analyse(world), uri, position(world, uri, offset)).expect("hover")
}

#[test]
fn hovers_integer_literal_type() {
    let source = "function main() -> word {\n  return 42;\n}\n";
    let (world, uri) = world_with_main(source);
    let literal = offset_of(source, "42");

    let hover = hover_at(&world, &uri, literal);

    assert!(
        hover.code.contains("word"),
        "expected word type in hover display, got {}",
        hover.code
    );
    assert_eq!(hover.range, Some(range(&world, &uri, literal, 2)));
}

#[test]
fn function_and_parameter_references_show_signatures_and_identifier_ranges() {
    let source = "\
// Returns its input.
function id(x: word) -> word {
  return x;
}

function main() -> word {
  return id(42);
}
";
    let (world, uri) = world_with_main(source);

    let call = last_offset_of(source, "id(42)");
    let function_hover = hover_at(&world, &uri, call);
    assert!(
        function_hover.code.contains("id(x: word) -> word"),
        "unexpected function hover: {}",
        function_hover.code
    );
    assert_eq!(function_hover.range, Some(range(&world, &uri, call, 2)));
    assert!(
        function_hover.documentation.is_some(),
        "leading documentation should be included"
    );

    let parameter = offset_of(source, "return x") + "return ".len() as u32;
    let parameter_hover = hover_at(&world, &uri, parameter);
    assert_eq!(parameter_hover.code, "x: word");
    assert_eq!(parameter_hover.range, Some(range(&world, &uri, parameter, 1)));
}

#[test]
fn inferred_local_reference_hover_uses_local_name_range() {
    let source = "\
function main() -> word {
  let result = 42;
  return result;
}
";
    let (world, uri) = world_with_main(source);
    let reference = last_offset_of(source, "result");

    let hover = hover_at(&world, &uri, reference);

    assert!(
        hover.code.contains("let result: word"),
        "unexpected local hover: {}",
        hover.code
    );
    assert_eq!(
        hover.range,
        Some(range(&world, &uri, reference, "result".len()))
    );
}

#[test]
fn type_and_constructor_references_have_rich_hover_and_leaf_ranges() {
    let source = "\
data Maybe = None | Some(word);

function main() -> Maybe {
  return Maybe.Some(42);
}
";
    let (world, uri) = world_with_main(source);

    let ty_reference = last_offset_of(source, "Maybe");
    let ty_hover = hover_at(&world, &uri, ty_reference);
    assert!(
        ty_hover.code.contains("data Maybe = None | Some(word)"),
        "unexpected type hover: {}",
        ty_hover.code
    );
    assert_eq!(ty_hover.range, Some(range(&world, &uri, ty_reference, 5)));

    let ctor_reference = last_offset_of(source, "Some(42)");
    let ctor_hover = hover_at(&world, &uri, ctor_reference);
    assert!(
        ctor_hover.code.contains("Some(word) -> Maybe"),
        "unexpected constructor hover: {}",
        ctor_hover.code
    );
    assert_eq!(ctor_hover.range, Some(range(&world, &uri, ctor_reference, 4)));
}

#[test]
fn unannotated_let_gets_type_hint() {
    let source = "function main() -> word {\n  let x = 42;\n  return x;\n}\n";
    let (world, uri) = world_with_main(source);
    let whole = range(&world, &uri, 0, source.len());

    let hints = handle_inlay_hints(&world, &analyse(&world), &uri, whole).expect("inlay hints");

    assert_eq!(hints.len(), 1, "expected one hint");
    let x_offset = offset_of(source, "x = 42");
    assert_eq!(hints[0].position, position(&world, &uri, x_offset + 1));
    assert!(hints[0].label.starts_with(':'));
    assert!(hints[0].label.contains("word"));
}

#[test]
fn annotated_let_gets_no_type_hint() {
    let source = "function main() -> word {\n  let y: word = 42;\n  return y;\n}\n";
    let (world, uri) = world_with_main(source);
    let whole = range(&world, &uri, 0, source.len());

    let hints = handle_inlay_hints(&world, &analyse(&world), &uri, whole).expect("inlay hints");

    assert!(hints.is_empty(), "expected no hints");
}

#[test]
fn range_filters_binding_names() {
    let source = "\
function main() -> word {
  let a = 1;
  let b = 2;
  return b;
}
";
    let (world, uri) = world_with_main(source);
    let start = position(&world, &uri, offset_of(source, "let b"));
    let end = Position::new(start.line + 1, 0);

    let hints = handle_inlay_hints(&world, &analyse(&world), &uri, Range::new(start, end))
        .expect("inlay hints");

    assert_eq!(hints.len(), 1, "expected one ranged hint");
    assert_eq!(hints[0].label, ": word");
    assert_eq!(
        hints[0].position,
        position(&world, &uri, offset_of(source, "b = 2") + 1)
    );
}

fn signature_help(world: &WorldState, uri: &Url, offset: u32) -> SignatureHelp {
    handle_signature_help(world, &analyse(world), uri, position(world, uri, offset))
        .expect("signature help")
}

#[test]
fn highlights_first_argument() {
    let source = "function f(a: word, b: word) returns (word) {\n  return a;\n}\n\nfunction main() returns (word) {\n  return f(1, 2);\n}\n";
    let (world, uri) = world_with_main(source);

    let help = signature_help(&world, &uri, offset_of(source, "1, 2"));

    assert_eq!(help.active_parameter, 0);
}

#[test]
fn highlights_second_argument_and_labels_signature() {
    let source = "function f(a: word, b: word) returns (word) {\n  return a;\n}\n\nfunction main() returns (word) {\n  return f(1, 2);\n}\n";
    let (world, uri) = world_with_main(source);

    let help = signature_help(&world, &uri, offset_of(source, ", 2") + 1);
    let label = &help.signature.label;

    assert_eq!(help.active_parameter, 1);
    assert!(label.contains("f("), "{label}");
    assert!(label.contains("a: word"), "{label}");
    assert!(label.contains("b: word"), "{label}");
    assert!(label.contains("returns (word)"), "{label}");
}

#[test]
fn signature_help_uses_requested_module_when_unrelated_document_opened_first() {
    let unrelated = "function unrelated() returns (word) { return 0; }\n";
    let main = "function combine(a: word, b: word) returns (word) { return a; }\n\nfunction main() returns (word) {\n  return combine(1, 2);\n}\n";
    let world = world_with(&[("file:///main/unrelated.solc", unrelated), (MAIN, main)]);

    let help = signature_help(&world, &url(MAIN), offset_of(main, ", 2") + 1);
    let label = &help.signature.label;

    assert_eq!(help.active_parameter, 1);
    assert!(label.contains("combine("), "{label}");
    assert!(label.contains("a: word"), "{label}");
    assert!(label.contains("b: word"), "{label}");
}

#[test]
fn signature_help_resolves_imported_function_in_defining_module() {
    let unrelated = "function unrelated() returns (word) { return 0; }\n";
    let math =
        "function combine(a: word, b: word) returns (word) { return a; }\n\nexport { combine };\n";
    let main = "import {combine} from math;\n\nfunction main() returns (word) {\n  return combine(1, 2);\n}\n";
    let world = world_with(&[
        ("file:///main/unrelated.solc", unrelated),
        (MATH, math),
        (MAIN, main),
    ]);

    let help = signature_help(&world, &url(MAIN), offset_of(main, ", 2") + 1);
    let label = &help.signature.label;

    assert_eq!(help.active_parameter, 1);
    assert!(label.contains("combine("), "{label}");
    assert!(label.contains("a: word"), "{label}");
    assert!(label.contains("b: word"), "{label}");
}

#[test]
fn signature_help_preserves_function_type_qualifiers() {
    let source = "\
function register(
  comptime callback: function(word) external view returns (bool),
  seed: word
) returns (bool) {
  return true;
}

function main() returns (bool) {
  return register(1, 2);
}
";
    let (world, uri) = world_with_main(source);

    let help = signature_help(&world, &uri, offset_of(source, "1, 2"));

    assert_eq!(
        help.signature.label,
        "register(comptime callback: function(word) external view returns (bool), seed: word) returns (bool)"
    );
    assert_eq!(
        help.signature.parameters[0],
        "comptime callback: function(word) external view returns (bool)"
    );
}

#[test]
fn constructor_signature_help_preserves_function_type_qualifiers() {
    let source = "\
enum CallbackBox { CallbackBox(function(word) external view returns (bool)) }

function main() returns (CallbackBox) {
  return CallbackBox.CallbackBox(1);
}
";
    let (world, uri) = world_with_main(source);

    let help = signature_help(&world, &uri, offset_of(source, "1);"));

    assert_eq!(
        help.signature.label,
        "CallbackBox(function(word) external view returns (bool)) returns (adt:CallbackBox)"
    );
    assert_eq!(
        help.signature.parameters[0],
        "function(word) external view returns (bool)"
    );
}

#[test]
fn active_parameter_stays_among_the_parameters() {
    let source = "function f(a: word) returns (word) { return a; }\nfunction main() returns (word) {\n  return f(1, 2, 3);\n}\n";
    let (world, uri) = world_with_main(source);

    assert_eq!(
        signature_help(&world, &uri, offset_of(source, "3)")).active_parameter,
        0
    );
}

// ---------------------------------------------------------------------------------------------
// Semantic tokens and symbols
// ---------------------------------------------------------------------------------------------

fn assert_strictly_ordered(tokens: &[SemanticToken]) {
    let mut line = 0;
    let mut start = 0;
    let mut previous = None::<(u32, u32)>;
    for token in tokens {
        line += token.delta_line;
        if token.delta_line == 0 {
            start += token.delta_start;
        } else {
            start = token.delta_start;
        }
        if let Some((previous_line, previous_end)) = previous {
            assert!(
                line > previous_line || (line == previous_line && start >= previous_end),
                "tokens are not strictly ordered: {tokens:?}"
            );
        }
        previous = Some((line, start + token.length));
    }
}

#[test]
fn semantic_tokens_are_non_empty_ordered_and_start_at_first_named_entity() {
    let source = "function main(x: word) -> word {\n  let y = x;\n  return y;\n}\n";
    let (world, uri) = world_with_main(source);

    let tokens =
        handle_semantic_tokens_full(&world, &analyse(&world), &uri).expect("semantic tokens");
    assert!(!tokens.is_empty(), "expected at least one token");

    let first = tokens[0];
    assert_eq!(first.delta_line, 0);
    assert_eq!(first.delta_start, offset_of(source, "main"));
    assert_eq!(first.length, "main".len() as u32);
    assert_eq!(first.token_type, token_type_index(TokenKind::Function));
    assert_eq!(first.modifiers, declaration_bitset());

    assert_strictly_ordered(&tokens);
}

#[test]
fn emitted_token_type_indexes_are_covered_by_the_legend() {
    let source = "\
data Maybe = None | Some(word);

contract Box {
  value: word;
  function get(x: word) -> word {
    let current = value;
    return current + x;
  }
}
";
    let (world, uri) = world_with_main(source);

    let tokens =
        handle_semantic_tokens_full(&world, &analyse(&world), &uri).expect("semantic tokens");
    assert!(
        tokens
            .iter()
            .all(|token| token.token_type < token_types().len() as u32),
        "emitted token type outside legend: {tokens:?}"
    );
    assert!(
        tokens
            .iter()
            .all(|token| token.modifiers < (1_u32 << token_modifiers().len())),
        "emitted token modifier outside legend: {tokens:?}"
    );
    assert_strictly_ordered(&tokens);
}

#[test]
fn semantic_tokens_tell_names_by_what_they_stand_for() {
    let source = "contract C {\n  f: word;\n  function g(x: word) -> word { let h = lam(y: word) { return y; }; return g(f); }\n}\n";
    let (world, uri) = world_with_main(source);
    let tokens =
        handle_semantic_tokens_full(&world, &analyse(&world), &uri).expect("semantic tokens");
    let kinds: Vec<u32> = tokens.iter().map(|token| token.token_type).collect();
    let index = token_type_index;

    assert_eq!(
        kinds,
        vec![
            index(TokenKind::Type),
            index(TokenKind::Property),
            index(TokenKind::Type),
            index(TokenKind::Function),
            index(TokenKind::Parameter),
            index(TokenKind::Type),
            index(TokenKind::Type),
            index(TokenKind::Variable),
            index(TokenKind::Parameter),
            index(TokenKind::Type),
            index(TokenKind::Parameter),
            index(TokenKind::Function),
            index(TokenKind::Property),
        ]
    );
}

fn position_le(left: Position, right: Position) -> bool {
    left.line < right.line || (left.line == right.line && left.character <= right.character)
}

fn assert_selection_in_range(symbol: &Symbol) {
    assert!(
        position_le(symbol.range.start, symbol.selection_range.start)
            && position_le(symbol.selection_range.end, symbol.range.end),
        "{}",
        symbol.name
    );
}

#[test]
fn document_symbols_include_top_level_items_and_contract_children() {
    let source = "\
function foo(x: word) returns (word) {
  return x;
}

alias Pair = pair<word, word>;

enum Maybe { None, Some(word) }

contract Box {
  item: word;
  function get() returns (word) {
    return item;
  }
}
";
    let (world, uri) = world_with_main(source);
    let symbols = handle_document_symbol(&world, &analyse(&world), &uri).expect("symbols");
    let find = |name: &str| {
        symbols
            .iter()
            .find(|entry| entry.symbol.name == name)
            .expect("symbol")
    };

    assert_eq!(find("foo").symbol.kind, SymbolKind::Function);
    assert_eq!(find("Pair").symbol.kind, SymbolKind::Class);
    assert_eq!(find("Maybe").symbol.kind, SymbolKind::Enum);
    let contract = find("Box");
    assert_eq!(contract.symbol.kind, SymbolKind::Class);
    for entry in &symbols {
        assert_selection_in_range(&entry.symbol);
    }
    let children = contract.children.as_ref().expect("contract children");
    let child = |name: &str| children.iter().find(|child| child.name == name).expect("child");
    assert_eq!(child("item").kind, SymbolKind::Field);
    assert_eq!(child("get").kind, SymbolKind::Method);
    for child in children {
        assert_selection_in_range(child);
    }
}

fn assert_symbol_at(
    world: &WorldState,
    symbol: &SymbolInformation,
    name: &str,
    kind: SymbolKind,
    uri: &Url,
    source: &str,
) {
    assert_eq!(symbol.name, name);
    assert_eq!(symbol.kind, kind);
    assert_eq!(symbol.location.uri, *uri);
    assert_eq!(
        symbol.location.range,
        range(world, uri, offset_of(source, name), name.len())
    );
}

fn workspace_symbols(world: &WorldState, query: &str) -> Vec<SymbolInformation> {
    handle_workspace_symbol(world, &analyse(world), query).expect("workspace symbols")
}

#[test]
fn query_returns_matching_functions_from_each_open_document() {
    let main_source = "function target_main() returns (word) {\n  return 1;\n}\n";
    let util_source = "function target_util() returns (word) {\n  return 2;\n}\n";
    let util_uri = url("file:///main/util.solc");
    let world = world_with(&[(MAIN, main_source), ("file:///main/util.solc", util_source)]);

    let symbols = workspace_symbols(&world, "TARGET");
    assert_eq!(symbols.len(), 2);
    assert_symbol_at(
        &world,
        &symbols[0],
        "target_main",
        SymbolKind::Function,
        &url(MAIN),
        main_source,
    );
    assert_symbol_at(
        &world,
        &symbols[1],
        "target_util",
        SymbolKind::Function,
        &util_uri,
        util_source,
    );
}

#[test]
fn query_includes_preloaded_but_unopened_workspace_documents() {
    let mut world = WorldState::new();
    let root = url("file:///tmp/solcore-lsp-symbol-project/");
    let main_uri = url("file:///tmp/solcore-lsp-symbol-project/main.solc");
    let util_uri = url("file:///tmp/solcore-lsp-symbol-project/util.solc");
    assert_eq!(
        world.load_workspace_documents(
            root,
            vec![
                (
                    main_uri,
                    "function main_symbol() returns (word) { return 1; }\n".to_owned()
                ),
                (
                    util_uri.clone(),
                    "function unopened_symbol() returns (word) { return 2; }\n".to_owned()
                ),
            ]
        ),
        2
    );

    let symbols = workspace_symbols(&world, "unopened");

    assert_eq!(symbols.len(), 1);
    assert_eq!(symbols[0].name, "unopened_symbol");
    assert_eq!(symbols[0].location.uri, util_uri);
    assert!(world.open_document_uris().is_empty());
}

#[test]
fn empty_query_returns_top_level_symbols_and_non_matching_query_is_empty() {
    let source = "\
function alpha() returns (word) {
  return 1;
}

alias Alias = word;

enum Choice { One, Two }

contract Vault {}

interface Reader {
  function read(key: word) external view returns (word);
}

library Helpers {
  function identity(value: word) internal pure returns (word) { return value; }
}
";
    let (world, uri) = world_with_main(source);

    let symbols = workspace_symbols(&world, "");
    let names = symbols
        .iter()
        .map(|symbol| symbol.name.as_str())
        .collect::<Vec<_>>();
    assert_eq!(
        names,
        ["Alias", "Choice", "Helpers", "Reader", "Vault", "alpha", "identity", "read"]
    );
    assert!(symbols.iter().all(|symbol| symbol.location.uri == uri));
    assert_eq!(
        symbols.iter().map(|symbol| symbol.kind).collect::<Vec<_>>(),
        [
            SymbolKind::Class,
            SymbolKind::Enum,
            SymbolKind::Module,
            SymbolKind::Interface,
            SymbolKind::Class,
            SymbolKind::Function,
            SymbolKind::Method,
            SymbolKind::Method,
        ]
    );

    assert!(workspace_symbols(&world, "does-not-exist").is_empty());
}

#[test]
fn contract_member_symbols_keep_container_name() {
    let source = "\
contract Vault {
  balance: word;
  function read() returns (word) {
    return balance;
  }
}
";
    let (world, uri) = world_with_main(source);

    let fields = workspace_symbols(&world, "balance");
    let field = fields
        .iter()
        .find(|symbol| symbol.name == "balance")
        .expect("balance symbol");
    assert_symbol_at(&world, field, "balance", SymbolKind::Field, &uri, source);
    assert_eq!(field.container_name, Some("Vault".to_owned()));

    let methods = workspace_symbols(&world, "read");
    let method = methods
        .iter()
        .find(|symbol| symbol.name == "read")
        .expect("read symbol");
    assert_symbol_at(&world, method, "read", SymbolKind::Method, &uri, source);
    assert_eq!(method.container_name, Some("Vault".to_owned()));
}

#[test]
fn multi_root_imports_and_workspace_symbols_use_the_originating_root() {
    let (left_root, right_root) = two_roots("solcore-lsp-state-multi-root-resolution");
    let left_main = url("file:///tmp/solcore-lsp-state-multi-root-resolution/left/main.solc");
    let left_math = url("file:///tmp/solcore-lsp-state-multi-root-resolution/left/math.solc");
    let right_main = url("file:///tmp/solcore-lsp-state-multi-root-resolution/right/main.solc");
    let right_math = url("file:///tmp/solcore-lsp-state-multi-root-resolution/right/math.solc");
    let left_source =
        "import lib.math.{leftValue};\nfunction runLeft() -> word { return leftValue(); }\n";
    let left_library = "function leftValue() -> word { return 1; }\nexport { leftValue };\n";
    let right_source =
        "import lib.math.{rightValue};\nfunction runRight() -> word { return rightValue(); }\n";
    let right_library = "function rightValue() -> word { return 2; }\nexport { rightValue };\n";

    let mut world = WorldState::new();
    world.load_workspace_roots(vec![
        (
            left_root,
            vec![
                (left_main.clone(), left_source.to_owned()),
                (left_math.clone(), left_library.to_owned()),
            ],
        ),
        (
            right_root,
            vec![
                (right_main, right_source.to_owned()),
                (right_math.clone(), right_library.to_owned()),
            ],
        ),
    ]);
    assert!(world.open_document(left_main.clone(), left_source.to_owned()));

    let location =
        scalar_definition(&world, &left_main, last_offset_of(left_source, "leftValue"));
    assert_eq!(location.uri, left_math);

    let symbols = workspace_symbols(&world, "Value");
    assert!(symbols
        .iter()
        .any(|symbol| symbol.name == "leftValue" && symbol.location.uri == left_math));
    assert!(symbols
        .iter()
        .any(|symbol| symbol.name == "rightValue" && symbol.location.uri == right_math));
}

#[test]
fn detached_files_keep_root_isolation_and_relative_layout_across_folder_changes() {
    let (left_root, right_root) = two_roots("solcore-lsp-state-detached-isolation");
    let third_root = url("file:///tmp/solcore-lsp-state-detached-isolation/third/");
    let left_main = url("file:///tmp/solcore-lsp-state-detached-isolation/left/main.solc");
    let left_math = url("file:///tmp/solcore-lsp-state-detached-isolation/left/math.solc");
    let right_math = url("file:///tmp/solcore-lsp-state-detached-isolation/right/math.solc");
    let third_file = url("file:///tmp/solcore-lsp-state-detached-isolation/third/third.solc");
    let main_source =
        "import lib.math.{leftValue};\nfunction main() -> word { return leftValue(); }\n";
    let left_source = "function leftValue() -> word { return 1; }\nexport { leftValue };\n";
    let right_source = "function rightValue() -> word { return 2; }\nexport { rightValue };\n";
    let no_roots: Vec<(Url, Vec<(Url, String)>)> = Vec::new();

    let mut world = WorldState::new();
    world.load_workspace_roots(vec![
        (
            left_root.clone(),
            vec![
                (left_main.clone(), main_source.to_owned()),
                (left_math.clone(), left_source.to_owned()),
            ],
        ),
        (right_root, vec![(right_math, right_source.to_owned())]),
    ]);
    assert!(world.open_document(left_main.clone(), main_source.to_owned()));
    assert!(world.open_document(left_math.clone(), left_source.to_owned()));
    world.update_workspace_roots(vec![left_root], no_roots);

    let parent = |path: &str| path.rsplit_once('/').map(|(parent, _)| parent.to_owned());
    let detached_main = world.vfs_path_for_uri(&left_main).expect("detached main path");
    let detached_math = world.vfs_path_for_uri(&left_math).expect("detached math path");
    assert!(detached_main.starts_with("/main/__solcore_detached__/"));
    assert_eq!(parent(&detached_main), parent(&detached_math));
    let reference = last_offset_of(main_source, "leftValue");
    assert_eq!(scalar_definition(&world, &left_main, reference).uri, left_math);

    world.update_workspace_roots(
        Vec::new(),
        vec![(
            third_root,
            vec![(
                third_file,
                "function third() -> word { return 3; }\n".to_owned(),
            )],
        )],
    );
    assert_eq!(world.vfs_path_for_uri(&left_main), Some(detached_main));
    assert_eq!(world.vfs_path_for_uri(&left_math), Some(detached_math));
    assert_eq!(scalar_definition(&world, &left_main, reference).uri, left_math);
}

// ---------------------------------------------------------------------------------------------
// Completion
// ---------------------------------------------------------------------------------------------

fn completions(world: &WorldState, uri: &Url, offset: u32) -> Vec<CompletionItem> {
    handle_completion(world, &analyse(world), uri, position(world, uri, offset))
        .expect("completion")
}

fn completion_at(world: &WorldState, uri: &Url, source: &str, cursor_after: &str) -> Vec<CompletionItem> {
    let offset = offset_of(source, cursor_after) + cursor_after.len() as u32;
    completions(world, uri, offset)
}

fn labels(items: &[CompletionItem]) -> Vec<String> {
    items
        .iter()
        .map(|item| format!("{} {:?}", item.label, item.kind))
        .collect()
}

fn assert_completion(items: &[CompletionItem], label: &str, kind: CompletionItemKind) {
    assert!(
        items
            .iter()
            .any(|item| item.label == label && item.kind == kind),
        "expected completion {label:?} with kind {kind:?}, got {:#?}",
        labels(items)
    );
}

fn assert_no_completion(items: &[CompletionItem], label: &str) {
    assert!(
        items.iter().all(|item| item.label != label),
        "did not expect completion {label:?}, got {:#?}",
        labels(items)
    );
}

#[test]
fn function_body_completion_includes_params_locals_and_top_level_items() {
    let source = "\
function helper() -> word {
  return 1;
}

function main(input: word) -> word {
  let local = input;
  return local;
}
";
    let (world, uri) = world_with_main(source);
    let offset = offset_of(source, "return local") + "return ".len() as u32;

    let items = completions(&world, &uri, offset);

    assert_completion(&items, "input", CompletionItemKind::Variable);
    assert_completion(&items, "local", CompletionItemKind::Variable);
    assert_completion(&items, "helper", CompletionItemKind::Function);
}

#[test]
fn completion_includes_language_keywords() {
    let source = "function main() -> word {\n  return 1;\n}\n";
    let (world, uri) = world_with_main(source);

    let items = completions(&world, &uri, offset_of(source, "1"));

    assert_completion(&items, "function", CompletionItemKind::Keyword);
}

#[test]
fn completion_uses_requested_module_when_unrelated_document_opened_first() {
    let unrelated = "function unrelated() -> word { return 0; }\n";
    let math =
        "function combine(a: word, b: word) -> word { return a + b; }\n\nexport { combine };\n";
    let main =
        "import math.{combine};\n\nfunction main() -> word {\n  return combine(1, 2);\n}\n";
    let world = world_with(&[
        ("file:///main/unrelated.solc", unrelated),
        (MATH, math),
        (MAIN, main),
    ]);
    let offset = offset_of(main, "return combine") + "return ".len() as u32;

    let items = completions(&world, &url(MAIN), offset);

    assert_completion(&items, "combine", CompletionItemKind::Function);
}

#[test]
fn trailing_dot_module_completion_is_member_only_and_respects_exports() {
    let math = "\
function visible() -> word { return 1; }
function hidden() -> word { return 2; }
data Color = Red | Green;
export { visible, Color(Red, Green) };
";
    let main = "\
import math;
function main() -> word {
  return math.;
}
";
    let world = world_with(&[(MATH, math), (MAIN, main)]);
    let items = completion_at(&world, &url(MAIN), main, "math.");

    assert_completion(&items, "visible", CompletionItemKind::Function);
    assert_completion(&items, "Color", CompletionItemKind::Enum);
    assert_no_completion(&items, "hidden");
    assert_no_completion(&items, "Red");
    assert_no_completion(&items, "function");
    assert!(
        items.iter().all(|item| !item.label.contains('.')),
        "expected direct member labels only, got {:#?}",
        labels(&items)
    );
}

#[test]
fn qualified_completion_filters_a_typed_member_prefix() {
    let math = "\
function visible() -> word { return 1; }
function value() -> word { return 2; }
export { visible, value };
";
    let main = "\
import math;
function main() -> word {
  return math.vis;
}
";
    let world = world_with(&[(MATH, math), (MAIN, main)]);
    let items = completion_at(&world, &url(MAIN), main, "math.vis");

    assert_completion(&items, "visible", CompletionItemKind::Function);
    assert_no_completion(&items, "value");
}

#[test]
fn qualified_completion_includes_contract_local_adt_constructors() {
    let source = "\
contract Palette {
  data Color = Red | Green;

  function main() -> word {
    return Color.;
  }
}
";
    let (world, uri) = world_with_main(source);
    let items = completion_at(&world, &uri, source, "Color.");

    assert_completion(&items, "Red", CompletionItemKind::Constructor);
    assert_completion(&items, "Green", CompletionItemKind::Constructor);
    assert_no_completion(&items, "Color.Red");
}

#[test]
fn qualified_completion_includes_imported_class_methods() {
    let classes = "\
forall a . class a : Eq {
  function eq(x: a, y: a) -> bool;
  function unequal(x: a, y: a) -> bool;
}
export { Eq };
";
    let main = "\
import classes.{Eq};
function main() -> word {
  return Eq.;
}
";
    let world = world_with(&[("file:///main/classes.solc", classes), (MAIN, main)]);
    let items = completion_at(&world, &url(MAIN), main, "Eq.");

    assert_completion(&items, "eq", CompletionItemKind::Method);
    assert_completion(&items, "unequal", CompletionItemKind::Method);
    assert_no_completion(&items, "Eq.eq");
}

#[test]
fn completions_are_ordered_and_come_once() {
    let source = "function value(value: word) -> word {\n  return value;\n}\n";
    let (world, uri) = world_with_main(source);
    let items = completions(&world, &uri, last_offset_of(source, "value"));
    let of_value: Vec<CompletionItemKind> = items
        .iter()
        .filter(|item| item.label == "value")
        .map(|item| item.kind)
        .collect();

    assert_eq!(
        of_value,
        vec![CompletionItemKind::Function, CompletionItemKind::Variable]
    );
    assert!(items.windows(2).all(|pair| pair[0].label <= pair[1].label));
}

// ---------------------------------------------------------------------------------------------
// Diagnostics
// ---------------------------------------------------------------------------------------------

const UNDEFINED_NAME: &str = "undefined-name";
const UNDEFINED_TYPE: &str = "undefined-type-constructor";
const UNDEFINED_CLASS: &str = "undefined-class";
const UNQUALIFIED_CONSTRUCTOR: &str = "unqualified-constructor";
const MODULE_NOT_FOUND: &str = "module-not-found";
const UNKNOWN_IMPORT_ITEM: &str = "unknown-import-item";

fn vfs_url(world: &WorldState, uri: &Url) -> String {
    let path = world.vfs_path_for_uri(uri).expect("path");
    solcore_lsp::paths::vfs_url_for_path(&path).expect("address")
}

fn source_range(world: &WorldState, uri: &Url, start: u32, len: usize) -> DiagRange {
    DiagRange { file_url: vfs_url(world, uri), start, end: start + len as u32 }
}

fn reported_error(code: &str, message: &str, primary: DiagRange) -> SourceDiagnostic {
    SourceDiagnostic {
        severity: Severity::Error,
        code: Some(code.to_owned()),
        message: message.to_owned(),
        primary: Some(primary),
        labels: Vec::new(),
        notes: Vec::new(),
        helps: Vec::new(),
        suggestions: Vec::new(),
    }
}

/// The imports of modules that are not there and of names that a module does not export, in the
/// modules that an entry module leads to.
fn import_problems(world: &WorldState, entry: &str) -> Vec<SourceDiagnostic> {
    let front = front_of(world);
    let mut found = Vec::new();
    for file in front.reachable(front.find(entry).expect("entry")) {
        let file = front.file(file);
        for item in &file.items {
            let AstKind::Import(import) = &item.kind else {
                continue;
            };
            if front.module_at(file.number, &import.path).is_none() {
                let last = &import.path[import.path.len() - 1];
                let primary = DiagRange {
                    file_url: file.url.clone(),
                    start: import.path[0].start,
                    end: last.end,
                };
                found.push(reported_error(MODULE_NOT_FOUND, "file not found", primary));
            }
            let Some(target) = front.module_at(file.number, &import.path) else {
                continue;
            };
            let exports = front.exports(target);
            for selected in import.names.iter().flatten() {
                let name = &selected.name;
                if exports.iter().all(|(_, exported, _)| *exported != name.text) {
                    let primary =
                        DiagRange { file_url: file.url.clone(), start: name.start, end: name.end };
                    found.push(reported_error(UNKNOWN_IMPORT_ITEM, "unknown item", primary));
                }
            }
        }
    }
    found
}

/// The diagnostics of a document, from the entry that they are looked for from.
fn module_diagnostics(world: &WorldState, entry: &str, uri: &Url) -> Vec<Diagnostic> {
    let front = front_of(world);
    let analysis = Analysis {
        files: (0..front.files.len() as u32).map(|file| front.facts(file)).collect(),
        reachable: front.reachable(front.find(entry).expect("entry")),
        schemes: Vec::new(),
    };
    let found = match diagnostics_entry(world, &analysis, uri) {
        Some(DiagnosticsEntry::Workspace) => import_problems(world, entry),
        Some(DiagnosticsEntry::Document(path)) => import_problems(world, &path),
        None => Vec::new(),
    };
    compute_diagnostics(world, uri, &found)
}

fn has_code(diagnostic: &Diagnostic, code: &str) -> bool {
    matches!(&diagnostic.code, Some(DiagnosticCode::Text(text)) if text == code)
}

fn assert_no_module_not_found(diagnostics: &[Diagnostic]) {
    assert!(diagnostics.iter().all(|diagnostic| {
        !diagnostic.message.contains("file not found") && !has_code(diagnostic, MODULE_NOT_FOUND)
    }));
}

#[test]
fn clean_program_has_no_diagnostics() {
    let (world, uri) = world_with_main("function main() -> word {\n  return 1;\n}\n");

    assert!(module_diagnostics(&world, "/main/main.solc", &uri).is_empty());
}

#[test]
fn type_error_maps_to_lsp_error_with_range() {
    let source = "function f() -> word {\n  return true;\n}\n";
    let (world, uri) = world_with_main(source);
    let primary = source_range(&world, &uri, offset_of(source, "true"), "true".len());
    let found = vec![reported_error("type-mismatch", "expected word, found bool", primary)];

    let diagnostics = compute_diagnostics(&world, &uri, &found);
    assert!(diagnostics
        .iter()
        .any(|diagnostic| diagnostic.severity == DiagnosticSeverity::Error));
    assert!(diagnostics.iter().all(|diagnostic| {
        diagnostic.range.start.line <= diagnostic.range.end.line
            && diagnostic.range.start != diagnostic.range.end
    }));
    assert_eq!(diagnostics[0].range, range(&world, &uri, offset_of(source, "true"), 4));
    assert_eq!(diagnostics[0].source, "solcore");
}

#[test]
fn sibling_import_open_in_workspace_has_no_module_not_found_diagnostic() {
    let mut world = WorldState::new();
    let main_uri = url(MAIN);
    let main = "import math.{double};\n\nfunction main() -> word {\n  return double(21);\n}\n";
    let math = "function double(x: word) -> word {\n  let res: word;\n  assembly {\n    res := add(x, x)\n  }\n  return res;\n}\n\nexport { double };\n";

    assert!(world.open_document(main_uri.clone(), main.to_owned()));
    let _ = module_diagnostics(&world, "/main/main.solc", &main_uri);
    assert!(world.open_document(url(MATH), math.to_owned()));

    assert_no_module_not_found(&module_diagnostics(&world, "/main/main.solc", &main_uri));
}

#[test]
fn sibling_import_opened_before_importer_has_no_module_not_found_diagnostic() {
    let math = "function double(x: word) -> word { return x; }\n\nexport { double };\n";
    let main = "import math.{double};\n\nfunction main() -> word {\n  return double(21);\n}\n";
    let world = world_with(&[(MATH, math), (MAIN, main)]);

    assert_no_module_not_found(&module_diagnostics(&world, "/main/math.solc", &url(MAIN)));
}

#[test]
fn fallback_diagnostics_for_unreachable_importer_update_after_sibling_opens() {
    let entry = "function entry() -> word { return 0; }\n";
    let main = "import math.{double};\n\nfunction main() -> word {\n  return double(21);\n}\n";
    let math = "function double(x: word) -> word { return x; }\n\nexport { double };\n";
    let mut world = world_with(&[("file:///main/entry.solc", entry), (MAIN, main)]);

    let diagnostics = module_diagnostics(&world, "/main/entry.solc", &url(MAIN));
    assert!(diagnostics
        .iter()
        .any(|diagnostic| has_code(diagnostic, MODULE_NOT_FOUND)));

    assert!(world.open_document(url(MATH), math.to_owned()));
    assert_no_module_not_found(&module_diagnostics(&world, "/main/entry.solc", &url(MAIN)));
}

#[test]
fn published_diagnostics_have_notes_helps_and_related_places() {
    let source = "function f() -> word { return g; }\n";
    let math = "function h() -> word { return 1; }\n";
    let (world, uri, math_uri) = world_with_main_and_math(source, math);
    let mut diagnostic = reported_error(
        UNDEFINED_NAME,
        "undefined name: g",
        source_range(&world, &uri, offset_of(source, "g;"), 1),
    );
    diagnostic.severity = Severity::Note;
    diagnostic.notes.push("a note".to_owned());
    diagnostic.helps.push("a help".to_owned());
    for (message, is_primary) in [(Some("here"), false), (None, false), (Some("there"), true)] {
        diagnostic.labels.push(DiagLabel {
            range: source_range(&world, &math_uri, offset_of(math, "h("), 1),
            message: message.map(str::to_owned),
            is_primary,
        });
    }
    let found = vec![diagnostic];

    assert!(compute_diagnostics(&world, &math_uri, &found).is_empty());
    let diagnostics = compute_diagnostics(&world, &uri, &found);
    assert_eq!(diagnostics.len(), 1);
    assert_eq!(diagnostics[0].severity, DiagnosticSeverity::Information);
    assert_eq!(
        diagnostics[0].message,
        "undefined name: g\n\nnote: a note\n\nhelp: a help"
    );
    let related = &diagnostics[0].related_information;
    assert_eq!(related.len(), 1);
    assert_eq!(related[0].message, "here");
    assert_eq!(related[0].location.uri, math_uri);
    assert_eq!(
        related[0].location.range,
        range(&world, &math_uri, offset_of(math, "h("), 1)
    );
}

// ---------------------------------------------------------------------------------------------
// Quick fixes
// ---------------------------------------------------------------------------------------------

fn requested(diagnostic: &Diagnostic) -> RequestedDiagnostic {
    RequestedDiagnostic {
        range: diagnostic.range,
        code: match &diagnostic.code {
            Some(DiagnosticCode::Text(text)) => Some(DiagnosticCode::Text(text.clone())),
            Some(DiagnosticCode::Number(number)) => Some(DiagnosticCode::Number(*number)),
            None => None,
        },
        source: Some(diagnostic.source.clone()),
        message: diagnostic.message.clone(),
    }
}

fn context(diagnostic: &Diagnostic) -> CodeActionContext {
    CodeActionContext { diagnostics: vec![requested(diagnostic)], only: None }
}

fn candidate(import_path: &str, public_name: &str) -> ImportCandidate {
    ImportCandidate {
        import_path: import_path.to_owned(),
        public_name: public_name.to_owned(),
    }
}

/// A document with problems, and what the front end finds in it.
struct Case {
    world: WorldState,
    uri: Url,
    found: Vec<SourceDiagnostic>,
    findings: ModuleFindings,
}

impl Case {
    fn new(documents: &[(&str, &str)]) -> Case {
        let uri = url(documents[0].0);
        Case::of(world_with(documents), uri)
    }

    fn of(world: WorldState, uri: Url) -> Case {
        let source = world.line_index(&uri).expect("line index").text().to_owned();
        let findings = ModuleFindings {
            parsed: parsed(&source),
            reported: Vec::new(),
            candidates: ImportCandidates {
                names: Vec::new(),
                constructors: Vec::new(),
                modules: Vec::new(),
            },
            identifiers: lex(&source)
                .into_iter()
                .map(|token| token.text)
                .filter(|text| is_word(text))
                .chain(identifiers(&["lib", "std", "math", "util", "model", "classes", "dispatch"]))
                .collect(),
        };
        Case { world, uri, found: Vec::new(), findings }
    }

    /// The front end reports an error.
    fn error(mut self, code: &str, message: &str, start: u32, len: usize) -> Case {
        let primary = source_range(&self.world, &self.uri, start, len);
        self.found.push(reported_error(code, message, primary));
        self
    }

    /// The front end suggests to write something in place of the range of the last error.
    fn suggestion(mut self, replacement: &str, applicability: Applicability) -> Case {
        let diagnostic = self.found.last_mut().expect("diagnostic");
        let primary = diagnostic.primary.as_ref().expect("range");
        diagnostic.suggestions.push(Suggestion {
            title: format!("Replace with `{replacement}`"),
            applicability,
            edits: vec![SuggestedEdit {
                range: DiagRange {
                    file_url: primary.file_url.clone(),
                    start: primary.start,
                    end: primary.end,
                },
                replacement: replacement.to_owned(),
            }],
        });
        self
    }

    /// The front end could not resolve the name that the last error is about.
    fn problem(mut self, problem: NameProblem) -> Case {
        let diagnostic = self.found.last().expect("diagnostic");
        let primary = diagnostic.primary.as_ref().expect("range");
        self.findings.reported.push(ReportedName {
            problem,
            code: diagnostic.code.clone().expect("code"),
            message: diagnostic.message.clone(),
            range: DiagRange {
                file_url: primary.file_url.clone(),
                start: primary.start,
                end: primary.end,
            },
        });
        self
    }

    fn names(mut self, name: &str, namespace: ImportNamespace, modules: &[&str]) -> Case {
        self.findings.candidates.names.push(NameCandidates {
            name: name.to_owned(),
            namespace,
            candidates: modules.iter().map(|module| candidate(module, name)).collect(),
        });
        self
    }

    fn constructors(mut self, ty: &str, constructor: &str, modules: &[&str]) -> Case {
        self.findings.candidates.constructors.push(ConstructorCandidates {
            ty: ty.to_owned(),
            constructor: constructor.to_owned(),
            candidates: modules.iter().map(|module| candidate(module, ty)).collect(),
        });
        self
    }

    fn modules(mut self, qualifier: &str, member: &str, modules: &[&str]) -> Case {
        self.findings.candidates.modules.push(ModuleCandidates {
            qualifier: qualifier.to_owned(),
            member: member.to_owned(),
            candidates: modules.iter().map(|module| candidate(module, qualifier)).collect(),
        });
        self
    }

    fn diagnostic(&self, code: &str) -> Diagnostic {
        compute_diagnostics(&self.world, &self.uri, &self.found)
            .into_iter()
            .find(|diagnostic| has_code(diagnostic, code))
            .expect("diagnostic")
    }

    fn actions_in(&self, range: Range, context: &CodeActionContext) -> Vec<CodeAction> {
        handle_code_action(
            &self.world,
            &analyse(&self.world),
            &self.uri,
            range,
            context,
            &self.findings,
            &self.found,
        )
        .expect("code actions")
    }

    fn actions(&self, code: &str) -> Vec<CodeAction> {
        let diagnostic = self.diagnostic(code);
        self.actions_in(diagnostic.range, &context(&diagnostic))
    }

    fn action(&self, code: &str) -> CodeAction {
        let mut actions = self.actions(code);
        assert_eq!(actions.len(), 1);
        actions.remove(0)
    }

    fn titles(&self, code: &str) -> Vec<String> {
        self.actions(code).into_iter().map(|action| action.title).collect()
    }

    fn offers_no_import(&self, code: &str) -> bool {
        self.titles(code).iter().all(|title| !title.starts_with("Import "))
    }
}

fn placed(action: &CodeAction, uri: &Url) -> Option<Vec<(Range, String)>> {
    edits_by_document(&action.edits)
        .into_iter()
        .find(|document| document.uri == *uri)
        .map(|document| {
            document
                .edits
                .into_iter()
                .map(|edit| (edit.range, edit.new_text))
                .collect()
        })
}

fn term(name: &str) -> NameProblem {
    NameProblem::Term { name: name.to_owned() }
}

const TYPO: &str = "function value() returns (word) { return 1; }\nfunction main() returns (word) { return vaue(); }\n";

fn typo_case() -> Case {
    Case::new(&[(MAIN, TYPO)])
        .error(UNDEFINED_NAME, "undefined name: vaue", offset_of(TYPO, "vaue"), 4)
        .problem(term("vaue"))
        .suggestion("value", Applicability::MaybeIncorrect)
}

#[test]
fn typo_diagnostic_becomes_nonpreferred_quick_fix() {
    let case = typo_case();
    let diagnostic = case.diagnostic(UNDEFINED_NAME);
    let action = case.action(UNDEFINED_NAME);

    assert_eq!(action.title, "Replace with `value`");
    assert_eq!(action.diagnostic, 0);
    assert!(!action.is_preferred);
    assert_eq!(
        placed(&action, &case.uri),
        Some(vec![(diagnostic.range, "value".to_owned())])
    );
}

#[test]
fn real_uri_and_utf16_range_are_preserved() {
    let source = "// 😀\nfunction value() returns (word) { return 1; }\nfunction main() returns (word) { return vaue(); }\n";
    let uri = url("file:///tmp/solcore%20project/src/%E6%95%B0.solc");
    let mut world = WorldState::new();
    assert_eq!(
        world.load_workspace_documents(
            url("file:///tmp/solcore%20project/"),
            vec![(uri.clone(), source.to_owned())]
        ),
        1
    );
    assert!(world.open_document(uri.clone(), source.to_owned()));
    let case = Case::of(world, uri.clone())
        .error(UNDEFINED_NAME, "undefined name: vaue", offset_of(source, "vaue"), 4)
        .suggestion("value", Applicability::MaybeIncorrect);
    let diagnostic = case.diagnostic(UNDEFINED_NAME);

    let documents = edits_by_document(&case.action(UNDEFINED_NAME).edits);
    assert_eq!(documents.len(), 1);
    assert_eq!(documents[0].uri, uri);
    assert_eq!(documents[0].edits[0].range, diagnostic.range);
}

#[test]
fn stale_code_or_range_does_not_receive_a_fix() {
    let case = typo_case();
    let diagnostic = case.diagnostic(UNDEFINED_NAME);

    let mut wrong_code = context(&diagnostic);
    wrong_code.diagnostics[0].code = Some(DiagnosticCode::Text("SC9999".to_owned()));
    assert!(case.actions_in(diagnostic.range, &wrong_code).is_empty());

    let mut wrong_range = context(&diagnostic);
    wrong_range.diagnostics[0].range = Range::new(Position::new(0, 0), Position::new(0, 1));
    assert!(case.actions_in(diagnostic.range, &wrong_range).is_empty());
}

#[test]
fn typed_missing_import_lookup_requires_the_same_diagnostic_code() {
    let source = "function main() returns (word) { return missing; }\n";
    let mut case = Case::new(&[(MAIN, source)])
        .error(UNDEFINED_NAME, "undefined name: missing", offset_of(source, "missing"), 7)
        .problem(term("missing"));
    let known = case.findings.identifiers.clone();

    assert!(matches!(
        missing_import_for_diagnostic(&case.findings.reported, &case.found[0], &known),
        Some(MissingImport::Name { name, namespace: ImportNamespace::Term }) if name == "missing"
    ));
    case.found[0].code = Some(UNDEFINED_TYPE.to_owned());
    assert!(missing_import_for_diagnostic(&case.findings.reported, &case.found[0], &known).is_none());
}

#[test]
fn request_range_and_only_filter_are_respected() {
    let case = typo_case();
    let diagnostic = case.diagnostic(UNDEFINED_NAME);
    let only = |kind: &str| CodeActionContext {
        diagnostics: vec![requested(&diagnostic)],
        only: Some(vec![kind.to_owned()]),
    };

    let elsewhere = Range::new(Position::new(0, 0), Position::new(0, 1));
    assert!(case.actions_in(elsewhere, &context(&diagnostic)).is_empty());
    assert!(case.actions_in(diagnostic.range, &only("source")).is_empty());
    assert_eq!(case.actions_in(diagnostic.range, &only("quickfix")).len(), 1);
}

#[test]
fn unknown_import_item_uses_compiler_suggestion() {
    let main = "import {doubl} from math;\nfunction main() returns (word) { return 1; }\n";
    let math = "function double(x: word) returns (word) { return x + x; }\nexport { double };\n";
    let case = Case::new(&[(MAIN, main), (MATH, math)])
        .error(UNKNOWN_IMPORT_ITEM, "unknown item: doubl", offset_of(main, "doubl"), 5)
        .suggestion("double", Applicability::MaybeIncorrect);
    let diagnostic = case.diagnostic(UNKNOWN_IMPORT_ITEM);
    let action = case.action(UNKNOWN_IMPORT_ITEM);

    assert_eq!(action.title, "Replace with `double`");
    assert!(!action.is_preferred);
    assert_eq!(
        placed(&action, &case.uri),
        Some(vec![(diagnostic.range, "double".to_owned())])
    );
}

#[test]
fn module_path_typo_is_nonpreferred() {
    let main = "import * as mth from mth;\nfunction main() returns (word) { return 1; }\n";
    let math = "function double(x: word) returns (word) { return x + x; }\nexport { double };\n";
    let case = Case::new(&[(MAIN, main), (MATH, math)])
        .error(MODULE_NOT_FOUND, "file not found", last_offset_of(main, "mth"), 3)
        .suggestion("math", Applicability::MaybeIncorrect);
    let diagnostic = case.diagnostic(MODULE_NOT_FOUND);
    let action = case.action(MODULE_NOT_FOUND);

    assert_eq!(action.title, "Replace with `math`");
    assert!(!action.is_preferred);
    assert_eq!(
        placed(&action, &case.uri),
        Some(vec![(diagnostic.range, "math".to_owned())])
    );
}

#[test]
fn qualified_name_suggestion_replaces_only_the_leaf() {
    let main = "import * as math from math;\nfunction main(x: math.Vaue) returns (word) { return 1; }\n";
    let math = "enum Value { Value(word) }\nexport { Value(*) };\n";
    let case = Case::new(&[(MAIN, main), (MATH, math)])
        .error(UNDEFINED_TYPE, "undefined type: math.Vaue", offset_of(main, "Vaue"), 4)
        .suggestion("Value", Applicability::MaybeIncorrect);
    let diagnostic = case.diagnostic(UNDEFINED_TYPE);
    let action = case.action(UNDEFINED_TYPE);

    assert_eq!(action.title, "Replace with `Value`");
    assert!(!action.is_preferred);
    assert_eq!(
        placed(&action, &case.uri),
        Some(vec![(diagnostic.range, "Value".to_owned())])
    );
}

fn wrong_qualifier_case(main: &str, written: &str) -> Case {
    let math = "enum Value { Value(word) }\nexport { Value(*) };\n";
    let message = format!("undefined type: {written}; did you mean type `M.Value`?");
    Case::new(&[(MAIN, main), (MATH, math)])
        .error(UNDEFINED_TYPE, &message, offset_of(main, written), written.len())
        .problem(NameProblem::TypeConstructor { name: written.to_owned() })
}

#[test]
fn qualified_name_with_wrong_qualifier_has_no_partial_fix() {
    let main = "import * as M from math;\nfunction main(x: N.Value) returns (word) { return 1; }\n";
    let case = wrong_qualifier_case(main, "N.Value");

    assert!(case
        .diagnostic(UNDEFINED_TYPE)
        .message
        .contains("did you mean type `M.Value`?"));
    assert!(case.actions(UNDEFINED_TYPE).is_empty());
}

#[test]
fn qualified_name_with_wrong_qualifier_and_leaf_has_no_partial_fix() {
    let main = "import * as M from math;\nfunction main(x: N.Vaue) returns (word) { return 1; }\n";
    let case = wrong_qualifier_case(main, "N.Vaue");

    assert!(case
        .diagnostic(UNDEFINED_TYPE)
        .message
        .contains("did you mean type `M.Value`?"));
    assert!(case.actions(UNDEFINED_TYPE).is_empty());
}

#[test]
fn exact_constructor_qualification_is_preferred() {
    let source = "enum Option { None, Some(word) }\nfunction main(x: word) returns (Option) { return Some(x); }\n";
    let case = Case::new(&[(MAIN, source)])
        .error(
            UNQUALIFIED_CONSTRUCTOR,
            "unqualified constructor: Some",
            last_offset_of(source, "Some"),
            4,
        )
        .suggestion("Option.Some", Applicability::MachineApplicable);
    let diagnostic = case.diagnostic(UNQUALIFIED_CONSTRUCTOR);
    let action = case.action(UNQUALIFIED_CONSTRUCTOR);

    assert_eq!(action.title, "Replace with `Option.Some`");
    assert!(action.is_preferred);
    assert_eq!(
        placed(&action, &case.uri),
        Some(vec![(diagnostic.range, "Option.Some".to_owned())])
    );
}

#[test]
fn no_op_suggestion_edits_are_not_emitted() {
    let source = "function main() returns (word) { return 1; }\n";
    let (world, uri) = world_with_main(source);
    let suggestion = Suggestion {
        title: "No change".to_owned(),
        applicability: Applicability::MachineApplicable,
        edits: vec![SuggestedEdit {
            range: DiagRange {
                file_url: uri.as_str().to_owned(),
                start: 0,
                end: "function".len() as u32,
            },
            replacement: "function".to_owned(),
        }],
    };

    assert!(suggestion_workspace_edit(&world, &suggestion).is_none());
}

const PROVIDER: &str = "function value() returns (word) { return 1; }\nexport { value };\n";

fn missing_value(case: Case, source: &str) -> Case {
    case.error(UNDEFINED_NAME, "undefined name: value", offset_of(source, "value"), 5)
        .problem(term("value"))
}

/// Whether a name in the first of some documents is declared in a document.
fn is_defined_in(documents: &[(&str, &str)], name: &str, uri: &str) -> bool {
    let world = world_with(documents);
    let (main, source) = documents[0];
    let at = position(&world, &url(main), offset_of(source, name));
    handle_definition(&world, &analyse(&world), &url(main), at)
        .is_some_and(|location| location.uri == url(uri))
}

/// Where a new declaration goes that stands in front of everything else.
fn at_start(text: &str) -> Option<Vec<(Range, String)>> {
    Some(vec![(Range::new(Position::new(0, 0), Position::new(0, 0)), text.to_owned())])
}

#[test]
fn unique_exported_term_gets_a_preferred_auto_import() {
    let main = "function main() returns (word) { return value(); }\n";
    let case = missing_value(Case::new(&[(MAIN, main), (MATH, PROVIDER)]), main).names(
        "value",
        ImportNamespace::Term,
        &["lib.math"],
    );
    let action = case.action(UNDEFINED_NAME);

    assert_eq!(action.title, "Import `value` from `lib.math`");
    assert!(action.is_preferred);
    assert_eq!(placed(&action, &case.uri), at_start("import {value} from lib.math;\n"));

    let fixed = format!("import {{value}} from lib.math;\n{main}");
    assert!(is_defined_in(&[(MAIN, &fixed), (MATH, PROVIDER)], "value()", MATH));
}

#[test]
fn multiple_auto_import_providers_are_sorted_and_nonpreferred() {
    let main = "function main() returns (word) { return value(); }\n";
    let case = Case::new(&[(MAIN, main), (MATH, PROVIDER), ("file:///main/util.solc", PROVIDER)]);
    let case = missing_value(case, main).names(
        "value",
        ImportNamespace::Term,
        &["lib.math", "lib.util"],
    );
    let actions = case.actions(UNDEFINED_NAME);

    assert_eq!(
        case.titles(UNDEFINED_NAME),
        ["Import `value` from `lib.math`", "Import `value` from `lib.util`"]
    );
    assert!(actions.iter().all(|action| !action.is_preferred));
}

#[test]
fn auto_import_extends_an_existing_selective_import() {
    let main = "import {other} from lib.math;\nfunction main() returns (word) { return value(); }\n";
    let math = "function other() returns (word) { return 0; }\nfunction value() returns (word) { return 1; }\nexport { other, value };\n";
    let case = missing_value(Case::new(&[(MAIN, main), (MATH, math)]), main).names(
        "value",
        ImportNamespace::Term,
        &["lib.math"],
    );
    let insertion = offset_of(main, "other") + "other".len() as u32;

    assert_eq!(
        placed(&case.action(UNDEFINED_NAME), &case.uri),
        Some(vec![(range(&case.world, &case.uri, insertion, 0), ", value".to_owned())])
    );
}

#[test]
fn exported_types_and_classes_are_auto_importable() {
    let main = "function keep(x: Token) returns (Token) { return x; }\n";
    let provider = "enum Token { Token(word) }\nexport { Token };\n";
    let case = Case::new(&[(MAIN, main), ("file:///main/model.solc", provider)])
        .error(UNDEFINED_TYPE, "undefined type: Token", offset_of(main, "Token"), 5)
        .problem(NameProblem::TypeConstructor { name: "Token".to_owned() })
        .names("Token", ImportNamespace::Type, &["lib.model"]);
    assert_eq!(case.action(UNDEFINED_TYPE).title, "Import `Token` from `lib.model`");

    let main = "function keep<a>(x: a) returns (a) where a: Comparable { return x; }\n";
    let provider = "trait Comparable<a> {\n  function compare(x: a, y: a) returns (word);\n}\nexport { Comparable };\n";
    let case = Case::new(&[(MAIN, main), ("file:///main/classes.solc", provider)])
        .error(UNDEFINED_CLASS, "undefined class: Comparable", offset_of(main, "Comparable"), 10)
        .problem(NameProblem::Class { name: "Comparable".to_owned() })
        .names("Comparable", ImportNamespace::Class, &["lib.classes"]);
    assert_eq!(
        case.action(UNDEFINED_CLASS).title,
        "Import `Comparable` from `lib.classes`"
    );
}

#[test]
fn resolved_member_errors_do_not_offer_term_imports() {
    let main = "enum Local { Present }\nfunction main() returns (word) { return Local.missing; }\n";
    let provider = "function missing() returns (word) { return 1; }\nexport { missing };\n";
    let case = Case::new(&[(MAIN, main), ("file:///main/symbols.solc", provider)])
        .error(UNDEFINED_NAME, "undefined name: missing", offset_of(main, "missing"), 7)
        .problem(NameProblem::Other)
        .names("missing", ImportNamespace::Term, &["lib.symbols"]);

    assert!(case.actions(UNDEFINED_NAME).is_empty());
}

#[test]
fn resolved_module_member_does_not_offer_a_constructor_import() {
    let main = "import * as Math from lib.foo;\nfunction main() returns (word) { return Math.Value(1); }\n";
    let case = Case::new(&[
        (MAIN, main),
        (
            "file:///main/foo.solc",
            "function other() returns (word) { return 0; }\nexport { other };\n",
        ),
        (
            "file:///main/model.solc",
            "enum Math { Value(word) }\nexport { Math(*) };\n",
        ),
    ])
    .error(UNDEFINED_NAME, "undefined name: Math.Value", offset_of(main, "Math.Value"), 10)
    .problem(NameProblem::ModuleMember { access_path: "Math.Value".to_owned() })
    .constructors("Math", "Value", &["lib.model"]);

    assert!(case.offers_no_import(UNDEFINED_NAME));
}

const OPTION: &str = "enum Option { None, Some(word) }\nexport { Option(*) };\n";

fn option_case(main: &str, provider: &str, problem: NameProblem) -> Case {
    let written = "Option.Some";
    Case::new(&[(MAIN, main), ("file:///main/model.solc", provider)])
        .error(
            UNDEFINED_NAME,
            "undefined name: Option.Some",
            offset_of(main, written),
            written.len(),
        )
        .problem(problem)
}

#[test]
fn qualified_constructor_expression_imports_the_visible_type() {
    let main = "function main() returns (word) { let option = Option.Some(1); return 1; }\n";
    let problem = NameProblem::ModuleQualifier { access_path: "Option.Some".to_owned() };
    let case =
        option_case(main, OPTION, problem).constructors("Option", "Some", &["lib.model"]);
    let action = case.action(UNDEFINED_NAME);

    assert_eq!(action.title, "Import `Option` from `lib.model`");
    assert!(action.is_preferred);
    assert_eq!(placed(&action, &case.uri), at_start("import {Option} from lib.model;\n"));

    let fixed = format!("import {{Option}} from lib.model;\n{main}");
    let model = "file:///main/model.solc";
    assert!(is_defined_in(&[(MAIN, &fixed), (model, OPTION)], "Some(1)", model));
}

#[test]
fn qualified_constructor_pattern_imports_the_visible_type() {
    let main = "function main(x: word) returns (word) {\n  match (x) { case Option.Some(value) { return value; } default { return 0; } }\n}\n";
    let problem = NameProblem::QualifiedConstructor { access_path: "Option.Some".to_owned() };
    let case =
        option_case(main, OPTION, problem).constructors("Option", "Some", &["lib.model"]);

    assert_eq!(case.action(UNDEFINED_NAME).title, "Import `Option` from `lib.model`");
}

#[test]
fn resolved_pattern_type_does_not_import_a_conflicting_constructor_owner() {
    let main = "enum Option { None }\nfunction main(x: word) returns (word) {\n  match (x) { case Option.Some(value) { return value; } default { return 0; } }\n}\n";
    let case = option_case(main, OPTION, NameProblem::Other)
        .constructors("Option", "Some", &["lib.model"]);

    assert!(case.offers_no_import(UNDEFINED_NAME));
}

#[test]
fn qualified_constructor_import_requires_that_constructor_to_be_exported() {
    let main = "function main() returns (word) { let option = Option.Some(1); return 1; }\n";
    let provider = "enum Option { None, Some(word) }\nexport { Option(None) };\n";
    let problem = NameProblem::ModuleQualifier { access_path: "Option.Some".to_owned() };
    let case = option_case(main, provider, problem)
        .constructors("Option", "None", &["lib.model"]);

    assert!(case.actions(UNDEFINED_NAME).is_empty());
}

#[test]
fn module_import_requires_an_immediate_term_member() {
    let main = "function main() returns (word) { return math.Value; }\n";
    let provider = "enum Value { Value(word) }\nexport { Value };\n";
    let case = Case::new(&[(MAIN, main), (MATH, provider)])
        .error(UNDEFINED_NAME, "undefined name: math.Value", offset_of(main, "math.Value"), 10)
        .problem(NameProblem::ModuleQualifier { access_path: "math.Value".to_owned() })
        .modules("math", "value", &["lib.math"]);

    assert!(case.offers_no_import(UNDEFINED_NAME));
}

/// A document that calls `math.value` without a module of that name.
fn missing_math(documents: &[(&str, &str)], modules: &[&str]) -> Case {
    let main = documents[0].1;
    let written = "math.value";
    let mut case = Case::new(documents)
        .error(
            UNDEFINED_NAME,
            "undefined name: math.value",
            offset_of(main, written),
            written.len(),
        )
        .problem(NameProblem::ModuleQualifier { access_path: written.to_owned() })
        .modules("math", "value", modules);
    case.findings.identifiers.extend(identifiers(&["other"]));
    case
}

#[test]
fn missing_module_qualifier_gets_a_namespace_import() {
    let main = "function main() returns (word) { return math.value(); }\n";
    let case = missing_math(&[(MAIN, main), (MATH, PROVIDER)], &["lib.math"]);
    let action = case.action(UNDEFINED_NAME);

    assert_eq!(action.title, "Import module `math` from `lib.math`");
    assert!(action.is_preferred);
    assert_eq!(placed(&action, &case.uri), at_start("import * as math from lib.math;\n"));

    let fixed = format!("import * as math from lib.math;\n{main}");
    assert!(is_defined_in(&[(MAIN, &fixed), (MATH, PROVIDER)], "value()", MATH));
}

#[test]
fn namespace_import_stays_separate_from_an_existing_selective_import() {
    let main = "import {other} from lib.math;\nfunction main() returns (word) { return math.value(); }\n";
    let provider = "function other() returns (word) { return 0; }\nfunction value() returns (word) { return 1; }\nexport { other, value };\n";
    let case = missing_math(&[(MAIN, main), (MATH, provider)], &["lib.math"]);
    let insertion = main.find('\n').expect("import line end") as u32 + 1;

    assert_eq!(
        placed(&case.action(UNDEFINED_NAME), &case.uri),
        Some(vec![(
            range(&case.world, &case.uri, insertion, 0),
            "import * as math from lib.math;\n".to_owned()
        )])
    );
}

#[test]
fn bare_import_path_does_not_suppress_a_namespace_import() {
    let main = "import * as deep from lib.math.deep;\nfunction main() returns (word) { return math.value(); }\n";
    let deep = "function old() returns (word) { return 0; }\nexport { old };\n";
    let case = missing_math(
        &[
            (MAIN, main),
            ("file:///main/math/deep.solc", deep),
            ("file:///main/other/math.solc", PROVIDER),
        ],
        &["lib.other.math"],
    );
    let insertion = main.find('\n').expect("import line end") as u32 + 1;
    let action = case.action(UNDEFINED_NAME);

    assert_eq!(action.title, "Import module `math` from `lib.other.math`");
    assert_eq!(
        placed(&action, &case.uri),
        Some(vec![(
            range(&case.world, &case.uri, insertion, 0),
            "import * as math from lib.other.math;\n".to_owned()
        )])
    );
}

#[test]
fn namespace_import_does_not_conflict_with_an_unqualified_term() {
    let main = "import {other} from lib.math;\nalias math = word;\nfunction main() returns (word) { return math.value(); }\n";
    let provider = "function other() returns (word) { return 0; }\nfunction value() returns (word) { return 1; }\nexport { other, value };\n";
    let case = Case::new(&[(MAIN, main), (MATH, provider)])
        .error(UNDEFINED_NAME, "undefined name: math.value", offset_of(main, "math.value"), 10)
        .problem(NameProblem::Other)
        .modules("math", "value", &["lib.math"]);

    assert!(case.actions(UNDEFINED_NAME).is_empty());
}

#[test]
fn auto_import_candidates_stay_inside_the_current_workspace_root() {
    let (left_root, right_root) = two_roots("solcore-lsp-auto-import-roots");
    let left_main = url("file:///tmp/solcore-lsp-auto-import-roots/left/main.solc");
    let left_math = url("file:///tmp/solcore-lsp-auto-import-roots/left/math.solc");
    let right_extra = url("file:///tmp/solcore-lsp-auto-import-roots/right/extra.solc");
    let main = "function main() returns (word) { return value(); }\n";
    let mut world = WorldState::new();
    world.load_workspace_roots(vec![
        (
            left_root,
            vec![
                (left_main.clone(), main.to_owned()),
                (left_math, PROVIDER.to_owned()),
            ],
        ),
        (right_root, vec![(right_extra, PROVIDER.to_owned())]),
    ]);
    assert!(world.open_document(left_main.clone(), main.to_owned()));
    let case = missing_value(Case::of(world, left_main), main).names(
        "value",
        ImportNamespace::Term,
        &["lib.math"],
    );

    assert_eq!(case.action(UNDEFINED_NAME).title, "Import `value` from `lib.math`");
}

#[test]
fn generated_dispatch_missing_type_and_class_have_auto_import_candidates() {
    let source = r#"import std;
import {address as address_} from std.opcodes;

contract C {
  constructor() {}
  function nothing() public {}
}
"#;
    let contract = offset_of(source, "C {");
    let mut case = Case::new(&[(MAIN, source)])
        .error(UNDEFINED_TYPE, "undefined type: NonPayable", contract, 1)
        .problem(NameProblem::TypeConstructor { name: "NonPayable".to_owned() })
        .error(UNDEFINED_CLASS, "undefined class: SigString", contract, 1)
        .problem(NameProblem::Class { name: "SigString".to_owned() })
        .names("NonPayable", ImportNamespace::Type, &["std.dispatch"])
        .names("SigString", ImportNamespace::Class, &["std.dispatch"]);
    case.findings
        .identifiers
        .extend(identifiers(&["NonPayable", "SigString"]));

    for (code, expected_title) in [
        (UNDEFINED_TYPE, "Import `NonPayable` from `std.dispatch`"),
        (UNDEFINED_CLASS, "Import `SigString` from `std.dispatch`"),
    ] {
        let action = case.action(code);
        assert_eq!(action.title, expected_title);
        assert!(action.is_preferred);
    }
}

#[test]
fn generated_dispatch_missing_terms_have_auto_import_candidates() {
    let source = r#"import std;
import {address as address_} from std.opcodes;
import {NonPayable, SigString} from std.dispatch;

contract C {
  constructor() {}
  function nothing() public {}
}
"#;
    let contract = offset_of(source, "C {");
    let names = ["Contract", "Fallback", "Method", "RunContract", "fallback_default_implementation"];
    let mut case = Case::new(&[(MAIN, source)])
        .names("RunContract", ImportNamespace::Term, &["std.dispatch"])
        .names("fallback_default_implementation", ImportNamespace::Term, &["std.dispatch"]);
    case.findings.identifiers.extend(identifiers(&names));
    for name in names {
        case = case
            .error(UNDEFINED_NAME, &format!("undefined name: {name}"), contract, 1)
            .problem(term(name));
    }
    let diagnostics = compute_diagnostics(&case.world, &case.uri, &case.found);
    let titles = |message: &str| -> Vec<String> {
        let diagnostic = diagnostics
            .iter()
            .find(|diagnostic| diagnostic.message.starts_with(message))
            .expect("diagnostic");
        case.actions_in(diagnostic.range, &context(diagnostic))
            .into_iter()
            .map(|action| action.title)
            .collect()
    };

    for message in [
        "undefined name: Contract",
        "undefined name: Fallback",
        "undefined name: Method",
    ] {
        assert!(titles(message)
            .iter()
            .all(|title| !title.starts_with("Import all from ")));
    }
    for (message, expected_title) in [
        (
            "undefined name: RunContract",
            "Import `RunContract` from `std.dispatch`",
        ),
        (
            "undefined name: fallback_default_implementation",
            "Import `fallback_default_implementation` from `std.dispatch`",
        ),
    ] {
        assert!(titles(message).iter().any(|title| title == expected_title));
    }
}

#[test]
fn missing_qualifiers_can_be_classes_types_and_modules() {
    let main = "function main() returns (word) { return math.value(); }\n";
    let case = Case::new(&[(MAIN, main)])
        .error(UNDEFINED_NAME, "undefined name: math.value", offset_of(main, "math.value"), 10)
        .problem(NameProblem::ModuleQualifier { access_path: "math.value".to_owned() })
        .modules("math", "value", &["lib.math"])
        .constructors("math", "value", &["lib.model"])
        .names("math", ImportNamespace::Class, &["lib.classes"]);

    assert_eq!(
        case.titles(UNDEFINED_NAME),
        [
            "Import `math` from `lib.classes`",
            "Import `math` from `lib.model`",
            "Import module `math` from `lib.math`",
        ]
    );
}

#[test]
fn a_single_import_is_preferred_unless_something_else_is_suggested() {
    let main = "function main() returns (word) { return value(); }\n";
    let case = missing_value(Case::new(&[(MAIN, main), (MATH, PROVIDER)]), main).names(
        "value",
        ImportNamespace::Term,
        &["lib.math"],
    );
    let action = case.action(UNDEFINED_NAME);
    assert_eq!(action.title, "Import `value` from `lib.math`");
    assert!(action.is_preferred);
    assert_eq!(
        placed(&action, &case.uri),
        Some(vec![(
            Range::new(Position::new(0, 0), Position::new(0, 0)),
            "import {value} from lib.math;\n".to_owned()
        )])
    );

    let case = case.suggestion("valve", Applicability::MaybeIncorrect);
    let actions = case.actions(UNDEFINED_NAME);
    assert_eq!(actions.len(), 2);
    assert!(actions.iter().all(|action| !action.is_preferred));
}

#[test]
fn imports_are_offered_up_to_the_limit() {
    let main = "function main() returns (word) { return value(); }\n";
    let paths: Vec<String> = (0..MAX_AUTO_IMPORT_CANDIDATES + 5)
        .map(|number| format!("lib.m{number}"))
        .collect();
    let modules: Vec<&str> = paths.iter().map(String::as_str).collect();
    let mut case = missing_value(Case::new(&[(MAIN, main)]), main).names(
        "value",
        ImportNamespace::Term,
        &modules,
    );
    for number in 0..MAX_AUTO_IMPORT_CANDIDATES + 5 {
        case.findings.identifiers.push(format!("m{number}"));
    }

    assert_eq!(case.actions(UNDEFINED_NAME).len(), MAX_AUTO_IMPORT_CANDIDATES);
}

#[test]
fn overlapping_or_incomplete_suggestions_make_no_fix() {
    let (world, uri) = world_with_main(TYPO);
    let edit = |start: u32, end: u32, replacement: &str| SuggestedEdit {
        range: DiagRange { file_url: uri.as_str().to_owned(), start, end },
        replacement: replacement.to_owned(),
    };
    let suggestion = |edits: Vec<SuggestedEdit>| Suggestion {
        title: "Change".to_owned(),
        applicability: Applicability::MachineApplicable,
        edits,
    };

    let overlapping = suggestion(vec![edit(0, 4, "a"), edit(2, 6, "b")]);
    assert!(suggestion_workspace_edit(&world, &overlapping).is_none());
    let repeated = suggestion(vec![edit(9, 14, "b"), edit(0, 4, "a"), edit(9, 14, "b")]);
    let edits = suggestion_workspace_edit(&world, &repeated).expect("edits");
    let texts: Vec<&str> = edits.iter().map(|edit| edit.new_text.as_str()).collect();
    assert_eq!(texts, ["a", "b"]);

    let case = Case::new(&[(MAIN, TYPO)])
        .error(UNDEFINED_NAME, "undefined name: vaue", offset_of(TYPO, "vaue"), 4)
        .suggestion("value", Applicability::HasPlaceholders)
        .suggestion("value", Applicability::Unspecified);
    assert!(case.actions(UNDEFINED_NAME).is_empty());
}

// ---------------------------------------------------------------------------------------------
// Messages
// ---------------------------------------------------------------------------------------------

/// Dispatches a message that the server handles, and returns what it carries.
fn handled(text: &str) -> (Method, Option<String>, serde_json::Value) {
    match dispatch(text) {
        Dispatch::Handle { method, id, params } => {
            let params = serde_json::from_str(&params.expect("params")).expect("json");
            (method, id, params)
        }
        Dispatch::Answer(_) => panic!("expected a message that is handled: {text}"),
    }
}

fn uri_in(params: &serde_json::Value) -> Url {
    url(params["textDocument"]["uri"].as_str().expect("uri"))
}

fn position_in(value: &serde_json::Value) -> Position {
    let number = |key: &str| value[key].as_u64().expect("number") as u32;
    Position::new(number("line"), number("character"))
}

/// Takes a message about a document or the folders of the workspace into a world.
fn notify(world: &mut WorldState, text: &str) {
    let (method, _, params) = handled(text);
    let folders = |list: &serde_json::Value| -> Vec<Url> {
        list.as_array()
            .into_iter()
            .flatten()
            .map(|folder| url(folder["uri"].as_str().expect("uri")))
            .collect()
    };
    match method {
        Method::Initialize => {
            let roots = initial_workspace_roots(folders(&params["workspaceFolders"]), None);
            world.load_workspace_roots(roots.into_iter().map(|root| (root, Vec::new())).collect());
        }
        Method::DidChangeWorkspaceFolders => {
            let added = folders(&params["event"]["added"]);
            world.update_workspace_roots(
                folders(&params["event"]["removed"]),
                added.into_iter().map(|root| (root, Vec::new())).collect(),
            );
        }
        Method::DidOpen => {
            let text = params["textDocument"]["text"].as_str().expect("text");
            world.open_document(uri_in(&params), text.to_owned());
        }
        Method::DidChange => {
            let changes = params["contentChanges"].as_array().expect("changes");
            let changes = changes
                .iter()
                .map(|change| TextDocumentContentChangeEvent {
                    range: None,
                    range_length: None,
                    text: change["text"].as_str().expect("text").to_owned(),
                })
                .collect();
            assert!(world.apply_document_changes(&uri_in(&params), changes));
        }
        Method::DidClose => close_to_disk(world, uri_in(&params), None),
        _ => panic!("expected a notification"),
    }
}

fn did_open_message(uri: &str, source: &str) -> String {
    let text = serde_json::Value::from(source).to_string();
    format!(
        r#"{{"jsonrpc":"2.0","method":"textDocument/didOpen","params":{{"textDocument":{{"uri":"{uri}","languageId":"solcore","version":1,"text":{text}}}}}}}"#
    )
}

fn did_change_message(uri: &str, source: &str) -> String {
    let text = serde_json::Value::from(source).to_string();
    format!(
        r#"{{"jsonrpc":"2.0","method":"textDocument/didChange","params":{{"textDocument":{{"uri":"{uri}","version":2}},"contentChanges":[{{"text":{text}}}]}}}}"#
    )
}

fn did_close_message(uri: &str) -> String {
    format!(
        r#"{{"jsonrpc":"2.0","method":"textDocument/didClose","params":{{"textDocument":{{"uri":"{uri}"}}}}}}"#
    )
}

fn initialize_message(root: &str) -> String {
    format!(
        r#"{{"jsonrpc":"2.0","id":1,"method":"initialize","params":{{"capabilities":{{}},"workspaceFolders":[{{"uri":"{root}","name":"left"}}]}}}}"#
    )
}

fn folders_message(added: &str, removed: &str) -> String {
    format!(
        r#"{{"jsonrpc":"2.0","method":"workspace/didChangeWorkspaceFolders","params":{{"event":{{"added":[{added}],"removed":[{removed}]}}}}}}"#
    )
}

fn world_after_open(source: &str) -> WorldState {
    let mut world = WorldState::new();
    notify(&mut world, &did_open_message(MAIN, source));
    world
}

/// A request about a position in the main document.
fn position_request(id: &str, method: &str, line: u32, character: u32) -> String {
    format!(
        r#"{{"jsonrpc":"2.0","id":{id},"method":"{method}","params":{{"textDocument":{{"uri":"{MAIN}"}},"position":{{"line":{line},"character":{character}}}}}}}"#
    )
}

fn document_request(id: &str, method: &str) -> String {
    format!(
        r#"{{"jsonrpc":"2.0","id":{id},"method":"{method}","params":{{"textDocument":{{"uri":"{MAIN}"}}}}}}"#
    )
}

fn query_request(id: &str, query: &str) -> String {
    format!(
        r#"{{"jsonrpc":"2.0","id":{id},"method":"workspace/symbol","params":{{"query":"{query}"}}}}"#
    )
}

fn symbols_for(world: &WorldState, message: &str) -> Vec<SymbolInformation> {
    let (method, _, params) = handled(message);
    assert_eq!(method, Method::WorkspaceSymbol);
    workspace_symbols(world, params["query"].as_str().expect("query"))
}

#[test]
fn initialize_returns_capabilities_response() {
    let text = r#"{"jsonrpc":"2.0","id":1,"method":"initialize","params":{"capabilities":{}}}"#;
    let (method, id, _) = handled(text);
    assert_eq!(method, Method::Initialize);
    assert_eq!(id.as_deref(), Some("1"));

    let mut world = WorldState::new();
    notify(&mut world, text);
    assert_eq!(world.workspace_root_count(), 0);

    let result = initialize_result();
    assert_eq!(result.server_name, "solcore-lsp");
    assert_eq!(result.server_version, "0.1.0");
    assert_eq!(result.capabilities, server_capabilities());
}

#[test]
fn initialize_and_workspace_folder_changes_configure_multiple_roots() {
    let mut world = WorldState::new();
    let left = r#"{"uri":"file:///workspace/left/","name":"left"}"#;
    let right = r#"{"uri":"file:///workspace/right/","name":"right"}"#;

    notify(&mut world, &initialize_message("file:///workspace/left/"));
    assert_eq!(world.workspace_root_count(), 1);
    notify(&mut world, &folders_message(right, ""));
    assert_eq!(world.workspace_root_count(), 2);
    notify(&mut world, &folders_message("", left));
    assert_eq!(world.workspace_root_count(), 1);
}

#[test]
fn did_open_publishes_diagnostics() {
    let source = "function f() returns (word) {\n  return true;\n}\n";
    let world = world_after_open(source);
    let uri = url(MAIN);
    let primary = source_range(&world, &uri, offset_of(source, "true"), 4);
    let found = vec![reported_error("type-mismatch", "expected word, found bool", primary)];

    assert_eq!(world.open_document_uris(), vec![uri.clone()]);
    assert!(!compute_diagnostics(&world, &uri, &found).is_empty());
}

#[test]
fn did_change_republishes_importer_diagnostics_when_sibling_exports_change() {
    let mut world = WorldState::new();
    let main = "import {double} from math;\n\nfunction main() returns (word) {\n  return double(21);\n}\n";
    let math_no_export = "function double(x: word) returns (word) { return x; }\n";
    let math_with_export =
        "function double(x: word) returns (word) { return x; }\n\nexport { double };\n";
    let main_diagnostics =
        |world: &WorldState| module_diagnostics(world, "/main/main.solc", &url(MAIN));
    let has = |diagnostics: &[Diagnostic], code: &str| {
        diagnostics.iter().any(|diagnostic| has_code(diagnostic, code))
    };

    notify(&mut world, &did_open_message(MAIN, main));
    notify(&mut world, &did_open_message(MATH, math_no_export));
    assert!(world.open_document_uris().contains(&url(MAIN)));
    assert!(has(&main_diagnostics(&world), UNKNOWN_IMPORT_ITEM));

    notify(&mut world, &did_change_message(MATH, math_with_export));
    assert!(world.open_document_uris().contains(&url(MAIN)));
    let after_export = main_diagnostics(&world);
    assert!(!has(&after_export, UNKNOWN_IMPORT_ITEM));
    assert!(!has(&after_export, MODULE_NOT_FOUND));
}

/// Asks for the quick fixes of the undefined name of a case by a message.
fn requested_fixes(case: &Case, id: &str) -> Vec<CodeAction> {
    let diagnostic = case.diagnostic(UNDEFINED_NAME);
    let Range { start, end } = diagnostic.range;
    let text = format!(
        r#"{{"jsonrpc":"2.0","id":"{id}","method":"textDocument/codeAction","params":{{"textDocument":{{"uri":"{MAIN}"}},"range":{{"start":{{"line":{},"character":{}}},"end":{{"line":{},"character":{}}}}},"context":{{"diagnostics":[],"only":["quickfix"]}}}}}}"#,
        start.line, start.character, end.line, end.character
    );
    let (method, answered, params) = handled(&text);
    assert_eq!(method, Method::CodeAction);
    assert_eq!(answered, Some(format!("\"{id}\"")));
    assert_eq!(uri_in(&params), case.uri);
    let only = params["context"]["only"].as_array().expect("kinds");
    let wanted = CodeActionContext {
        diagnostics: vec![requested(&diagnostic)],
        only: Some(
            only.iter().map(|kind| kind.as_str().expect("kind").to_owned()).collect(),
        ),
    };
    let range = Range::new(
        position_in(&params["range"]["start"]),
        position_in(&params["range"]["end"]),
    );
    case.actions_in(range, &wanted)
}

fn world_after_opens(documents: &[(&str, &str)]) -> WorldState {
    let mut world = WorldState::new();
    for (uri, source) in documents {
        notify(&mut world, &did_open_message(uri, source));
    }
    world
}

#[test]
fn missing_import_code_action_round_trips_over_wasm_dispatch() {
    let provider = "function value() returns (word) { return 1; }\n\nexport { value };\n";
    let main = "function main() returns (word) { return value(); }\n";
    let world = world_after_opens(&[(MATH, provider), (MAIN, main)]);
    let case = missing_value(Case::of(world, url(MAIN)), main).names(
        "value",
        ImportNamespace::Term,
        &["lib.math"],
    );

    let actions = requested_fixes(&case, "missing-import-1");
    assert_eq!(actions.len(), 1);
    assert_eq!(actions[0].title, "Import `value` from `lib.math`");
    assert!(actions[0].is_preferred);
    assert_eq!(placed(&actions[0], &case.uri), at_start("import {value} from lib.math;\n"));
}

#[test]
fn qualified_import_code_actions_round_trip_over_wasm_dispatch() {
    let cases = [
        (
            "enum Option { None, Some(word) }\nexport { Option(*) };\n",
            "function main() returns (word) { let option = Option.Some(1); return 1; }\n",
            "Option.Some",
            "Import `Option` from `lib.math`",
            "import {Option} from lib.math;\n",
        ),
        (
            "function value() returns (word) { return 1; }\nexport { value };\n",
            "function main() returns (word) { return math.value(); }\n",
            "math.value",
            "Import module `math` from `lib.math`",
            "import * as math from lib.math;\n",
        ),
    ];

    for (provider, main, written, expected_title, expected_edit) in cases {
        let world = world_after_opens(&[(MATH, provider), (MAIN, main)]);
        let case = Case::of(world, url(MAIN))
            .error(
                UNDEFINED_NAME,
                &format!("undefined name: {written}"),
                offset_of(main, written),
                written.len(),
            )
            .problem(NameProblem::ModuleQualifier { access_path: written.to_owned() })
            .constructors("Option", "Some", &["lib.math"])
            .modules("math", "value", &["lib.math"]);

        let actions = requested_fixes(&case, "qualified-missing-import");
        assert_eq!(actions.len(), 1);
        assert_eq!(actions[0].title, expected_title);
        assert!(actions[0].is_preferred);
        assert_eq!(placed(&actions[0], &case.uri), at_start(expected_edit));
    }
}

#[test]
fn standard_library_missing_import_round_trips_over_wasm_dispatch() {
    let source = "function main() returns (word) { assert(true); return 1; }\n";
    let case = Case::of(world_after_open(source), url(MAIN))
        .error(UNDEFINED_NAME, "undefined name: assert", offset_of(source, "assert"), 6)
        .problem(term("assert"))
        .names("assert", ImportNamespace::Term, &["std"]);

    let actions = requested_fixes(&case, "std-missing-import-1");
    assert_eq!(actions.len(), 1);
    assert_eq!(actions[0].title, "Import `assert` from `std`");
    assert_eq!(placed(&actions[0], &case.uri), at_start("import {assert} from std;\n"));
}

#[test]
fn hover_and_document_symbol_requests_return_results() {
    let world = world_after_open("function main() returns (word) {\n  return 42;\n}\n");

    let (method, id, params) =
        handled(&position_request("\"hover-1\"", "textDocument/hover", 1, 9));
    assert_eq!((method, id.as_deref()), (Method::Hover, Some("\"hover-1\"")));
    assert!(handle_hover(
        &world,
        &analyse(&world),
        &uri_in(&params),
        position_in(&params["position"])
    )
    .is_some());

    let (method, id, params) = handled(&document_request("2", "textDocument/documentSymbol"));
    assert_eq!((method, id.as_deref()), (Method::DocumentSymbol, Some("2")));
    assert!(handle_document_symbol(&world, &analyse(&world), &uri_in(&params)).is_some());
}

#[test]
fn completion_request_returns_items() {
    let source = "function helper() returns (word) { return 1; }\nfunction main(x: word) returns (word) { return x; }\n";
    let world = world_after_open(source);
    let line = source.lines().nth(1).expect("main line");
    let character = offset_of(line, "return x") + "return ".len() as u32;

    let (method, id, params) =
        handled(&position_request("\"completion-1\"", "textDocument/completion", 1, character));
    assert_eq!((method, id.as_deref()), (Method::Completion, Some("\"completion-1\"")));
    let items = handle_completion(
        &world,
        &analyse(&world),
        &uri_in(&params),
        position_in(&params["position"]),
    )
    .expect("completion");
    assert!(items.iter().any(|item| item.label == "helper"));
}

#[test]
fn references_request_returns_locations() {
    let world = world_after_open("function id(x: word) returns (word) {\n  return x;\n}\n");

    let (method, id, params) =
        handled(&position_request("\"refs-1\"", "textDocument/references", 1, 9));
    assert_eq!((method, id.as_deref()), (Method::References, Some("\"refs-1\"")));
    let locations = handle_references(
        &world,
        &analyse(&world),
        &uri_in(&params),
        position_in(&params["position"]),
        true,
    )
    .expect("references");
    assert_eq!(locations.len(), 2);
}

#[test]
fn signature_help_request_returns_active_parameter() {
    let source = "function f(a: word, b: word) returns (word) {\n  return a;\n}\n\nfunction main() returns (word) {\n  return f(1, 2);\n}\n";
    let world = world_after_open(source);

    let (method, id, params) =
        handled(&position_request("\"signature-1\"", "textDocument/signatureHelp", 5, 13));
    assert_eq!((method, id.as_deref()), (Method::SignatureHelp, Some("\"signature-1\"")));
    let help = handle_signature_help(
        &world,
        &analyse(&world),
        &uri_in(&params),
        position_in(&params["position"]),
    )
    .expect("signature help");
    assert_eq!(help.active_parameter, 1);
    let label = &help.signature.label;
    assert!(label.contains("f(") && label.contains("a: word") && label.contains("b: word"));
}

#[test]
fn semantic_tokens_full_request_returns_tokens() {
    let source = "function main(x: word) returns (word) {\n  return x;\n}\n";
    let world = world_after_open(source);

    let (method, id, params) =
        handled(&document_request("\"tokens-1\"", "textDocument/semanticTokens/full"));
    assert_eq!((method, id.as_deref()), (Method::SemanticTokensFull, Some("\"tokens-1\"")));
    let tokens = handle_semantic_tokens_full(&world, &analyse(&world), &uri_in(&params))
        .expect("semantic tokens");
    assert!(!tokens.is_empty());
    assert_eq!(tokens[0].delta_line, 0);
    assert_eq!(tokens[0].delta_start, offset_of(source, "main"));
}

#[test]
fn inlay_hint_request_returns_results() {
    let world =
        world_after_open("function main() returns (word) {\n  let x = 42;\n  return x;\n}\n");

    let (method, id, params) = handled(&format!(
        r#"{{"jsonrpc":"2.0","id":"inlay-1","method":"textDocument/inlayHint","params":{{"textDocument":{{"uri":"{MAIN}"}},"range":{{"start":{{"line":0,"character":0}},"end":{{"line":4,"character":0}}}}}}}}"#
    ));
    assert_eq!((method, id.as_deref()), (Method::InlayHint, Some("\"inlay-1\"")));
    let wanted = Range::new(
        position_in(&params["range"]["start"]),
        position_in(&params["range"]["end"]),
    );
    let hints = handle_inlay_hints(&world, &analyse(&world), &uri_in(&params), wanted)
        .expect("inlay hints");
    assert_eq!(hints.len(), 1);
    assert_eq!(hints[0].label, ": word");
}

#[test]
fn workspace_symbol_request_returns_matching_symbols() {
    let world = world_after_open("function target() returns (word) {\n  return 42;\n}\n");

    let symbols = symbols_for(&world, &query_request("\"symbols-1\"", "target"));
    assert_eq!(symbols.len(), 1);
    assert_eq!(symbols[0].name, "target");
    assert_eq!(symbols[0].location.uri, url(MAIN));
}

#[test]
fn code_action_formatting_folding_and_selection_requests_return_results() {
    let source = "function value() returns (word) { return 1; }\nfunction main() returns (word) {\n/* 😀 */ return vaue();\n}\n";
    let case = Case::of(world_after_open(source), url(MAIN))
        .error(UNDEFINED_NAME, "undefined name: vaue", offset_of(source, "vaue"), 4)
        .problem(term("vaue"))
        .suggestion("value", Applicability::MaybeIncorrect);
    let diagnostic = case.diagnostic(UNDEFINED_NAME);
    let asked = CodeActionContext {
        diagnostics: vec![requested(&diagnostic)],
        only: Some(vec!["quickfix".to_owned()]),
    };
    let actions = case.actions_in(diagnostic.range, &asked);
    assert_eq!(actions.len(), 1);
    assert_eq!(actions[0].title, "Replace with `value`");
    assert!(!actions[0].is_preferred);
    assert_eq!(actions[0].diagnostic, 0);
    assert_eq!(
        placed(&actions[0], &case.uri),
        Some(vec![(
            Range::new(Position::new(2, 16), Position::new(2, 20)),
            "value".to_owned()
        )])
    );

    let options = FormattingOptions {
        tab_size: 2,
        insert_spaces: true,
        trim_trailing_whitespace: None,
        insert_final_newline: None,
        trim_final_newlines: None,
    };
    let edits = handle_formatting(&case.world, &case.uri, &options).expect("format edits");
    assert_eq!(edits.len(), 1);

    let module = parsed(source).module;
    let folds = handle_folding_range(&case.world, &case.uri, Some(&module)).expect("folds");
    assert!(!folds.is_empty());

    let selections =
        handle_selection_range(&case.world, &case.uri, &[Position::new(2, 9)], Some(&module))
            .expect("selection ranges");
    assert_eq!(selections.len(), 1);
    assert!(selections[0].parent.is_some());
}

#[test]
fn closing_untitled_document_removes_it_from_workspace_symbols() {
    let mut world = WorldState::new();
    let uri = "untitled:Untitled-1";
    let source = "function ghost() returns (word) { return 42; }\n";
    notify(&mut world, &did_open_message(uri, source));
    notify(&mut world, &did_close_message(uri));

    assert!(symbols_for(&world, &query_request("\"symbols-after-close\"", "ghost")).is_empty());
}

#[test]
fn closing_workspace_document_removes_it_from_workspace_symbols() {
    let mut world = WorldState::new();
    let uri = "file:///main/ghost.solc";
    let source = "function ghost() returns (word) { return 42; }\n";
    notify(&mut world, &did_open_message(uri, source));
    notify(&mut world, &did_close_message(uri));

    let query = query_request("\"workspace-symbols-after-close\"", "ghost");
    assert!(symbols_for(&world, &query).is_empty());
    assert!(!world.workspace_document_uris().contains(&url(uri)));
}

#[test]
fn closing_file_detached_from_removed_workspace_discards_it() {
    let mut world = WorldState::new();
    let uri = "file:///main/ghost.solc";
    let source = "function ghost() returns (word) { return 42; }\n";
    notify(&mut world, &initialize_message("file:///main/"));
    notify(&mut world, &did_open_message(uri, source));
    let removed = r#"{"uri":"file:///main/","name":"left"}"#;
    notify(&mut world, &folders_message("", removed));
    notify(&mut world, &did_close_message(uri));

    assert!(world.line_index(&url(uri)).is_none());
    assert!(workspace_symbols(&world, "ghost").is_empty());
}

#[test]
fn document_highlight_request_returns_highlights() {
    let world = world_after_open("function id(x: word) returns (word) {\n  return x;\n}\n");

    let (method, id, params) =
        handled(&position_request("\"highlights-1\"", "textDocument/documentHighlight", 1, 9));
    assert_eq!((method, id.as_deref()), (Method::DocumentHighlight, Some("\"highlights-1\"")));
    let highlights = handle_document_highlight(
        &world,
        &analyse(&world),
        &uri_in(&params),
        position_in(&params["position"]),
    )
    .expect("highlights");
    assert_eq!(highlights.len(), 2);
    assert!(highlights
        .iter()
        .all(|highlight| highlight.kind == Some(DocumentHighlightKind::Text)));
}

#[test]
fn rename_requests_return_workspace_edit_and_prepare_range() {
    let world = world_after_open(
        "function id(x: word) returns (word) {\n  let y = x;\n  return x;\n}\n",
    );

    let (method, id, params) =
        handled(&position_request("\"prepare-rename-1\"", "textDocument/prepareRename", 1, 10));
    assert_eq!((method, id.as_deref()), (Method::PrepareRename, Some("\"prepare-rename-1\"")));
    let at = position_in(&params["position"]);
    assert_eq!(
        handle_prepare_rename(&world, &analyse(&world), &uri_in(&params), at),
        Some(Range::new(Position::new(1, 10), Position::new(1, 11)))
    );

    let (method, id, params) = handled(&format!(
        r#"{{"jsonrpc":"2.0","id":"rename-1","method":"textDocument/rename","params":{{"textDocument":{{"uri":"{MAIN}"}},"position":{{"line":1,"character":10}},"newName":"renamed"}}}}"#
    ));
    assert_eq!((method, id.as_deref()), (Method::Rename, Some("\"rename-1\"")));
    let new_name = params["newName"].as_str().expect("name");
    let edit = handle_rename(
        &world,
        &analyse(&world),
        &uri_in(&params),
        position_in(&params["position"]),
        new_name,
        &identifiers(&[new_name]),
    )
    .expect("rename edit");
    assert!(all_texts_are(&edit.changes, "renamed"));
    let starts: Vec<Position> = edited(&edit.changes, &url(MAIN))
        .expect("edits")
        .iter()
        .map(|range| range.start)
        .collect();
    assert_eq!(
        starts,
        vec![Position::new(0, 12), Position::new(1, 10), Position::new(2, 9)]
    );
}
