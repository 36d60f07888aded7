//! Static capability advertisement.
use vstd::prelude::*;

use crate::semantic_tokens::{
    legend_modifiers, legend_types, token_modifiers, token_types, SemanticTokenModifier,
    SemanticTokenType,
};
use crate::seqs::{join, views};

verus! {

/// How clients send the changes of a document.
#[derive(Debug, Clone, Copy, PartialEq, Eq, Structural)]
pub enum TextDocumentSyncKind {
    Full,
    Incremental,
}

#[derive(Debug, PartialEq, Eq)]
pub struct CompletionOptions {
    pub resolve_provider: bool,
    pub trigger_characters: Vec<String>,
}

#[derive(Debug, PartialEq, Eq)]
pub struct CodeActionOptions {
    pub code_action_kinds: Vec<String>,
    pub resolve_provider: bool,
}

#[derive(Debug, PartialEq, Eq)]
pub struct SemanticTokensOptions {
    pub token_types: Vec<SemanticTokenType>,
    pub token_modifiers: Vec<SemanticTokenModifier>,
    pub range: bool,
    pub full: bool,
}

/// What the server tells clients that it can do.
#[derive(Debug, PartialEq, Eq)]
pub struct ServerCapabilities {
    pub text_document_sync: TextDocumentSyncKind,
    pub completion: CompletionOptions,
    pub hover: bool,
    pub signature_help_triggers: Vec<String>,
    pub definition: bool,
    pub references: bool,
    pub document_highlight: bool,
    pub prepare_rename: bool,
    pub document_symbol: bool,
    pub workspace_symbol: bool,
    pub code_action: CodeActionOptions,
    pub document_formatting: bool,
    pub folding_range: bool,
    pub selection_range: bool,
    pub semantic_tokens: SemanticTokensOptions,
    pub inlay_hint: bool,
    pub workspace_folders: bool,
    pub workspace_folder_changes: bool,
}

/// Whether capabilities are those of the server: whole documents are sent for each change,
/// completion is asked for behind a dot and signature help behind a parenthesis or a comma,
/// quick fixes are the only code actions, and semantic tokens come for whole documents.
pub open spec fn advertised(capabilities: ServerCapabilities) -> bool {
    &&& capabilities.text_document_sync == TextDocumentSyncKind::Full
    &&& !capabilities.completion.resolve_provider
    &&& views(capabilities.completion.trigger_characters@) == seq!["."@]
    &&& capabilities.hover
    &&& views(capabilities.signature_help_triggers@) == seq!["("@, ","@]
    &&& capabilities.definition
    &&& capabilities.references
    &&& capabilities.document_highlight
    &&& capabilities.prepare_rename
    &&& capabilities.document_symbol
    &&& capabilities.workspace_symbol
    &&& views(capabilities.code_action.code_action_kinds@) == seq!["quickfix"@]
    &&& !capabilities.code_action.resolve_provider
    &&& capabilities.document_formatting
    &&& capabilities.folding_range
    &&& capabilities.selection_range
    &&& capabilities.semantic_tokens.token_types@ == legend_types()
    &&& capabilities.semantic_tokens.token_modifiers@ == legend_modifiers()
    &&& !capabilities.semantic_tokens.range
    &&& capabilities.semantic_tokens.full
    &&& capabilities.inlay_hint
    &&& capabilities.workspace_folders
    &&& capabilities.workspace_folder_changes
}

fn one_text(text: &str) -> (texts: Vec<String>)
    ensures
        views(texts@) == seq![text@],
{
    let mut texts: Vec<String> = Vec::new();
    texts.push(text.to_owned());
    assert(views(texts@) == seq![text@]);
    texts
}

/// Returns the server capabilities for the transport layer's initialize reply.
pub fn server_capabilities() -> (capabilities: ServerCapabilities)
    ensures
        advertised(capabilities),
{
    let signature_help_triggers = join(one_text("("), one_text(","));
    assert(views(signature_help_triggers@) == seq!["("@, ","@]);
    ServerCapabilities {
        text_document_sync: TextDocumentSyncKind::Full,
        completion: CompletionOptions { resolve_provider: false, trigger_characters: one_text(".") },
        hover: true,
        signature_help_triggers,
        definition: true,
        references: true,
        document_highlight: true,
        prepare_rename: true,
        document_symbol: true,
        workspace_symbol: true,
        code_action: CodeActionOptions {
            code_action_kinds: one_text("quickfix"),
            resolve_provider: false,
        },
        document_formatting: true,
        folding_range: true,
        selection_range: true,
        semantic_tokens: SemanticTokensOptions {
            token_types: token_types(),
            token_modifiers: token_modifiers(),
            range: false,
            full: true,
        },
        inlay_hint: true,
        workspace_folders: true,
        workspace_folder_changes: true,
    }
}

/// The answer to a client's first request.
#[derive(Debug, PartialEq, Eq)]
pub struct InitializeResult {
    pub capabilities: ServerCapabilities,
    pub server_name: String,
    pub server_version: String,
}

/// Builds an initialize result with the server's static capabilities.
pub fn initialize_result() -> (result: InitializeResult)
    ensures
        advertised(result.capabilities),
        result.server_name@ == "solcore-lsp"@,
        result.server_version@ == "0.1.0"@,
{
    InitializeResult {
        capabilities: server_capabilities(),
        server_name: "solcore-lsp".to_owned(),
        server_version: "0.1.0".to_owned(),
    }
}

} // verus!
