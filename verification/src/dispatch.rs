//! Dispatch of the messages of a client.
//!
//! A transport delivers one JSON-RPC object per message. This module decides what a message asks
//! for and which replies it gets on that account. Identifiers and parameters are kept as the JSON
//! text that they were sent as.
use vstd::prelude::*;

use crate::seqs::seen;
use crate::text::{has_prefix, str_eq, str_starts_with};
use crate::url::text_of;

verus! {

/// The message is not JSON.
pub const PARSE_ERROR: i64 = -32700;

/// The message names no method.
pub const INVALID_REQUEST: i64 = -32600;

/// The message names a method that the server does not have.
pub const METHOD_NOT_FOUND: i64 = -32601;

/// The parameters are not those of the method.
pub const INVALID_PARAMS: i64 = -32602;

/// What the server does for clients.
#[derive(Debug, Clone, Copy, PartialEq, Eq, Structural)]
pub enum Method {
    Initialize,
    DidOpen,
    DidChange,
    DidClose,
    DidChangeWorkspaceFolders,
    Completion,
    Hover,
    SignatureHelp,
    Definition,
    References,
    Rename,
    PrepareRename,
    DocumentHighlight,
    DocumentSymbol,
    CodeAction,
    Formatting,
    FoldingRange,
    SelectionRange,
    SemanticTokensFull,
    InlayHint,
    WorkspaceSymbol,
}

/// What a method's name asks for.
#[derive(Debug, Clone, Copy, PartialEq, Eq, Structural)]
pub enum Route {
    /// Nothing is done and nothing is replied.
    Ignore,
    /// Nothing is done but to reply.
    Acknowledge,
    /// The server does something.
    Handle(Method),
    /// The server does not have the method.
    Unknown,
}

/// What the name of a method asks for.
pub open spec fn route_of(method: Seq<char>) -> Route {
    if method == "initialize"@ {
        Route::Handle(Method::Initialize)
    } else if method == "initialized"@ || method == "exit"@ {
        Route::Ignore
    } else if method == "shutdown"@ {
        Route::Acknowledge
    } else if has_prefix(method, "$/"@) {
        Route::Ignore
    } else if method == "textDocument/didOpen"@ {
        Route::Handle(Method::DidOpen)
    } else if method == "textDocument/didChange"@ {
        Route::Handle(Method::DidChange)
    } else if method == "textDocument/didClose"@ {
        Route::Handle(Method::DidClose)
    } else if method == "workspace/didChangeWorkspaceFolders"@ {
        Route::Handle(Method::DidChangeWorkspaceFolders)
    } else if method == "textDocument/completion"@ {
        Route::Handle(Method::Completion)
    } else if method == "textDocument/hover"@ {
        Route::Handle(Method::Hover)
    } else if method == "textDocument/signatureHelp"@ {
        Route::Handle(Method::SignatureHelp)
    } else if method == "textDocument/definition"@ {
        Route::Handle(Method::Definition)
    } else if method == "textDocument/references"@ {
        Route::Handle(Method::References)
    } else if method == "textDocument/rename"@ {
        Route::Handle(Method::Rename)
    } else if method == "textDocument/prepareRename"@ {
        Route::Handle(Method::PrepareRename)
    } else if method == "textDocument/documentHighlight"@ {
        Route::Handle(Method::DocumentHighlight)
    } else if method == "textDocument/documentSymbol"@ {
        Route::Handle(Method::DocumentSymbol)
    } else if method == "textDocument/codeAction"@ {
        Route::Handle(Method::CodeAction)
    } else if method == "textDocument/formatting"@ {
        Route::Handle(Method::Formatting)
    } else if method == "textDocument/foldingRange"@ {
        Route::Handle(Method::FoldingRange)
    } else if method == "textDocument/selectionRange"@ {
        Route::Handle(Method::SelectionRange)
    } else if method == "textDocument/semanticTokens/full"@ {
        Route::Handle(Method::SemanticTokensFull)
    } else if method == "textDocument/inlayHint"@ {
        Route::Handle(Method::InlayHint)
    } else if method == "workspace/symbol"@ {
        Route::Handle(Method::WorkspaceSymbol)
    } else {
        Route::Unknown
    }
}

/// Returns what the name of a method asks for.
pub fn route(method: &str) -> (route: Route)
    ensures
        route == route_of(method@),
{
    if str_eq(method, "initialize") {
        Route::Handle(Method::Initialize)
    } else if str_eq(method, "initialized") || str_eq(method, "exit") {
        Route::Ignore
    } else if str_eq(method, "shutdown") {
        Route::Acknowledge
    } else if str_starts_with(method, "$/") {
        Route::Ignore
    } else if str_eq(method, "textDocument/didOpen") {
        Route::Handle(Method::DidOpen)
    } else if str_eq(method, "textDocument/didChange") {
        Route::Handle(Method::DidChange)
    } else if str_eq(method, "textDocument/didClose") {
        Route::Handle(Method::DidClose)
    } else if str_eq(method, "workspace/didChangeWorkspaceFolders") {
        Route::Handle(Method::DidChangeWorkspaceFolders)
    } else if str_eq(method, "textDocument/completion") {
        Route::Handle(Method::Completion)
    } else if str_eq(method, "textDocument/hover") {
        Route::Handle(Method::Hover)
    } else if str_eq(method, "textDocument/signatureHelp") {
        Route::Handle(Method::SignatureHelp)
    } else if str_eq(method, "textDocument/definition") {
        Route::Handle(Method::Definition)
    } else if str_eq(method, "textDocument/references") {
        Route::Handle(Method::References)
    } else if str_eq(method, "textDocument/rename") {
        Route::Handle(Method::Rename)
    } else if str_eq(method, "textDocument/prepareRename") {
        Route::Handle(Method::PrepareRename)
    } else if str_eq(method, "textDocument/documentHighlight") {
        Route::Handle(Method::DocumentHighlight)
    } else if str_eq(method, "textDocument/documentSymbol") {
        Route::Handle(Method::DocumentSymbol)
    } else if str_eq(method, "textDocument/codeAction") {
        Route::Handle(Method::CodeAction)
    } else if str_eq(method, "textDocument/formatting") {
        Route::Handle(Method::Formatting)
    } else if str_eq(method, "textDocument/foldingRange") {
        Route::Handle(Method::FoldingRange)
    } else if str_eq(method, "textDocument/selectionRange") {
        Route::Handle(Method::SelectionRange)
    } else if str_eq(method, "textDocument/semanticTokens/full") {
        Route::Handle(Method::SemanticTokensFull)
    } else if str_eq(method, "textDocument/inlayHint") {
        Route::Handle(Method::InlayHint)
    } else if str_eq(method, "workspace/symbol") {
        Route::Handle(Method::WorkspaceSymbol)
    } else {
        Route::Unknown
    }
}

/// Whether a method tells the server of something and is handled without an identifier too.
pub open spec fn notifies(method: Method) -> bool {
    method == Method::DidOpen || method == Method::DidChange || method == Method::DidClose || method
        == Method::DidChangeWorkspaceFolders
}

fn is_notification(method: Method) -> (found: bool)
    ensures
        found == notifies(method),
{
    method == Method::DidOpen || method == Method::DidChange || method == Method::DidClose || method
        == Method::DidChangeWorkspaceFolders
}

/// The parts of a message that decide what is done with it, as far as it has them. The
/// identifier and the parameters are JSON texts.
pub struct Message {
    pub id: Option<String>,
    pub method: Option<String>,
    pub params: Option<String>,
}

/// The model of the parts of a message.
pub struct MessageParts {
    pub id: Option<Seq<char>>,
    pub method: Option<Seq<char>>,
    pub params: Option<Seq<char>>,
}

impl View for Message {
    type V = MessageParts;

    open spec fn view(&self) -> MessageParts {
        MessageParts {
            id: text_of(self.id),
            method: text_of(self.method),
            params: text_of(self.params),
        }
    }
}

/// What `serde_json::from_str` reads in a text: the members `id`, `method` and `params` of the
/// object that the text is. The first and the last of them are JSON texts, the method is there
/// where it is a string. None where the text is not JSON.
pub uninterp spec fn json_message(text: Seq<char>) -> Option<MessageParts>;

/// Reads a message with `serde_json::from_str`, as a JSON value, and takes its members `id`,
/// `method` and `params` out of it. The contract claims that the parts depend on the text alone.
#[verifier::external_body]
fn parse_message(text: &str) -> (message: Option<Message>)
    ensures
        seen(message) == json_message(text@),
{
    let value: serde_json::Value = serde_json::from_str(text).ok()?;
    let method = value.get("method").and_then(|method| method.as_str());
    Some(
        Message {
            id: value.get("id").map(|id| id.to_string()),
            method: method.map(|method| method.to_owned()),
            params: value.get("params").map(|params| params.to_string()),
        },
    )
}

/// A reply to a message. A reply to a text that is not JSON has no identifier.
pub enum Reply {
    /// The message was handled and there is nothing to tell.
    Done { id: String },
    /// The message was not handled.
    Refused { id: Option<String>, code: i64, text: String },
}

/// The model of a reply.
pub enum ReplyParts {
    Done { id: Seq<char> },
    Refused { id: Option<Seq<char>>, code: i64, text: Seq<char> },
}

impl View for Reply {
    type V = ReplyParts;

    open spec fn view(&self) -> ReplyParts {
        match *self {
            Reply::Done { id } => ReplyParts::Done { id: id@ },
            Reply::Refused { id, code, text } => ReplyParts::Refused {
                id: text_of(id),
                code,
                text: text@,
            },
        }
    }
}

/// What is done with a message: the server handles it, or it gets a reply or none.
pub enum Dispatch {
    Handle { method: Method, id: Option<String>, params: Option<String> },
    Answer(Option<Reply>),
}

/// The model of what is done with a message.
pub enum DispatchParts {
    Handle { method: Method, id: Option<Seq<char>>, params: Option<Seq<char>> },
    Answer(Option<ReplyParts>),
}

impl View for Dispatch {
    type V = DispatchParts;

    open spec fn view(&self) -> DispatchParts {
        match *self {
            Dispatch::Handle { method, id, params } => DispatchParts::Handle {
                method,
                id: text_of(id),
                params: text_of(params),
            },
            Dispatch::Answer(reply) => DispatchParts::Answer(seen(reply)),
        }
    }
}

/// The reply to a message that was handled. A message without an identifier gets none.
pub open spec fn acknowledgement(id: Option<Seq<char>>) -> Option<ReplyParts> {
    match id {
        Some(id) => Some(ReplyParts::Done { id }),
        None => None,
    }
}

pub fn null_response_or_empty(id: Option<String>) -> (reply: Option<Reply>)
    ensures
        seen(reply) == acknowledgement(text_of(id)),
{
    match id {
        Some(id) => Some(Reply::Done { id }),
        None => None,
    }
}

/// The reply to a message that was not handled. A message without an identifier gets none.
pub open spec fn refusal(id: Option<Seq<char>>, code: i64, text: Seq<char>) -> Option<ReplyParts> {
    match id {
        Some(id) => Some(ReplyParts::Refused { id: Some(id), code, text }),
        None => None,
    }
}

pub fn error_or_empty(id: Option<String>, code: i64, text: &str) -> (reply: Option<Reply>)
    ensures
        seen(reply) == refusal(text_of(id), code, text@),
{
    match id {
        Some(id) => Some(Reply::Refused { id: Some(id), code, text: text.to_owned() }),
        None => None,
    }
}

/// What is done with a message that is JSON. Requests without an identifier are not handled.
pub open spec fn dispatched(message: MessageParts) -> DispatchParts {
    match message.method {
        Some(method) => match route_of(method) {
            Route::Ignore => DispatchParts::Answer(None),
            Route::Acknowledge => DispatchParts::Answer(acknowledgement(message.id)),
            Route::Handle(method) => if notifies(method) || message.id is Some {
                DispatchParts::Handle { method, id: message.id, params: message.params }
            } else {
                DispatchParts::Answer(None)
            },
            Route::Unknown => DispatchParts::Answer(
                refusal(message.id, METHOD_NOT_FOUND, "Method not found"@),
            ),
        },
        None => DispatchParts::Answer(refusal(message.id, INVALID_REQUEST, "Invalid Request"@)),
    }
}

/// Decides what is done with a message that is JSON.
pub fn dispatch_message(message: Message) -> (dispatch: Dispatch)
    ensures
        dispatch@ == dispatched(message@),
{
    let name = match message.method {
        Some(name) => name,
        None => return Dispatch::Answer(
            error_or_empty(message.id, INVALID_REQUEST, "Invalid Request"),
        ),
    };
    match route(name.as_str()) {
        Route::Ignore => Dispatch::Answer(None),
        Route::Acknowledge => Dispatch::Answer(null_response_or_empty(message.id)),
        Route::Handle(method) => if is_notification(method) || message.id.is_some() {
            Dispatch::Handle { method, id: message.id, params: message.params }
        } else {
            Dispatch::Answer(None)
        },
        Route::Unknown => Dispatch::Answer(
            error_or_empty(message.id, METHOD_NOT_FOUND, "Method not found"),
        ),
    }
}

/// Decides what is done with a text that a client sends.
pub fn dispatch(text: &str) -> (dispatch: Dispatch)
    ensures
        dispatch@ == match json_message(text@) {
            Some(message) => dispatched(message),
            None => DispatchParts::Answer(
                Some(ReplyParts::Refused { id: None, code: PARSE_ERROR, text: "Parse error"@ }),
            ),
        },
{
    match parse_message(text) {
        Some(message) => dispatch_message(message),
        None => Dispatch::Answer(
            Some(Reply::Refused { id: None, code: PARSE_ERROR, text: "Parse error".to_owned() }),
        ),
    }
}

/// A message without an identifier gets no reply: it is handled or ignored.
pub proof fn law_notifications_get_no_reply(message: MessageParts)
    requires
        message.id is None,
    ensures
        match dispatched(message) {
            DispatchParts::Handle { method, .. } => notifies(method),
            DispatchParts::Answer(reply) => reply is None,
        },
{
}

/// A request with an identifier is handled, gets a reply with its identifier, or is one of those
/// that are ignored by their names.
pub proof fn law_requests_get_their_reply(message: MessageParts)
    requires
        message.id is Some,
    ensures
        match dispatched(message) {
            DispatchParts::Handle { id, params, .. } => id == message.id && params == message.params,
            DispatchParts::Answer(Some(ReplyParts::Done { id })) => Some(id) == message.id,
            DispatchParts::Answer(Some(ReplyParts::Refused { id, .. })) => id == message.id,
            DispatchParts::Answer(None) => message.method matches Some(method) && route_of(method)
                == Route::Ignore,
        },
{
}

proof fn lemma_not_internal(method: Seq<char>)
    requires
        method.len() > 1,
        method[0] != '$',
    ensures
        !has_prefix(method, "$/"@),
{
    reveal_strlit("$/");
    assert(method.take(2)[0] == method[0]);
}

/// Each request is handled by the method that it names.
#[verifier::rlimit(100)]
pub proof fn law_routes()
    ensures
        route_of("initialize"@) == Route::Handle(Method::Initialize),
        route_of("textDocument/didOpen"@) == Route::Handle(Method::DidOpen),
        route_of("textDocument/didChange"@) == Route::Handle(Method::DidChange),
        route_of("textDocument/didClose"@) == Route::Handle(Method::DidClose),
        route_of("workspace/didChangeWorkspaceFolders"@) == Route::Handle(
            Method::DidChangeWorkspaceFolders,
        ),
        route_of("textDocument/completion"@) == Route::Handle(Method::Completion),
        route_of("textDocument/hover"@) == Route::Handle(Method::Hover),
        route_of("textDocument/signatureHelp"@) == Route::Handle(Method::SignatureHelp),
        route_of("textDocument/definition"@) == Route::Handle(Method::Definition),
        route_of("textDocument/references"@) == Route::Handle(Method::References),
        route_of("textDocument/rename"@) == Route::Handle(Method::Rename),
        route_of("textDocument/prepareRename"@) == Route::Handle(Method::PrepareRename),
        route_of("textDocument/documentHighlight"@) == Route::Handle(Method::DocumentHighlight),
        route_of("textDocument/documentSymbol"@) == Route::Handle(Method::DocumentSymbol),
        route_of("textDocument/codeAction"@) == Route::Handle(Method::CodeAction),
        route_of("textDocument/formatting"@) == Route::Handle(Method::Formatting),
        route_of("textDocument/foldingRange"@) == Route::Handle(Method::FoldingRange),
        route_of("textDocument/selectionRange"@) == Route::Handle(Method::SelectionRange),
        route_of("textDocument/semanticTokens/full"@) == Route::Handle(Method::SemanticTokensFull),
        route_of("textDocument/inlayHint"@) == Route::Handle(Method::InlayHint),
        route_of("workspace/symbol"@) == Route::Handle(Method::WorkspaceSymbol),
{
    reveal_strlit("initialize");
    reveal_strlit("initialized");
    reveal_strlit("exit");
    reveal_strlit("shutdown");
    reveal_strlit("$/");
    reveal_strlit("textDocument/didOpen");
    reveal_strlit("textDocument/didChange");
    reveal_strlit("textDocument/didClose");
    reveal_strlit("workspace/didChangeWorkspaceFolders");
    reveal_strlit("textDocument/completion");
    reveal_strlit("textDocument/hover");
    reveal_strlit("textDocument/signatureHelp");
    reveal_strlit("textDocument/definition");
    reveal_strlit("textDocument/references");
    reveal_strlit("textDocument/rename");
    reveal_strlit("textDocument/prepareRename");
    reveal_strlit("textDocument/documentHighlight");
    reveal_strlit("textDocument/documentSymbol");
    reveal_strlit("textDocument/codeAction");
    reveal_strlit("textDocument/formatting");
    reveal_strlit("textDocument/foldingRange");
    reveal_strlit("textDocument/selectionRange");
    reveal_strlit("textDocument/semanticTokens/full");
    reveal_strlit("textDocument/inlayHint");
    reveal_strlit("workspace/symbol");
    assert("initialize"@.len() == 10);
    assert("initialized"@.len() == 11);
    assert("exit"@.len() == 4);
    assert("shutdown"@.len() == 8);
    assert("textDocument/didOpen"@.len() == 20);
    assert("textDocument/didChange"@.len() == 22);
    assert("textDocument/didClose"@.len() == 21);
    assert("workspace/didChangeWorkspaceFolders"@.len() == 35);
    assert("textDocument/completion"@.len() == 23);
    assert("textDocument/hover"@.len() == 18);
    assert("textDocument/signatureHelp"@.len() == 26);
    assert("textDocument/definition"@.len() == 23);
    assert("textDocument/references"@.len() == 23);
    assert("textDocument/rename"@.len() == 19);
    assert("textDocument/prepareRename"@.len() == 26);
    assert("textDocument/documentHighlight"@.len() == 30);
    assert("textDocument/documentSymbol"@.len() == 27);
    assert("textDocument/codeAction"@.len() == 23);
    assert("textDocument/formatting"@.len() == 23);
    assert("textDocument/foldingRange"@.len() == 25);
    assert("textDocument/selectionRange"@.len() == 27);
    assert("textDocument/semanticTokens/full"@.len() == 32);
    assert("textDocument/inlayHint"@.len() == 22);
    assert("workspace/symbol"@.len() == 16);
    assert("textDocument/definition"@[13] != "textDocument/completion"@[13]);
    assert("textDocument/references"@[13] != "textDocument/completion"@[13]);
    assert("textDocument/references"@[13] != "textDocument/definition"@[13]);
    assert("textDocument/prepareRename"@[13] != "textDocument/signatureHelp"@[13]);
    assert("textDocument/codeAction"@[15] != "textDocument/completion"@[15]);
    assert("textDocument/codeAction"@[13] != "textDocument/definition"@[13]);
    assert("textDocument/codeAction"@[13] != "textDocument/references"@[13]);
    assert("textDocument/formatting"@[13] != "textDocument/completion"@[13]);
    assert("textDocument/formatting"@[13] != "textDocument/definition"@[13]);
    assert("textDocument/formatting"@[13] != "textDocument/references"@[13]);
    assert("textDocument/formatting"@[13] != "textDocument/codeAction"@[13]);
    assert("textDocument/selectionRange"@[13] != "textDocument/documentSymbol"@[13]);
    assert("textDocument/inlayHint"@[13] != "textDocument/didChange"@[13]);
    lemma_not_internal("textDocument/didOpen"@);
    lemma_not_internal("textDocument/didChange"@);
    lemma_not_internal("textDocument/didClose"@);
    lemma_not_internal("workspace/didChangeWorkspaceFolders"@);
    lemma_not_internal("textDocument/completion"@);
    lemma_not_internal("textDocument/hover"@);
    lemma_not_internal("textDocument/signatureHelp"@);
    lemma_not_internal("textDocument/definition"@);
    lemma_not_internal("textDocument/references"@);
    lemma_not_internal("textDocument/rename"@);
    lemma_not_internal("textDocument/prepareRename"@);
    lemma_not_internal("textDocument/documentHighlight"@);
    lemma_not_internal("textDocument/documentSymbol"@);
    lemma_not_internal("textDocument/codeAction"@);
    lemma_not_internal("textDocument/formatting"@);
    lemma_not_internal("textDocument/foldingRange"@);
    lemma_not_internal("textDocument/selectionRange"@);
    lemma_not_internal("textDocument/semanticTokens/full"@);
    lemma_not_internal("textDocument/inlayHint"@);
    lemma_not_internal("workspace/symbol"@);
}

} // verus!
