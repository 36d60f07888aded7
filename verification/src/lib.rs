//! Core of a language server for the Solcore language.
pub mod analysis;
pub mod call_laws;
pub mod capabilities;
pub mod code_actions;
pub mod comments;
pub mod completion;
pub mod completion_laws;
pub mod declaration_laws;
pub mod declarations;
pub mod definition;
pub mod definition_laws;
pub mod diag;
pub mod diagnostics;
pub mod dispatch;
pub mod display;
pub mod display_laws;
pub mod document_highlight;
pub mod files;
pub mod fold_laws;
pub mod folding;
pub mod format_laws;
pub mod formatting;
pub mod hint_laws;
pub mod hir;
pub mod hover;
pub mod hover_laws;
pub mod import_edits;
pub mod inlay_hints;
pub mod line_index;
pub mod order;
pub mod paths;
pub mod problem_laws;
pub mod protocol;
pub mod rank;
pub mod reference_laws;
pub mod references;
pub mod rename;
pub mod resolve;
pub mod scan;
pub mod selection_laws;
pub mod selection_range;
pub mod semantic_tokens;
pub mod seqs;
pub mod signature_help;
pub mod state;
pub mod symbol_laws;
pub mod symbols;
pub mod table;
pub mod target_laws;
pub mod text;
pub mod token_laws;
pub mod tree_laws;
pub mod url;
pub mod workspace_symbols;
pub mod world_laws;

pub use capabilities::{initialize_result, server_capabilities};
pub use code_actions::handle_code_action;
pub use completion::handle_completion;
pub use definition::handle_definition;
pub use diagnostics::compute_diagnostics;
pub use document_highlight::handle_document_highlight;
pub use folding::handle_folding_range;
pub use formatting::handle_formatting;
pub use hover::handle_hover;
pub use inlay_hints::handle_inlay_hints;
pub use line_index::{LineCol, LineIndexExt};
pub use paths::{uri_to_vfs_path, vfs_url_to_client_uri};
pub use references::handle_references;
pub use rename::{handle_prepare_rename, handle_rename};
pub use selection_range::handle_selection_range;
pub use semantic_tokens::handle_semantic_tokens_full;
pub use signature_help::handle_signature_help;
pub use state::{DocumentState, WorldState};
pub use symbols::handle_document_symbol;
pub use workspace_symbols::handle_workspace_symbol;
