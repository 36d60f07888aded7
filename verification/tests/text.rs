//! Positions, formatting, paths being written and other work on plain text.
use solcore_lsp::capabilities::{initialize_result, server_capabilities, TextDocumentSyncKind};
use solcore_lsp::comments::comments_markdown;
use solcore_lsp::completion::{
    direct_qualified_member, is_identifier, qualified_completion_context,
    QualifiedCompletionContext,
};
use solcore_lsp::dispatch::{
    dispatch, dispatch_message, error_or_empty, null_response_or_empty, route, Dispatch, Message,
    Method, Reply, Route, INVALID_PARAMS, INVALID_REQUEST, METHOD_NOT_FOUND, PARSE_ERROR,
};
use solcore_lsp::files::{
    initial_workspace_root, initial_workspace_roots, is_ignored_directory_name,
    is_solcore_file_name, needs_workspace_root, published_version,
};
use solcore_lsp::formatting::handle_formatting;
use solcore_lsp::hover::identifier_range;
use solcore_lsp::protocol::{FormattingOptions, Position, Range};
use solcore_lsp::scan::{scan_source, ByteRange};
use solcore_lsp::selection_range::leaf_range_at;
use solcore_lsp::semantic_tokens::{
    encode_tokens, token_modifiers, token_type_index, token_types, RawToken,
    SemanticTokenModifier, SemanticTokenType, TokenKind,
};
use solcore_lsp::signature_help::{call_argument_range, count_commas_before};
use solcore_lsp::state::{change_text, DocumentState, WorldState};
use solcore_lsp::url::Url;
use solcore_lsp::LineIndexExt;

fn url(text: &str) -> Url {
    Url::parse(text).expect("url")
}

fn world_with_main(source: &str) -> (WorldState, Url) {
    let mut world = WorldState::new();
    let uri = url("file:///main/main.solc");
    assert!(world.open_document(uri.clone(), source.to_owned()));
    (world, uri)
}

#[test]
fn maps_ascii_positions() {
    let index = LineIndexExt::new("abc\nxy");

    assert_eq!(index.byte_to_position(0), Position::new(0, 0));
    assert_eq!(index.byte_to_position(3), Position::new(0, 3));
    assert_eq!(index.byte_to_position(4), Position::new(1, 0));
    assert_eq!(index.byte_to_position(6), Position::new(1, 2));

    assert_eq!(index.position_to_byte(Position::new(0, 0)), Some(0));
    assert_eq!(index.position_to_byte(Position::new(0, 3)), Some(3));
    assert_eq!(index.position_to_byte(Position::new(1, 0)), Some(4));
    assert_eq!(index.position_to_byte(Position::new(1, 2)), Some(6));
}

#[test]
fn maps_two_byte_character() {
    let text = "aéz";
    let index = LineIndexExt::new(text);
    let composed = text.find('é').expect("composed e acute") as u32;

    assert_eq!(index.byte_to_position(composed), Position::new(0, 1));
    assert_eq!(
        index.byte_to_position(composed + "é".len() as u32),
        Position::new(0, 2)
    );
    assert_eq!(index.position_to_byte(Position::new(0, 1)), Some(composed));
    assert_eq!(
        index.position_to_byte(Position::new(0, 2)),
        Some(composed + "é".len() as u32)
    );
}

#[test]
fn maps_three_byte_character() {
    let text = "aあb";
    let index = LineIndexExt::new(text);
    let cjk = text.find('あ').expect("cjk character") as u32;

    assert_eq!(index.byte_to_position(cjk), Position::new(0, 1));
    assert_eq!(
        index.byte_to_position(cjk + "あ".len() as u32),
        Position::new(0, 2)
    );
    assert_eq!(index.position_to_byte(Position::new(0, 1)), Some(cjk));
    assert_eq!(
        index.position_to_byte(Position::new(0, 2)),
        Some(cjk + "あ".len() as u32)
    );
}

#[test]
fn maps_four_byte_character_as_two_utf16_units() {
    let text = "😀";
    let index = LineIndexExt::new(text);

    assert_eq!(index.byte_to_position(0), Position::new(0, 0));
    assert_eq!(
        index.byte_to_position("😀".len() as u32),
        Position::new(0, 2)
    );
    assert_eq!(index.position_to_byte(Position::new(0, 0)), Some(0));
    assert_eq!(
        index.position_to_byte(Position::new(0, 2)),
        Some("😀".len() as u32)
    );
    assert_eq!(index.position_to_byte(Position::new(0, 1)), None);
}

#[test]
fn maps_multibyte_multiple_lines_round_trip() {
    let text = "let x = \"café\";\n😀";
    let index = LineIndexExt::new(text);
    let e_acute = text.find('é').expect("e acute") as u32;
    let emoji = text.find('😀').expect("emoji") as u32;

    assert_eq!(e_acute, 12);
    assert_eq!(emoji, 17);
    assert_eq!(index.byte_to_position(e_acute), Position::new(0, 12));
    assert_eq!(
        index.byte_to_position(e_acute + "é".len() as u32),
        Position::new(0, 13)
    );
    assert_eq!(index.byte_to_position(emoji), Position::new(1, 0));
    assert_eq!(
        index.byte_to_position(emoji + "😀".len() as u32),
        Position::new(1, 2)
    );

    for offset in [
        0,
        e_acute,
        e_acute + "é".len() as u32,
        emoji,
        text.len() as u32,
    ] {
        let position = index.byte_to_position(offset);
        assert_eq!(index.position_to_byte(position), Some(offset));
    }
    assert_eq!(index.position_to_byte(Position::new(1, 1)), None);
}

#[test]
fn line_columns_count_bytes_and_positions_are_clamped() {
    let index = LineIndexExt::new("é\nxy");
    let at = index.line_col(4);

    assert_eq!((at.line, at.col), (1, 1));
    assert_eq!(index.byte_to_position(99), Position::new(1, 2));
    assert_eq!(index.text(), "é\nxy");
    assert_eq!(
        index.range(0, 99),
        Range::new(Position::new(0, 0), Position::new(1, 2))
    );
    assert_eq!(index.position_to_byte(Position::new(0, 5)), None);
    assert_eq!(index.position_to_byte(Position::new(7, 0)), None);
}

#[test]
fn later_offsets_have_later_positions() {
    let text = "aé\n😀b";
    let index = LineIndexExt::new(text);
    let positions: Vec<(u32, u32)> = text
        .char_indices()
        .map(|(offset, _)| {
            let position = index.byte_to_position(offset as u32);
            (position.line, position.character)
        })
        .collect();

    assert_eq!(positions, vec![(0, 0), (0, 1), (0, 2), (1, 0), (1, 2)]);
}

#[test]
fn document_states_keep_their_text_and_index() {
    let document = DocumentState::new("a\nb".to_owned());

    assert_eq!(document.text(), "a\nb");
    assert_eq!(document.line_index().byte_to_position(2), Position::new(1, 0));
}

fn options(tab_size: u32, insert_spaces: bool) -> FormattingOptions {
    FormattingOptions {
        tab_size,
        insert_spaces,
        insert_final_newline: Some(true),
        trim_final_newlines: Some(true),
        trim_trailing_whitespace: Some(true),
    }
}

#[test]
fn formats_whole_document_without_touching_braces_in_trivia() {
    let source = "function main() returns (word) {   \nreturn \"{\";\n/* } { */\nif (true) {\nreturn 1; // }\n}\n}\n\n";
    let expected = "function main() returns (word) {\n  return \"{\";\n  /* } { */\n  if (true) {\n    return 1; // }\n  }\n}\n";
    let (world, uri) = world_with_main(source);

    let edits = handle_formatting(&world, &uri, &options(2, true)).expect("formatting");
    assert_eq!(edits.len(), 1);
    assert_eq!(edits[0].new_text, expected);
    assert_eq!(
        edits[0].range.end,
        world
            .line_index(&uri)
            .unwrap()
            .byte_to_position(source.len() as u32)
    );
}

#[test]
fn respects_tabs_and_preserves_crlf() {
    let source = "function main() {\r\nreturn \"😀\";\r\n}";
    let expected = "function main() {\r\n\treturn \"😀\";\r\n}\r\n";
    let (world, uri) = world_with_main(source);

    let edits = handle_formatting(&world, &uri, &options(8, false)).expect("formatting");
    assert_eq!(edits[0].new_text, expected);
    assert_eq!(
        edits[0].range.end,
        world
            .line_index(&uri)
            .unwrap()
            .byte_to_position(source.len() as u32)
    );
}

#[test]
fn already_formatted_document_needs_no_edit() {
    let source = "function main() {\n  return 1;\n}\n";
    let (world, uri) = world_with_main(source);

    let edits = handle_formatting(&world, &uri, &options(2, true)).expect("formatting");
    assert!(edits.is_empty());
}

#[test]
fn formatting_requires_an_open_document() {
    let world = WorldState::new();
    let uri = url("file:///main/missing.solc");
    assert!(handle_formatting(&world, &uri, &options(2, true)).is_none());
}

#[test]
fn preserves_multiline_string_and_block_comment_payload_whitespace() {
    for source in [
        "function main() {\nreturn \"first\n    second  \";\n}\n",
        "function main() {\n/* markdown\n    indented code  \n*/\nreturn 1;\n}\n",
    ] {
        let (world, uri) = world_with_main(source);
        let edits = handle_formatting(&world, &uri, &options(2, true)).expect("formatting");
        assert!(
            edits.is_empty(),
            "layout-sensitive payload must remain byte-for-byte unchanged"
        );
    }
}

#[test]
fn preserves_unterminated_string_and_block_comment_payload_at_eof() {
    for source in [
        "function main() {\n  let text = \"café   ",
        "function main() {\n  /* markdown   ",
    ] {
        let (world, uri) = world_with_main(source);
        let edits = handle_formatting(&world, &uri, &options(2, true)).expect("formatting");
        assert!(edits.is_empty());
    }
}

#[test]
fn honors_disabled_trailing_whitespace_trimming() {
    let source = "function main() {   \n   \nreturn 1;   \n}\n";
    let expected = "function main() {   \n   \n  return 1;   \n}\n";
    let (world, uri) = world_with_main(source);
    let mut options = options(2, true);
    options.trim_trailing_whitespace = Some(false);

    let edits = handle_formatting(&world, &uri, &options).expect("formatting");
    assert_eq!(edits[0].new_text, expected);
}

#[test]
fn dedents_adjacent_leading_closing_braces() {
    let source = "function main() {\n{\nreturn 1;\n  }}\n";
    let expected = "function main() {\n  {\n    return 1;\n}}\n";
    let (world, uri) = world_with_main(source);

    let edits = handle_formatting(&world, &uri, &options(2, true)).expect("formatting");
    assert_eq!(edits[0].new_text, expected);
}

#[test]
fn formatting_keeps_everything_but_white_space() {
    let source = "contract C {\nf ( ) ;\n  \t}\n";
    let (world, uri) = world_with_main(source);
    let edits = handle_formatting(&world, &uri, &options(4, true)).expect("formatting");
    let solid = |text: &str| -> String { text.chars().filter(|c| !c.is_whitespace()).collect() };

    assert_eq!(edits[0].new_text, "contract C {\n    f ( ) ;\n}\n");
    assert_eq!(solid(&edits[0].new_text), solid(source));
}

fn formatted(source: &str, options: &FormattingOptions) -> String {
    let (world, uri) = world_with_main(source);
    let edits = handle_formatting(&world, &uri, options).expect("formatting");
    match edits.len() {
        0 => source.to_owned(),
        _ => edits[0].new_text.clone(),
    }
}

#[test]
fn formatting_keeps_the_content_and_the_ending_of_each_line() {
    let source = "contract C {\r\n a  =  \"x  y\";\t\n\n \t\n} // end";
    let written = formatted(source, &options(4, true));

    assert_eq!(written, "contract C {\r\n    a  =  \"x  y\";\n\n\n} // end\r\n");
    let inner = |text: &str| -> Vec<String> {
        text.lines().map(|line| line.trim().to_owned()).collect()
    };
    assert_eq!(inner(&written), inner(source));
}

#[test]
fn formatting_twice_is_formatting_once() {
    for source in [
        "contract C {\r\n a  =  1;\t\n\n \t\n} // end",
        "{\n{\n x }\n   \n}}\n\n\n",
        "a\r b",
        "\n\n",
        "",
    ] {
        for trim in [None, Some(false), Some(true)] {
            for last in [None, Some(false), Some(true)] {
                let mut options = options(2, true);
                options.trim_trailing_whitespace = trim;
                options.trim_final_newlines = last;
                let once = formatted(source, &options);
                assert_eq!(formatted(&once, &options), once);
            }
        }
    }
}

#[test]
fn a_stray_carriage_return_can_take_a_second_formatting() {
    let once = formatted("x\r  \ny", &options(2, true));
    assert_eq!(once, "x\r\ny\n");
    assert_eq!(formatted(&once, &options(2, true)), "x\r\ny\r\n");
}

#[test]
fn a_folder_is_looked_for_where_nothing_maps_a_file() {
    let world = WorldState::new();
    assert!(needs_workspace_root(&world, &url("file:///home/user/main.solc")));
    assert!(!needs_workspace_root(&world, &url("file:///main/main.solc")));
    assert!(!needs_workspace_root(&world, &url("untitled:Untitled-1")));

    let mut rooted = WorldState::new();
    rooted.load_workspace_documents(url("file:///home/user/"), Vec::new());
    assert!(!needs_workspace_root(&rooted, &url("file:///elsewhere/main.solc")));
}

#[test]
fn every_offset_gets_the_token_around_it() {
    let source = "let été = \"a\"; // ça\n/* x /* y */ é */ 0xff";
    let token = |start: usize, end: usize| Some(ByteRange { start, end });
    let ident = source.find("été").expect("identifier");
    for offset in ident..ident + "été".len() {
        assert_eq!(leaf_range_at(source, offset), token(ident, ident + "été".len()));
    }
    let lexical = scan_source(source);
    let comments = lexical.line_comments.iter().chain(&lexical.block_comments);
    assert_eq!(comments.clone().count(), 2);
    for comment in comments {
        for offset in comment.start..comment.end {
            assert_eq!(leaf_range_at(source, offset), Some(*comment));
        }
    }
    assert_eq!(leaf_range_at(source, source.len()), token(source.len() - 4, source.len()));
    assert_eq!(leaf_range_at(source, source.len() + 1), None);
    assert_eq!(leaf_range_at(source, usize::MAX), None);
    assert_eq!(leaf_range_at("a", 2), None);
    assert_eq!(leaf_range_at("", 0), None);
    assert_eq!(leaf_range_at("a b", 1), token(0, 1));
}

#[test]
fn pairs_of_delimiters_end_one_behind_the_other_outside_of_strings_and_comments() {
    let source = "{ ( \")\" /* } */ ) [ ] } // ]";
    let lexical = scan_source(source);
    let ranges: Vec<(usize, usize)> =
        lexical.delimiters.iter().map(|pair| (pair.range.start, pair.range.end)).collect();
    assert_eq!(ranges, [(2, 17), (18, 21), (0, 23)]);
}

#[test]
fn commas_behind_the_end_of_a_text_are_not_counted() {
    assert_eq!(count_commas_before("a,b", 9, 5), 0);
    assert_eq!(count_commas_before("a,b", 0, 9), 1);
}

#[test]
fn advertises_full_sync_and_core_features() {
    let capabilities = server_capabilities();

    assert_eq!(
        capabilities.text_document_sync,
        TextDocumentSyncKind::Full
    );
    assert!(!capabilities.completion.resolve_provider);
    assert_eq!(capabilities.completion.trigger_characters, vec!["."]);
    assert!(capabilities.hover);
    assert_eq!(capabilities.signature_help_triggers, vec!["(", ","]);
    assert!(capabilities.definition);
    assert!(capabilities.references);
    assert!(capabilities.document_highlight);
    assert!(capabilities.prepare_rename);
    assert!(capabilities.document_symbol);
    assert!(capabilities.workspace_symbol);
    assert_eq!(capabilities.code_action.code_action_kinds, vec!["quickfix"]);
    assert!(!capabilities.code_action.resolve_provider);
    assert!(capabilities.document_formatting);
    assert!(capabilities.folding_range);
    assert!(capabilities.selection_range);
    assert_eq!(capabilities.semantic_tokens.token_types, token_types());
    assert_eq!(
        capabilities.semantic_tokens.token_modifiers,
        token_modifiers()
    );
    assert!(!capabilities.semantic_tokens.range);
    assert!(capabilities.semantic_tokens.full);
    assert!(capabilities.inlay_hint);
    assert!(capabilities.workspace_folders);
    assert!(capabilities.workspace_folder_changes);
    assert_eq!(initialize_result().server_name, "solcore-lsp");
}

fn context_parts(text: &str) -> Option<(String, String)> {
    qualified_completion_context(text, text.len() as u32)
        .map(|context| (context.qualifier, context.member_prefix))
}

#[test]
fn qualified_context_accepts_only_lexer_shaped_hyphenated_identifiers() {
    let valid = "foo-bar.member-prefix";
    assert_eq!(
        context_parts(valid),
        Some(("foo-bar".to_owned(), "member-prefix".to_owned()))
    );

    for invalid in ["foo-.member", "foo--bar.member", "foo.-member"] {
        assert_eq!(
            context_parts(invalid),
            None,
            "unexpectedly accepted {invalid:?}"
        );
    }
}

#[test]
fn qualified_context_takes_the_path_in_front_of_the_cursor() {
    assert_eq!(
        context_parts("return λ.b_1.c"),
        Some(("λ.b_1".to_owned(), "c".to_owned()))
    );
    assert_eq!(
        context_parts("return math."),
        Some(("math".to_owned(), String::new()))
    );
    assert_eq!(context_parts("math"), None);
    assert_eq!(context_parts(".x"), None);
    assert_eq!(context_parts("1a.x"), None);
    assert!(qualified_completion_context("é.x", 1).is_none());
    assert!(qualified_completion_context("a.x", 9).is_none());
    assert!(is_identifier("a-b"));
    assert!(!is_identifier("a-"));
    assert!(!is_identifier(""));
}

#[test]
fn direct_members_are_one_name_behind_the_qualifier() {
    let context = QualifiedCompletionContext {
        qualifier: "math".to_owned(),
        member_prefix: "v".to_owned(),
    };

    assert_eq!(
        direct_qualified_member("math.value", &context),
        Some("value".to_owned())
    );
    for other in ["math.", "math.Color.v", "math.other", "maths.value", "math"] {
        assert_eq!(direct_qualified_member(other, &context), None, "{other}");
    }
}

#[test]
fn identifier_range_supports_unicode_and_internal_hyphens() {
    let text = "prefix λ-value suffix";
    let start = text.find('λ').expect("unicode identifier") as u32;
    let end = start + "λ-value".len() as u32;

    assert_eq!(identifier_range(text, start), Some((start, end)));
    assert_eq!(
        identifier_range(text, start + "λ-".len() as u32),
        Some((start, end))
    );
    assert_eq!(identifier_range(text, start + 1), None);
}

#[test]
fn all_offsets_of_an_identifier_get_the_same_range() {
    let text = "f(λ-value_1, b)";
    let start = text.find('λ').expect("identifier");
    let end = start + "λ-value_1".len();
    for offset in (start..=end).filter(|offset| text.is_char_boundary(*offset)) {
        assert_eq!(identifier_range(text, offset as u32), Some((start as u32, end as u32)));
    }
    assert_eq!(identifier_range(text, end as u32 + 1), None);
}

#[test]
fn argument_lists_are_found_behind_the_callee() {
    let text = "f(a, g(b, c), d) + h()";

    assert_eq!(call_argument_range(text, 1, 16), Some((2, 15)));
    assert_eq!(call_argument_range(text, 1, 10), None);
    assert_eq!(call_argument_range(text, 16, 18), None);
    assert_eq!(call_argument_range(text, 99, 200), None);
    assert_eq!(count_commas_before(text, 2, 3), 0);
    assert_eq!(count_commas_before(text, 2, 9), 1);
    assert_eq!(count_commas_before(text, 2, 14), 2);
    assert_eq!(count_commas_before(text, 2, 200), 2);
}

#[test]
fn legend_has_the_types_of_all_tokens() {
    let types = token_types();
    let kinds = [
        (TokenKind::Function, SemanticTokenType::Function),
        (TokenKind::Type, SemanticTokenType::Type),
        (TokenKind::Variable, SemanticTokenType::Variable),
        (TokenKind::Parameter, SemanticTokenType::Parameter),
        (TokenKind::Property, SemanticTokenType::Property),
        (TokenKind::EnumMember, SemanticTokenType::EnumMember),
        (TokenKind::Namespace, SemanticTokenType::Namespace),
    ];

    for (kind, name) in kinds {
        assert_eq!(types[token_type_index(kind) as usize], name);
    }
    assert_eq!(token_modifiers()[0], SemanticTokenModifier::Declaration);
}

#[test]
fn encoded_tokens_are_relative_ordered_and_apart() {
    let index = LineIndexExt::new("ab cd\n  é f\n");
    let token = |start: u32, end: u32, token_type: u32| RawToken {
        start,
        end,
        token_type,
        modifiers: 0,
    };
    let raw = vec![
        token(11, 12, 3),
        token(3, 5, 2),
        token(0, 2, 1),
        token(4, 5, 1),
        token(8, 10, 4),
        token(4, 7, 1),
        token(5, 5, 1),
    ];
    let data = encode_tokens(&index, &raw);
    let shown: Vec<(u32, u32, u32, u32)> = data
        .iter()
        .map(|token| {
            (
                token.delta_line,
                token.delta_start,
                token.length,
                token.token_type,
            )
        })
        .collect();

    assert_eq!(
        shown,
        vec![(0, 0, 2, 1), (0, 3, 2, 2), (1, 2, 1, 4), (0, 2, 1, 3)]
    );
}

#[test]
fn documentation_is_the_cleaned_text_of_the_comments() {
    let shown = comments_markdown(&vec![
        " Returns its input.".to_owned(),
        "* First\n * second  \n".to_owned(),
    ]);
    assert_eq!(
        shown.as_deref(),
        Some("Returns its input.\nFirst\nsecond")
    );
    assert_eq!(comments_markdown(&Vec::new()), None);
    assert_eq!(comments_markdown(&vec!["  ".to_owned()]), None);
}

#[test]
fn messages_are_routed_by_their_methods() {
    match dispatch(r#"{"jsonrpc":"2.0","id":7,"method":"textDocument/hover","params":{"a":1}}"#) {
        Dispatch::Handle { method, id, params } => {
            assert_eq!(method, Method::Hover);
            assert_eq!(id.as_deref(), Some("7"));
            assert_eq!(params.as_deref(), Some("{\"a\":1}"));
        }
        Dispatch::Answer(_) => panic!("expected a request"),
    }
    match dispatch(r#"{"method":"textDocument/didOpen"}"#) {
        Dispatch::Handle { method, id, params } => {
            assert_eq!(method, Method::DidOpen);
            assert_eq!(id, None);
            assert_eq!(params, None);
        }
        Dispatch::Answer(_) => panic!("expected a notification"),
    }
    assert_eq!(route("workspace/symbol"), Route::Handle(Method::WorkspaceSymbol));
    assert_eq!(route("initialized"), Route::Ignore);
    assert_eq!(route("exit"), Route::Ignore);
    assert_eq!(route("$/cancelRequest"), Route::Ignore);
    assert_eq!(route("shutdown"), Route::Acknowledge);
    assert_eq!(route("textDocument/other"), Route::Unknown);
}

fn refusal(text: &str) -> Option<(Option<String>, i64, String)> {
    match dispatch(text) {
        Dispatch::Answer(Some(Reply::Refused { id, code, text })) => Some((id, code, text)),
        _ => None,
    }
}

#[test]
fn messages_that_cannot_be_handled_are_refused() {
    assert_eq!(
        refusal("{"),
        Some((None, PARSE_ERROR, "Parse error".to_owned()))
    );
    assert_eq!(
        refusal(r#"{"id":"a","method":5}"#),
        Some((
            Some("\"a\"".to_owned()),
            INVALID_REQUEST,
            "Invalid Request".to_owned()
        ))
    );
    assert_eq!(
        refusal(r#"{"id":1,"method":"nothing"}"#),
        Some((
            Some("1".to_owned()),
            METHOD_NOT_FOUND,
            "Method not found".to_owned()
        ))
    );
    assert_eq!(refusal(r#"{"method":"nothing"}"#), None);
    assert_eq!(refusal("[]"), None);
}

#[test]
fn messages_without_an_identifier_get_no_reply() {
    for method in ["textDocument/hover", "initialize", "shutdown", "nothing"] {
        let message = Message {
            id: None,
            method: Some(method.to_owned()),
            params: None,
        };
        assert!(
            matches!(dispatch_message(message), Dispatch::Answer(None)),
            "{method}"
        );
    }
    assert!(null_response_or_empty(None).is_none());
    assert!(error_or_empty(None, INVALID_PARAMS, "Invalid params").is_none());
}

#[test]
fn requests_get_their_own_identifier_back() {
    match dispatch(r#"{"id":3,"method":"shutdown"}"#) {
        Dispatch::Answer(Some(Reply::Done { id })) => assert_eq!(id, "3"),
        _ => panic!("expected an acknowledgement"),
    }
    match error_or_empty(Some("4".to_owned()), INVALID_PARAMS, "Invalid params") {
        Some(Reply::Refused { id, code, text }) => {
            assert_eq!(id.as_deref(), Some("4"));
            assert_eq!(code, -32602);
            assert_eq!(text, "Invalid params");
        }
        _ => panic!("expected a refusal"),
    }
}

#[test]
fn source_files_and_ignored_folders_go_by_their_names() {
    for name in ["main.solc", "a.b.solc", "..solc"] {
        assert!(is_solcore_file_name(name), "{name}");
    }
    for name in [".solc", "solc", "main.sol", "main.solcx", ""] {
        assert!(!is_solcore_file_name(name), "{name}");
    }
    for name in [".git", ".hg", ".svn", "node_modules", "target"] {
        assert!(is_ignored_directory_name(name), "{name}");
    }
    assert!(!is_ignored_directory_name("src"));
}

#[test]
fn clients_begin_with_their_first_folder() {
    let left = url("file:///left/");
    let right = url("file:///right/");
    let none: Vec<Url> = Vec::new();
    let both = vec![left.clone(), right.clone()];

    assert_eq!(
        initial_workspace_root(&both, Some(&right), None),
        Some(&left)
    );
    assert_eq!(
        initial_workspace_root(&none, Some(&right), Some(&left)),
        Some(&right)
    );
    assert_eq!(initial_workspace_root(&none, None, Some(&left)), Some(&left));
    assert_eq!(
        initial_workspace_roots(Vec::new(), Some(right.clone())),
        vec![right.clone()]
    );
    assert_eq!(
        initial_workspace_roots(vec![left.clone()], Some(right.clone())),
        vec![left.clone()]
    );
    assert_eq!(published_version(&left, Some((&left, 4))), Some(4));
    assert_eq!(published_version(&left, Some((&right, 4))), None);
}

#[test]
fn changes_replace_a_range_or_the_whole_text() {
    let change = solcore_lsp::protocol::TextDocumentContentChangeEvent {
        range: Some(Range::new(Position::new(0, 1), Position::new(0, 3))),
        range_length: None,
        text: "β".to_owned(),
    };
    assert_eq!(change_text("a😀c", &change), Some("aβc".to_owned()));
    assert_eq!(change_text("a", &change), None);
}
