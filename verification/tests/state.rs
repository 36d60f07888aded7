//! Documents, workspace folders and their places in the virtual file system.
use solcore_lsp::files::{close_to_disk, update_watched_file};
use solcore_lsp::paths::{
    relative_url_path, uri_to_vfs_path, vfs_key_for_path, vfs_url_for_path, vfs_url_to_client_uri,
    workspace_relative_path,
};
use solcore_lsp::protocol::{Position, Range, TextDocumentContentChangeEvent};
use solcore_lsp::state::{WorkspaceChange, WorldState};
use solcore_lsp::url::Url;

fn url(text: &str) -> Url {
    Url::parse(text).expect("url")
}

fn parent(path: &str) -> Option<&str> {
    path.rsplit_once('/').map(|(parent, _)| parent)
}

fn no_roots() -> Vec<(Url, Vec<(Url, String)>)> {
    Vec::new()
}

#[test]
fn maps_main_file_uris_to_vfs_paths() {
    let uri = url("file:///main/main.solc");
    assert_eq!(uri_to_vfs_path(&uri), Some("/main/main.solc".to_owned()));

    let std_uri = url("file:///std/std.solc");
    assert_eq!(uri_to_vfs_path(&std_uri), None);

    let memory_uri = url("memory:///main/main.solc");
    assert_eq!(uri_to_vfs_path(&memory_uri), None);
}

#[test]
fn open_change_and_close_document() {
    let mut world = WorldState::new();
    let uri = url("file:///main/main.solc");
    let clean = "function main() -> word {\n  return 1;\n}\n";
    let changed = "function main() -> word {\n  return 2;\n}\n";

    assert!(world.open_document(uri.clone(), clean.to_owned()));
    assert_eq!(world.document_text(&uri), Some(clean));
    assert!(world.change_document(&uri, changed.to_owned()));
    assert_eq!(world.document_text(&uri), Some(changed));

    world.close_document(&uri);
    assert_eq!(world.document_text(&uri), None);
    assert!(world.line_index(&uri).is_some());
}

#[test]
fn content_change_batches_apply_utf16_ranges_in_order_atomically() {
    let mut world = WorldState::new();
    let uri = url("file:///main/main.solc");
    assert!(world.open_document(uri.clone(), "a😀c\n".to_owned()));

    assert!(world.apply_document_changes(
        &uri,
        vec![
            TextDocumentContentChangeEvent {
                range: Some(Range::new(Position::new(0, 1), Position::new(0, 3))),
                range_length: Some(2),
                text: "β".to_owned(),
            },
            TextDocumentContentChangeEvent {
                range: Some(Range::new(Position::new(0, 2), Position::new(0, 2))),
                range_length: Some(0),
                text: "!".to_owned(),
            },
        ],
    ));
    assert_eq!(world.document_text(&uri), Some("aβ!c\n"));

    assert!(!world.apply_document_changes(
        &uri,
        vec![TextDocumentContentChangeEvent {
            range: Some(Range::new(Position::new(99, 0), Position::new(99, 1))),
            range_length: None,
            text: "corrupt".to_owned(),
        }],
    ));
    assert_eq!(world.document_text(&uri), Some("aβ!c\n"));
}

#[test]
fn real_workspace_uris_round_trip_through_virtual_main_paths() {
    let mut world = WorldState::new();
    let root = url("file:///tmp/solcore-lsp-state-project/");
    let main_uri = url("file:///tmp/solcore-lsp-state-project/src/main.solc");
    let util_uri = url("file:///tmp/solcore-lsp-state-project/src/util.solc");

    assert_eq!(
        world.load_workspace_documents(
            root,
            vec![
                (
                    main_uri.clone(),
                    "function main() -> word { return 1; }\n".to_owned()
                ),
                (
                    util_uri.clone(),
                    "function util() -> word { return 2; }\n".to_owned()
                ),
            ],
        ),
        2
    );
    assert_eq!(
        world.vfs_path_for_uri(&main_uri),
        Some("/main/src/main.solc".to_owned())
    );
    assert_eq!(
        world.client_uri_for_vfs_url("file:///main/src/util.solc"),
        Some(util_uri)
    );
    assert!(world.open_document(
        main_uri.clone(),
        "function main() -> word { return 1; }\n".to_owned()
    ));
    assert_eq!(world.open_document_uris(), vec![main_uri]);
    assert_eq!(world.workspace_document_uris().len(), 2);
}

#[test]
fn encoded_real_workspace_uris_round_trip() {
    let mut world = WorldState::new();
    let root = url("file:///tmp/solcore-lsp-state-encoded-project/");
    let uri = url("file:///tmp/solcore-lsp-state-encoded-project/src/%E6%95%B0%20%E5%AD%A6.solc");
    assert_eq!(
        world.load_workspace_documents(
            root,
            vec![(
                uri.clone(),
                "function value() -> word { return 1; }\n".to_owned()
            )]
        ),
        1
    );
    assert_eq!(
        world.vfs_path_for_uri(&uri),
        Some("/main/src/数 学.solc".to_owned())
    );
    assert_eq!(
        world.client_uri_for_vfs_url("file:///main/src/%E6%95%B0%20%E5%AD%A6.solc"),
        Some(uri)
    );
}

#[test]
fn loading_the_same_folders_again_changes_nothing() {
    let left = url("file:///tmp/left/");
    let right = url("file:///tmp/right/");
    let file = url("file:///tmp/left/main.solc");
    let source = "function value() -> word { return 1; }\n";
    let mut world = WorldState::new();
    let files = vec![(file.clone(), source.to_owned()), (file.clone(), "twice".to_owned())];
    assert_eq!(
        world.load_workspace_roots(vec![
            (left.clone(), files),
            (right.clone(), Vec::new()),
            (url("file:///tmp/right"), Vec::new()),
        ]),
        1
    );
    assert_eq!(world.workspace_root_count(), 2);
    let path = world.vfs_path_for_uri(&file);
    world.take_changes();

    world.load_workspace_roots(vec![(right, Vec::new()), (left, Vec::new())]);
    assert!(world.take_changes().is_empty());
    assert_eq!(world.workspace_root_count(), 2);
    assert_eq!(world.vfs_path_for_uri(&file), path);
    assert_eq!(world.line_index(&file).expect("document").text(), source);
}

#[test]
fn a_document_is_found_again_where_its_address_reads_otherwise() {
    for (uri, path, text, read) in [
        ("file:///main/..%2FC:%09..", "/main/../C:\t..", "file:///C:/..", "file:///C:/"),
        ("file:///main/a.solc", "/main/a.solc", "file:///main/a.solc", "file:///main/a.solc"),
    ] {
        let key = vfs_url_for_path(path).expect("address");
        assert_eq!(key, text);
        assert_eq!(url(&key).as_str(), read);
        assert_eq!(vfs_key_for_path(path), Some(read.to_owned()));

        let mut world = WorldState::new();
        let uri = url(uri);
        assert!(world.open_document(uri.clone(), String::new()));
        assert_eq!(world.vfs_path_for_uri(&uri), Some(path.to_owned()));
        assert_eq!(world.client_uri_for_vfs_url(&key), Some(uri));
    }
}

#[test]
fn cleaning_a_cleaned_path_changes_nothing() {
    for path in ["/a//./b.solc", "a/b", "./..a/.b/"] {
        let clean = relative_url_path(path).expect("path");
        assert_eq!(relative_url_path(&clean), Some(clean.clone()));
        assert!(clean.split('/').all(|part| !["", ".", ".."].contains(&part)));
    }
    assert_eq!(relative_url_path("a/../b"), None);
    assert_eq!(relative_url_path("/./"), None);
}

#[test]
fn documents_are_listed_once_and_open_ones_are_known() {
    let mut world = WorldState::new();
    let (a, b) = (url("file:///main/a.solc"), url("file:///main/b.solc"));
    assert!(world.open_document(b.clone(), "b".to_owned()));
    assert!(world.open_document(a.clone(), "a".to_owned()));
    assert!(world.open_document(b.clone(), "again".to_owned()));
    world.close_document(&a);

    assert_eq!(world.open_document_uris(), vec![b.clone()]);
    assert_eq!(world.workspace_document_uris(), vec![a.clone(), b.clone()]);
    assert_eq!(world.document_text(&a), None);
    assert_eq!(world.document_text(&b), Some("again"));

    world.replace_workspace_roots(&vec![url("file:///x/"), url("file:///x"), url("file:///y/")]);
    assert_eq!(world.workspace_root_count(), 2);
    assert_eq!(world.document_text(&b), Some("again"));
}

#[test]
fn multiple_workspace_roots_are_isolated_and_stable() {
    let left_root = url("file:///tmp/solcore-lsp-state-multi-root/left/");
    let right_root = url("file:///tmp/solcore-lsp-state-multi-root/right/");
    let left_uri = url("file:///tmp/solcore-lsp-state-multi-root/left/src/main.solc");
    let right_uri = url("file:///tmp/solcore-lsp-state-multi-root/right/src/main.solc");
    let source = "function value() -> word { return 1; }\n";

    let mut world = WorldState::new();
    assert_eq!(
        world.load_workspace_roots(vec![
            (
                left_root.clone(),
                vec![(left_uri.clone(), source.to_owned())]
            ),
            (
                right_root.clone(),
                vec![(right_uri.clone(), source.to_owned())]
            ),
        ]),
        2
    );

    let left_vfs = world.vfs_path_for_uri(&left_uri).expect("left vfs path");
    let right_vfs = world.vfs_path_for_uri(&right_uri).expect("right vfs path");
    assert!(left_vfs.starts_with("/main/__solcore_workspace__/"));
    assert!(right_vfs.starts_with("/main/__solcore_workspace__/"));
    assert!(left_vfs.ends_with("/src/main.solc"));
    assert!(right_vfs.ends_with("/src/main.solc"));
    assert_ne!(left_vfs, right_vfs);
    assert_eq!(world.workspace_root_count(), 2);
    assert_eq!(
        world.client_uri_for_vfs_url(&vfs_url_for_path(&left_vfs).expect("left vfs url")),
        Some(left_uri.clone())
    );
    assert_eq!(
        world.client_uri_for_vfs_url(&vfs_url_for_path(&right_vfs).expect("right vfs url")),
        Some(right_uri.clone())
    );

    let mut reordered = WorldState::new();
    reordered.load_workspace_roots(vec![
        (right_root, vec![(right_uri.clone(), source.to_owned())]),
        (left_root, vec![(left_uri.clone(), source.to_owned())]),
    ]);
    assert_eq!(reordered.vfs_path_for_uri(&left_uri), Some(left_vfs));
    assert_eq!(reordered.vfs_path_for_uri(&right_uri), Some(right_vfs));
}

#[test]
fn configured_main_file_root_uses_multi_root_namespace_before_virtual_mapping() {
    let main_root = url("file:///main/");
    let other_root = url("file:///workspace/other/");
    let main_uri = url("file:///main/project.solc");
    let other_uri = url("file:///workspace/other/project.solc");
    let mut world = WorldState::new();

    world.load_workspace_roots(vec![
        (
            main_root,
            vec![(main_uri.clone(), "function left() {}\n".to_owned())],
        ),
        (
            other_root,
            vec![(other_uri.clone(), "function right() {}\n".to_owned())],
        ),
    ]);

    let main_path = world.vfs_path_for_uri(&main_uri).expect("main path");
    let other_path = world.vfs_path_for_uri(&other_uri).expect("other path");
    assert!(main_path.starts_with("/main/__solcore_workspace__/"));
    assert!(other_path.starts_with("/main/__solcore_workspace__/"));
    assert_ne!(main_path, other_path);
}

#[test]
fn rootless_main_document_is_remapped_when_workspace_folders_arrive() {
    let main_root = url("file:///main/");
    let other_root = url("file:///workspace/other/");
    let main_uri = url("file:///main/project.solc");
    let mut world = WorldState::new();
    assert!(world.open_document(
        main_uri.clone(),
        "function value() -> word { return 1; }\n".to_owned()
    ));
    assert_eq!(
        world.vfs_path_for_uri(&main_uri),
        Some("/main/project.solc".to_owned())
    );

    world.update_workspace_roots(
        Vec::new(),
        vec![(main_root, Vec::new()), (other_root, Vec::new())],
    );

    assert!(world
        .vfs_path_for_uri(&main_uri)
        .is_some_and(|path| path.starts_with("/main/__solcore_workspace__/")));
    assert!(world.is_uri_in_workspace(&main_uri));
}

#[test]
fn watched_files_are_updated_in_their_own_workspace_namespace() {
    let left_root = url("file:///tmp/solcore-lsp-state-multi-root-watch/left/");
    let right_root = url("file:///tmp/solcore-lsp-state-multi-root-watch/right/");
    let left_uri = url("file:///tmp/solcore-lsp-state-multi-root-watch/left/shared.solc");
    let right_uri = url("file:///tmp/solcore-lsp-state-multi-root-watch/right/shared.solc");
    let generated_uri = url("file:///tmp/solcore-lsp-state-multi-root-watch/right/generated.solc");

    let mut world = WorldState::new();
    world.load_workspace_roots(vec![
        (
            left_root,
            vec![(left_uri.clone(), "function left() {}\n".to_owned())],
        ),
        (
            right_root,
            vec![(right_uri.clone(), "function right() {}\n".to_owned())],
        ),
    ]);
    assert!(world.set_workspace_document(
        generated_uri.clone(),
        "function generated() {}\n".to_owned()
    ));

    let generated_vfs = world
        .vfs_path_for_uri(&generated_uri)
        .expect("generated vfs path");
    let right_vfs = world.vfs_path_for_uri(&right_uri).expect("right vfs path");
    let left_vfs = world.vfs_path_for_uri(&left_uri).expect("left vfs path");
    assert_eq!(parent(&generated_vfs), parent(&right_vfs));
    assert_ne!(parent(&generated_vfs), parent(&left_vfs));
    assert!(world.remove_workspace_document(&generated_uri));
    assert!(world.line_index(&generated_uri).is_none());
    assert!(world.line_index(&left_uri).is_some());
    assert!(world.line_index(&right_uri).is_some());
}

#[test]
fn dynamic_root_removal_discards_closed_files_and_detaches_open_files() {
    let left_root = url("file:///tmp/solcore-lsp-state-dynamic-roots/left/");
    let right_root = url("file:///tmp/solcore-lsp-state-dynamic-roots/right/");
    let left_main = url("file:///tmp/solcore-lsp-state-dynamic-roots/left/main.solc");
    let left_util = url("file:///tmp/solcore-lsp-state-dynamic-roots/left/util.solc");
    let right_main = url("file:///tmp/solcore-lsp-state-dynamic-roots/right/main.solc");
    let disk_source = "function value() -> word { return 1; }\n";
    let unsaved_source = "function value() -> word { return 99; }\n";

    let mut world = WorldState::new();
    world.load_workspace_roots(vec![
        (
            left_root.clone(),
            vec![
                (left_main.clone(), disk_source.to_owned()),
                (left_util.clone(), "function util() {}\n".to_owned()),
            ],
        ),
        (
            right_root,
            vec![(right_main.clone(), "function right() {}\n".to_owned())],
        ),
    ]);
    assert!(world.open_document(left_main.clone(), unsaved_source.to_owned()));

    let (loaded, discarded) =
        world.update_workspace_roots(vec![left_root.clone()], no_roots());
    assert_eq!(loaded, 0);
    assert_eq!(discarded, vec![left_util.clone()]);
    assert_eq!(world.workspace_root_count(), 1);
    assert_eq!(world.document_text(&left_main), Some(unsaved_source));
    assert!(!world.is_uri_in_workspace(&left_main));
    assert!(world
        .vfs_path_for_uri(&left_main)
        .is_some_and(|path| path.starts_with("/main/__solcore_detached__/")));
    assert!(world.line_index(&left_util).is_none());
    assert!(world.is_uri_in_workspace(&right_main));
    assert!(world
        .vfs_path_for_uri(&right_main)
        .is_some_and(|path| path.starts_with("/main/__solcore_workspace__/")));

    let (loaded, discarded) = world.update_workspace_roots(
        Vec::new(),
        vec![(
            left_root.clone(),
            vec![
                (left_main.clone(), disk_source.to_owned()),
                (left_util.clone(), "function util() {}\n".to_owned()),
            ],
        )],
    );
    assert_eq!(loaded, 1, "the open editor buffer must not be overwritten");
    assert!(discarded.is_empty());
    assert_eq!(world.workspace_root_count(), 2);
    assert!(world.is_uri_in_workspace(&left_main));
    assert_eq!(world.document_text(&left_main), Some(unsaved_source));
    assert!(world.line_index(&left_util).is_some());
    assert!(world
        .vfs_path_for_uri(&left_main)
        .is_some_and(|path| path.starts_with("/main/__solcore_workspace__/")));

    world.update_workspace_roots(vec![left_root], no_roots());
    world.close_document(&left_main);
    assert!(world.remove_workspace_document(&left_main));
    assert!(world.line_index(&left_main).is_none());
}

#[test]
fn file_uri_drive_letters_are_normalized_without_folding_path_case() {
    let root = url("file:///c:/CaseSensitive/Project");
    let matching = url("file:///C:/CaseSensitive/Project/main.solc");
    let wrong_case = url("file:///C:/casesensitive/Project/main.solc");

    assert_eq!(
        workspace_relative_path(&root, &matching).as_deref(),
        Some("main.solc")
    );
    assert_eq!(workspace_relative_path(&root, &wrong_case), None);
}

#[test]
fn first_real_document_infers_its_parent_as_workspace_root() {
    let mut world = WorldState::new();
    let uri = url("file:///tmp/solcore-lsp-inferred-root/main.solc");

    assert!(world.open_document(
        uri.clone(),
        "function main() -> word { return 1; }\n".to_owned()
    ));

    assert!(world.has_workspace_root());
    assert_eq!(
        world.vfs_path_for_uri(&uri),
        Some("/main/main.solc".to_owned())
    );
}

#[test]
fn untitled_documents_receive_stable_virtual_paths() {
    let mut world = WorldState::new();
    let uri = url("untitled:Untitled-1");
    assert!(world.open_document(
        uri.clone(),
        "function main() -> word { return 1; }\n".to_owned()
    ));
    assert_eq!(
        world.vfs_path_for_uri(&uri),
        Some("/main/__virtual__/0.solc".to_owned())
    );
    assert_eq!(
        world.client_uri_for_vfs_url("file:///main/__virtual__/0.solc"),
        Some(uri)
    );
}

#[test]
fn closed_virtual_documents_can_be_discarded() {
    let mut world = WorldState::new();
    let uri = url("untitled:Untitled-1");
    assert!(world.open_document(
        uri.clone(),
        "function main() -> word { return 1; }\n".to_owned()
    ));

    world.close_document(&uri);
    assert!(world.remove_workspace_document(&uri));
    assert!(world.line_index(&uri).is_none());
    assert!(world.vfs_path_for_uri(&uri).is_none());
}

#[test]
fn unix_backslash_in_filename_does_not_become_a_path_separator() {
    assert_eq!(
        relative_url_path("src/name\\part.solc"),
        Some("src/name\\part.solc".to_owned())
    );
}

#[test]
fn relative_paths_stay_below_their_root() {
    assert_eq!(relative_url_path("a//b/"), Some("a/b".to_owned()));
    assert_eq!(relative_url_path("a/../b"), None);
    assert_eq!(relative_url_path(""), None);
    let root = url("file:///w/left/");
    assert_eq!(
        workspace_relative_path(&root, &url("file:///w/left/a%20b.solc")).as_deref(),
        Some("a b.solc")
    );
    assert_eq!(
        workspace_relative_path(&root, &url("file:///w/leftover/a.solc")),
        None
    );
    assert_eq!(
        workspace_relative_path(&root, &url("untitled:left/a.solc")),
        None
    );
}

#[test]
fn virtual_addresses_are_percent_encoded() {
    let address = vfs_url_for_path("/main/a b.solc").expect("address");
    assert_eq!(address, "file:///main/a%20b.solc");
    assert_eq!(
        vfs_url_to_client_uri(&address).map(|uri| uri.path().to_owned()),
        Some("/main/a%20b.solc".to_owned())
    );
    assert_eq!(
        uri_to_vfs_path(&url("file:///main/a%20b.solc")),
        Some("/main/a b.solc".to_owned())
    );
    assert!(vfs_url_to_client_uri("no address").is_none());
}

#[test]
fn watched_files_do_not_touch_open_documents() {
    let mut world = WorldState::new();
    let open = url("file:///main/open.solc");
    let closed = url("file:///main/closed.solc");
    assert!(world.open_document(open.clone(), "a".to_owned()));

    update_watched_file(&mut world, open.clone(), false, Some("b".to_owned()));
    assert_eq!(world.document_text(&open), Some("a"));
    update_watched_file(&mut world, open.clone(), true, None);
    assert_eq!(world.document_text(&open), Some("a"));

    update_watched_file(&mut world, closed.clone(), false, Some("c".to_owned()));
    assert_eq!(
        world.line_index(&closed).map(|index| index.text()),
        Some("c")
    );
    update_watched_file(&mut world, closed.clone(), false, None);
    assert!(world.line_index(&closed).is_some());
    update_watched_file(&mut world, closed.clone(), true, None);
    assert!(world.line_index(&closed).is_none());
}

#[test]
fn closed_documents_take_the_text_of_their_file() {
    let mut world = WorldState::new();
    let uri = url("file:///main/main.solc");
    assert!(world.open_document(uri.clone(), "unsaved".to_owned()));
    close_to_disk(&mut world, uri.clone(), Some("saved".to_owned()));
    assert!(!world.is_document_open(&uri));
    assert_eq!(
        world.line_index(&uri).map(|index| index.text()),
        Some("saved")
    );

    assert!(world.open_document(uri.clone(), "unsaved".to_owned()));
    close_to_disk(&mut world, uri.clone(), None);
    assert!(world.line_index(&uri).is_none());
}

#[test]
fn changes_are_handed_to_the_front_end_in_order() {
    let mut world = WorldState::new();
    let uri = url("file:///main/main.solc");
    assert!(world.open_document(uri.clone(), "a".to_owned()));
    let changes = world.take_changes();
    let last_text = changes.iter().rev().find_map(|change| match change {
        WorkspaceChange::SetFile { path, contents } => Some((path.as_str(), contents.as_str())),
        _ => None,
    });
    assert_eq!(last_text, Some(("/main/main.solc", "a")));
    assert!(changes
        .iter()
        .any(|change| matches!(change, WorkspaceChange::SetEntry { path } if path == "/main/main.solc")));
    assert!(world.take_changes().is_empty());
}
