//! Documents of the language server and their places in the virtual file system.
//!
//! Browser clients may use the virtual `/main/<path>` addresses directly, while native clients
//! map real workspace files to `/main` and back for cross-file editor results. What the compiler
//! has to learn of the documents is kept as a list of changes for the caller to pass on.
use vstd::prelude::*;
use vstd::string::*;
use vstd::utf8::is_char_boundary;

use crate::line_index::{
    byte_at, char_index, count_utf16, cut, law_offset_round_trip, lemma_cut,
    lemma_char_index_order, lemma_utf8_concat, utf16_len, LineIndexExt,
};
use crate::paths::{
    extension_or_default, file_name_or_default, hex_encode, hex_text, main_path, path_below,
    path_extension, path_file_name, relative_path, relative_url_path, root_identity,
    root_path_len, short_path, uri_to_vfs_path, vfs_key, vfs_key_for_path, vfs_url, workspace_relative_path,
    workspace_root_identity, workspace_root_path_len,
};
use crate::protocol::TextDocumentContentChangeEvent;
use crate::seqs::views;
use crate::table::{lookup, with_entry, without_entry, Table};
use crate::text::{decimal, decimal_text, has_prefix, str_eq, str_starts_with, text_less, text_lt, utf8};
use crate::world_laws::{
    identity_set, keeps_form, law_batch_atomic, law_closed_document, law_empty_world, law_loaded,
    law_mapping_round_trip, law_put_open, law_removed, law_replaced_roots, law_roots_settle,
    law_set_document, well_formed,
};
use crate::url::{joined_url, parsed_url, parts_of, text_of, Url, UrlParts};

verus! {

/// Whether a text is short enough for byte offsets of 32 bits.
pub open spec fn fits(text: Seq<char>) -> bool {
    utf8(text).len() < u32::MAX
}

/// A known text document and its position mapper.
pub struct DocumentState {
    line_index: LineIndexExt,
}

impl View for DocumentState {
    type V = Seq<char>;

    closed spec fn view(&self) -> Seq<char> {
        self.line_index@
    }
}

impl DocumentState {
    /// Builds document state for full-text synchronization.
    pub fn new(text: String) -> (document: DocumentState)
        requires
            fits(text@),
        ensures
            document@ == text@,
    {
        DocumentState { line_index: LineIndexExt::new(text.as_str()) }
    }

    /// Returns the current document text.
    pub fn text(&self) -> (text: &str)
        ensures
            text@ == self@,
            fits(text@),
    {
        self.line_index.text()
    }

    /// Returns the current position mapper.
    pub fn line_index(&self) -> (index: &LineIndexExt)
        ensures
            index@ == self@,
    {
        &self.line_index
    }
}

/// A change of the compiler's virtual file system.
pub enum WorkspaceChange {
    SetFile { path: String, contents: String },
    RemoveFile { path: String },
    SetEntry { path: String },
}

/// What a [`WorkspaceChange`] says.
pub enum ChangeParts {
    SetFile { path: Seq<char>, contents: Seq<char> },
    RemoveFile { path: Seq<char> },
    SetEntry { path: Seq<char> },
}

impl View for WorkspaceChange {
    type V = ChangeParts;

    open spec fn view(&self) -> ChangeParts {
        match *self {
            WorkspaceChange::SetFile { path, contents } => ChangeParts::SetFile {
                path: path@,
                contents: contents@,
            },
            WorkspaceChange::RemoveFile { path } => ChangeParts::RemoveFile { path: path@ },
            WorkspaceChange::SetEntry { path } => ChangeParts::SetEntry { path: path@ },
        }
    }
}

/// A workspace folder: its address, what tells it from other folders, and the name under which
/// its files are kept apart from those of other folders.
pub struct RootParts {
    pub uri: UrlParts,
    pub identity: Seq<char>,
    pub namespace: Seq<char>,
}

pub struct WorkspaceRoot {
    uri: Url,
    identity: String,
    namespace: String,
}

impl View for WorkspaceRoot {
    type V = RootParts;

    closed spec fn view(&self) -> RootParts {
        RootParts { uri: self.uri@, identity: self.identity@, namespace: self.namespace@ }
    }
}

/// The folder at an address, none where the address has no decodable path.
pub open spec fn root_at(uri: UrlParts) -> Option<RootParts> {
    match root_identity(uri) {
        Some(identity) => Some(
            RootParts { uri, identity, namespace: hex_text(utf8(identity)) },
        ),
        None => None,
    }
}

impl WorkspaceRoot {
    fn new(uri: &Url) -> (root: Option<WorkspaceRoot>)
        ensures
            match root {
                Some(root) => root_at(uri@) == Some(root@),
                None => root_at(uri@) is None,
            },
    {
        match workspace_root_identity(uri) {
            Some(identity) => {
                let namespace = hex_encode(identity.as_str().as_bytes());
                Some(WorkspaceRoot { uri: uri.clone(), identity, namespace })
            },
            None => None,
        }
    }
}

/// Everything that the server knows of its documents.
#[verifier::ext_equal]
pub struct WorldModel {
    /// Known documents with their addresses and texts, by the text of the address.
    pub documents: Seq<(Seq<char>, (UrlParts, Seq<char>))>,
    /// Documents that are open in the client.
    pub open: Seq<(Seq<char>, UrlParts)>,
    /// Virtual paths by the text of the client address.
    pub client_to_vfs: Seq<(Seq<char>, Seq<char>)>,
    /// Client addresses by the text of the virtual address.
    pub vfs_to_client: Seq<(Seq<char>, UrlParts)>,
    pub roots: Seq<RootParts>,
    /// Whether the files of each folder are kept below a name of their own.
    pub namespaced: bool,
    pub next_id: u64,
    pub entry: Option<UrlParts>,
    pub changes: Seq<ChangeParts>,
}

/// Whether a document is open.
pub open spec fn is_open(world: WorldModel, uri: UrlParts) -> bool {
    lookup(world.open, uri.text) is Some
}

/// The text of an open document.
pub open spec fn open_text(world: WorldModel, uri: UrlParts) -> Option<Seq<char>> {
    if is_open(world, uri) {
        match lookup(world.documents, uri.text) {
            Some(document) => Some(document.1),
            None => None,
        }
    } else {
        None
    }
}

/// Whether the folder at `left` is preferred to the one at `right` for a file below both: its
/// path is longer, or as long with a smaller identity.
pub open spec fn root_preferred(left: RootParts, right: RootParts) -> bool {
    root_path_len(left.uri) > root_path_len(right.uri) || (root_path_len(left.uri)
        == root_path_len(right.uri) && text_lt(left.identity, right.identity))
}

/// Index of the folder that a file belongs to: the preferred one of those that it is below.
pub open spec fn owning_root(roots: Seq<RootParts>, uri: UrlParts) -> Option<int>
    decreases roots.len(),
{
    if roots.len() == 0 {
        None
    } else {
        let earlier = owning_root(roots.drop_last(), uri);
        if path_below(roots.last().uri, uri) is None {
            earlier
        } else {
            match earlier {
                Some(i) => if root_preferred(roots[i], roots.last()) {
                    earlier
                } else {
                    Some(roots.len() - 1)
                },
                None => Some(roots.len() - 1),
            }
        }
    }
}

/// The cleaned path of a file below the folder that it belongs to, with the name of the folder.
pub open spec fn owned_path(roots: Seq<RootParts>, uri: UrlParts) -> Option<(Seq<char>, Seq<char>)> {
    match owning_root(roots, uri) {
        Some(i) => match relative_path(path_below(roots[i].uri, uri)->0) {
            Some(relative) => Some((roots[i].namespace, relative)),
            None => None,
        },
        None => None,
    }
}

/// The virtual path of a file of a workspace folder. A single folder is mounted at `/main`; each
/// of several folders has a name of its own below `/main/__solcore_workspace__`.
pub open spec fn folder_path(world: WorldModel, uri: UrlParts) -> Option<Seq<char>> {
    match owned_path(world.roots, uri) {
        Some((namespace, relative)) => if world.roots.len() == 1 && !world.namespaced {
            Some("/main/"@ + relative)
        } else {
            Some("/main/__solcore_workspace__/"@ + namespace + "/"@ + relative)
        },
        None => None,
    }
}

/// The virtual path of a document, without any change of the mapping.
pub open spec fn known_path(world: WorldModel, uri: UrlParts) -> Option<Seq<char>> {
    match lookup(world.client_to_vfs, uri.text) {
        Some(path) => Some(path),
        None => match folder_path(world, uri) {
            Some(path) => Some(path),
            None => main_path(uri),
        },
    }
}

/// The world with the folder of a real file as its workspace, where it has no folder yet.
pub open spec fn with_inferred_root(world: WorldModel, uri: UrlParts) -> WorldModel {
    if world.roots.len() == 0 && uri.scheme == "file"@ && main_path(uri) is None {
        match joined_url(uri.text, "."@) {
            Some(folder) => match root_at(folder) {
                Some(root) => WorldModel { roots: world.roots.push(root), ..world },
                None => world,
            },
            None => world,
        }
    } else {
        world
    }
}

/// A fresh virtual path for a document that is no file. There is none once all numbers are used.
pub open spec fn with_virtual_path(world: WorldModel, uri: UrlParts) -> (
    WorldModel,
    Option<Seq<char>>,
) {
    if uri.scheme == "file"@ || world.next_id == u64::MAX {
        (world, None)
    } else {
        (
            WorldModel { next_id: (world.next_id + 1) as u64, ..world },
            Some(
                "/main/__virtual__/"@ + decimal(world.next_id as nat) + "."@
                    + extension_or_default(uri.path),
            ),
        )
    }
}

/// Remembers both directions of the mapping between a document and its virtual path.
pub open spec fn with_mapping(world: WorldModel, uri: UrlParts, path: Seq<char>) -> WorldModel {
    let forward = WorldModel {
        client_to_vfs: with_entry(world.client_to_vfs, uri.text, path),
        ..world
    };
    match vfs_key(path) {
        Some(key) => WorldModel {
            vfs_to_client: with_entry(forward.vfs_to_client, key, uri),
            ..forward
        },
        None => forward,
    }
}

/// The virtual path that a document gets that has none.
pub open spec fn with_new_path(world: WorldModel, uri: UrlParts) -> (WorldModel, Option<Seq<char>>) {
    let rooted = with_inferred_root(world, uri);
    match folder_path(rooted, uri) {
        Some(path) => (rooted, Some(path)),
        None => match main_path(uri) {
            Some(path) => (rooted, Some(path)),
            None => with_virtual_path(rooted, uri),
        },
    }
}

/// Whether a document has a virtual path, or gets one that is short enough for an address.
pub open spec fn is_placeable(world: WorldModel, uri: UrlParts) -> bool {
    lookup(world.client_to_vfs, uri.text) is Some || match with_new_path(world, uri).1 {
        Some(path) => short_path(path),
        None => false,
    }
}

/// Gives a document a virtual path, the one that it has where it has one.
pub open spec fn mapped(world: WorldModel, uri: UrlParts) -> (WorldModel, Option<Seq<char>>) {
    match lookup(world.client_to_vfs, uri.text) {
        Some(path) => (world, Some(path)),
        None => {
            let (placed, path) = with_new_path(world, uri);
            match path {
                Some(path) => (
                    with_mapping(placed, uri, path),
                    if vfs_key(path) is Some {
                        Some(path)
                    } else {
                        None
                    },
                ),
                None => (placed, None),
            }
        },
    }
}

pub open spec fn with_change(world: WorldModel, change: ChangeParts) -> WorldModel {
    WorldModel { changes: world.changes.push(change), ..world }
}

/// The world with new contents of a document that is not opened by this.
pub open spec fn with_contents(
    world: WorldModel,
    uri: UrlParts,
    path: Seq<char>,
    text: Seq<char>,
) -> WorldModel {
    WorldModel {
        documents: with_entry(world.documents, uri.text, (uri, text)),
        ..with_change(world, ChangeParts::SetFile { path, contents: text })
    }
}

/// Adds or refreshes a closed document.
pub open spec fn set_document(world: WorldModel, uri: UrlParts, text: Seq<char>) -> (
    WorldModel,
    bool,
) {
    match mapped(world, uri) {
        (world, Some(path)) => (with_contents(world, uri, path, text), true),
        (world, None) => (world, false),
    }
}

/// Opens a document, or changes an open one. The first open document is the entry.
pub open spec fn put_open(world: WorldModel, uri: UrlParts, text: Seq<char>) -> (
    WorldModel,
    bool,
) {
    match mapped(world, uri) {
        (world, Some(path)) => {
            let set = with_contents(world, uri, path, text);
            let entered = if world.entry is None {
                WorldModel {
                    entry: Some(uri),
                    ..with_change(set, ChangeParts::SetEntry { path })
                }
            } else {
                set
            };
            (WorldModel { open: with_entry(entered.open, uri.text, uri), ..entered }, true)
        },
        (world, None) => (world, false),
    }
}

/// Removes a closed document from everything but the open documents.
pub open spec fn removed(world: WorldModel, uri: UrlParts) -> (WorldModel, bool) {
    if is_open(world, uri) {
        (world, false)
    } else {
        match lookup(world.client_to_vfs, uri.text) {
            Some(path) => {
                let unmapped = without_mapping(world, uri, path);
                (
                    with_change(
                        WorldModel {
                            documents: without_entry(unmapped.documents, uri.text),
                            ..unmapped
                        },
                        ChangeParts::RemoveFile { path },
                    ),
                    true,
                )
            },
            None => (world, false),
        }
    }
}

/// Forgets both directions of the mapping between a document and its virtual path.
pub open spec fn without_mapping(world: WorldModel, uri: UrlParts, path: Seq<char>) -> WorldModel {
    let forward = WorldModel {
        client_to_vfs: without_entry(world.client_to_vfs, uri.text),
        ..world
    };
    match vfs_key(path) {
        Some(key) => WorldModel {
            vfs_to_client: without_entry(forward.vfs_to_client, key),
            ..forward
        },
        None => forward,
    }
}

/// The address with the smallest text among the open documents that pass a test.
pub open spec fn least_open(open: Seq<(Seq<char>, UrlParts)>, test: spec_fn(UrlParts) -> bool) -> Option<
    UrlParts,
>
    decreases open.len(),
{
    if open.len() == 0 {
        None
    } else {
        let earlier = least_open(open.drop_last(), test);
        let uri = open.last().1;
        if !test(uri) {
            earlier
        } else {
            match earlier {
                Some(least) => if text_lt(uri.text, least.text) {
                    Some(uri)
                } else {
                    earlier
                },
                None => Some(uri),
            }
        }
    }
}

/// Tells the compiler the entry, where the entry has a virtual path.
pub open spec fn announce_entry(world: WorldModel) -> WorldModel {
    match world.entry {
        Some(uri) => match known_path(world, uri) {
            Some(path) => with_change(world, ChangeParts::SetEntry { path }),
            None => world,
        },
        None => world,
    }
}

/// Closes a document. A closed entry is replaced by the first open document.
pub open spec fn closed_document(world: WorldModel, uri: UrlParts) -> WorldModel {
    let shut = WorldModel { open: without_entry(world.open, uri.text), ..world };
    if shut.entry is Some && shut.entry->0.text == uri.text {
        announce_entry(
            WorldModel { entry: least_open(shut.open, |u: UrlParts| true), ..shut },
        )
    } else {
        shut
    }
}

/// Keeps an entry that is still open and mapped, else makes the first mapped open document the
/// entry.
pub open spec fn refreshed_entry(world: WorldModel) -> WorldModel {
    if world.entry is Some && is_open(world, world.entry->0) && known_path(
        world,
        world.entry->0,
    ) is Some {
        announce_entry(world)
    } else {
        announce_entry(
            WorldModel {
                entry: least_open(world.open, |u: UrlParts| known_path(world, u) is Some),
                ..world
            },
        )
    }
}

/// Inserts a folder into folders in the order of their identities. A folder whose identity is
/// there already is left out.
pub open spec fn with_root(roots: Seq<RootParts>, root: RootParts) -> Seq<RootParts>
    decreases roots.len(),
{
    if roots.len() == 0 || text_lt(roots.last().identity, root.identity) {
        roots.push(root)
    } else if roots.last().identity == root.identity {
        roots
    } else {
        with_root(roots.drop_last(), root).push(roots.last())
    }
}

/// The folders at some addresses, in the order of their identities, each once.
pub open spec fn roots_at(uris: Seq<UrlParts>) -> Seq<RootParts>
    decreases uris.len(),
{
    if uris.len() == 0 {
        Seq::empty()
    } else {
        match root_at(uris.last()) {
            Some(root) => with_root(roots_at(uris.drop_last()), root),
            None => roots_at(uris.drop_last()),
        }
    }
}

pub open spec fn identities(roots: Seq<RootParts>) -> Seq<Seq<char>> {
    Seq::new(roots.len(), |i: int| roots[i].identity)
}

/// Whether a file is below one of some folders.
pub open spec fn below_any(roots: Seq<RootParts>, uri: UrlParts) -> bool {
    exists|i: int| 0 <= i < roots.len() && path_below((#[trigger] roots[i]).uri, uri) is Some
}

/// Whether an open file loses its folder when the folders of a world are replaced.
pub open spec fn is_detached_by(world: WorldModel, roots: Seq<RootParts>, uri: UrlParts) -> bool {
    uri.scheme == "file"@ && (main_path(uri) is None || below_any(world.roots, uri)) && !below_any(
        roots,
        uri,
    )
}

/// Whether the place of a document depends on the folders that are replaced.
pub open spec fn is_placed_by(world: WorldModel, roots: Seq<RootParts>, uri: UrlParts) -> bool {
    uri.scheme == "file"@ && (main_path(uri) is None || below_any(world.roots, uri) || below_any(
        roots,
        uri,
    ))
}

/// The path below `/main/__solcore_detached__` that an open file has without a folder. Files
/// that shared a folder stay together.
pub open spec fn detached_path(world: WorldModel, uri: UrlParts) -> Seq<char> {
    let (namespace, relative) = match owned_path(world.roots, uri) {
        Some(owned) => owned,
        None => (
            hex_text(
                utf8(
                    match root_identity(uri) {
                        Some(identity) => identity,
                        None => uri.text,
                    },
                ),
            ),
            file_name_or_default(uri.path),
        ),
    };
    "/main/__solcore_detached__/"@ + namespace + "/"@ + relative
}

/// The detached path that a document has, or would have.
pub open spec fn kept_detached_path(world: WorldModel, uri: UrlParts) -> Seq<char> {
    match lookup(world.client_to_vfs, uri.text) {
        Some(path) => if has_prefix(path, "/main/__solcore_detached__/"@) {
            path
        } else {
            detached_path(world, uri)
        },
        None => detached_path(world, uri),
    }
}

/// A document whose place is decided anew.
pub struct MovedParts {
    pub uri: UrlParts,
    pub text: Seq<char>,
    pub open: bool,
    pub detached: Seq<char>,
}

/// The documents that move when the folders of a world are replaced.
pub open spec fn moved_documents(
    world: WorldModel,
    roots: Seq<RootParts>,
    documents: Seq<(Seq<char>, (UrlParts, Seq<char>))>,
) -> Seq<MovedParts>
    decreases documents.len(),
{
    if documents.len() == 0 {
        Seq::empty()
    } else {
        let earlier = moved_documents(world, roots, documents.drop_last());
        let (uri, text) = documents.last().1;
        if is_placed_by(world, roots, uri) {
            earlier.push(
                MovedParts {
                    uri,
                    text,
                    open: is_open(world, uri),
                    detached: kept_detached_path(world, uri),
                },
            )
        } else {
            earlier
        }
    }
}

/// Takes documents out of their places.
pub open spec fn lifted(world: WorldModel, moved: Seq<MovedParts>) -> WorldModel
    decreases moved.len(),
{
    if moved.len() == 0 {
        world
    } else {
        let before = lifted(world, moved.drop_last());
        let uri = moved.last().uri;
        match lookup(before.client_to_vfs, uri.text) {
            Some(path) => with_change(
                without_mapping(before, uri, path),
                ChangeParts::RemoveFile { path },
            ),
            None => before,
        }
    }
}

/// Puts documents into their new places. A file without a folder stays detached where it is
/// open, and is discarded where it is closed.
pub open spec fn placed(world: WorldModel, moved: Seq<MovedParts>) -> WorldModel
    decreases moved.len(),
{
    if moved.len() == 0 {
        world
    } else {
        let before = placed(world, moved.drop_last());
        let document = moved.last();
        match new_place(before, document) {
            Some(path) => with_change(
                with_mapping(before, document.uri, path),
                ChangeParts::SetFile { path, contents: document.text },
            ),
            None => WorldModel {
                documents: without_entry(before.documents, document.uri.text),
                open: without_entry(before.open, document.uri.text),
                ..before
            },
        }
    }
}

pub open spec fn new_place(world: WorldModel, document: MovedParts) -> Option<Seq<char>> {
    match folder_path(world, document.uri) {
        Some(path) => Some(path),
        None => if document.open {
            Some(document.detached)
        } else {
            None
        },
    }
}

/// Whether replacing the folders detaches some open document.
pub open spec fn detaches_open(world: WorldModel, roots: Seq<RootParts>) -> bool {
    exists|i: int|
        0 <= i < world.open.len() && is_detached_by(world, roots, (#[trigger] world.open[i]).1)
}

/// Replaces the workspace folders.
pub open spec fn replaced_roots(world: WorldModel, uris: Seq<UrlParts>) -> WorldModel {
    let roots = roots_at(uris);
    if identities(world.roots) == identities(roots) {
        world
    } else {
        let named = WorldModel {
            namespaced: world.namespaced || roots.len() > 1 || (roots.len() > 0 && detaches_open(
                world,
                roots,
            )),
            ..world
        };
        let moved = moved_documents(named, roots, named.documents);
        refreshed_entry(placed(WorldModel { roots, ..lifted(named, moved) }, moved))
    }
}

/// Whether an address occurs among some files.
pub open spec fn names_file(files: Seq<(UrlParts, Seq<char>)>, text: Seq<char>) -> bool {
    exists|i: int| 0 <= i < files.len() && (#[trigger] files[i]).0.text == text
}

/// Loads files that are not open, each address once.
pub open spec fn loaded(world: WorldModel, files: Seq<(UrlParts, Seq<char>)>) -> (WorldModel, nat)
    decreases files.len(),
{
    if files.len() == 0 {
        (world, 0)
    } else {
        let (before, count) = loaded(world, files.drop_last());
        let (uri, text) = files.last();
        if names_file(files.drop_last(), uri.text) || is_open(before, uri) {
            (before, count)
        } else {
            match set_document(before, uri, text) {
                (after, true) => (after, count + 1),
                (after, false) => (after, count),
            }
        }
    }
}

/// The files of several folders in a row.
pub open spec fn all_files(folders: Seq<(UrlParts, Seq<(UrlParts, Seq<char>)>)>) -> Seq<
    (UrlParts, Seq<char>),
>
    decreases folders.len(),
{
    if folders.len() == 0 {
        Seq::empty()
    } else {
        all_files(folders.drop_last()) + folders.last().1
    }
}

pub open spec fn folder_uris(folders: Seq<(UrlParts, Seq<(UrlParts, Seq<char>)>)>) -> Seq<UrlParts> {
    Seq::new(folders.len(), |i: int| folders[i].0)
}

/// Inserts an address into addresses in the order of their texts, behind equal ones.
pub open spec fn with_url(urls: Seq<UrlParts>, url: UrlParts) -> Seq<UrlParts>
    decreases urls.len(),
{
    if urls.len() > 0 && text_lt(url.text, urls.last().text) {
        with_url(urls.drop_last(), url).push(urls.last())
    } else {
        urls.push(url)
    }
}

/// The addresses of some entries that pass a test, in the order of their texts.
pub open spec fn sorted_urls(urls: Seq<UrlParts>, test: spec_fn(UrlParts) -> bool) -> Seq<UrlParts>
    decreases urls.len(),
{
    if urls.len() == 0 {
        urls
    } else {
        let earlier = sorted_urls(urls.drop_last(), test);
        if test(urls.last()) {
            with_url(earlier, urls.last())
        } else {
            earlier
        }
    }
}

pub open spec fn document_urls(world: WorldModel) -> Seq<UrlParts> {
    Seq::new(world.documents.len(), |i: int| world.documents[i].1.0)
}

pub open spec fn open_urls(world: WorldModel) -> Seq<UrlParts> {
    Seq::new(world.open.len(), |i: int| world.open[i].1)
}

/// Whether one of some addresses is the address of a folder.
pub open spec fn names_root(uris: Seq<UrlParts>, root: RootParts) -> bool {
    exists|i: int| 0 <= i < uris.len() && root_identity(#[trigger] uris[i]) == Some(root.identity)
}

/// The addresses of the folders that are not removed.
pub open spec fn remaining_roots(roots: Seq<RootParts>, removed: Seq<UrlParts>) -> Seq<UrlParts>
    decreases roots.len(),
{
    if roots.len() == 0 {
        Seq::empty()
    } else {
        let earlier = remaining_roots(roots.drop_last(), removed);
        if names_root(removed, roots.last()) {
            earlier
        } else {
            earlier.push(roots.last().uri)
        }
    }
}

/// One change of a text: a new text, or a new text for a range. None where the range lies not in
/// the text, ends before it starts, or has not the stated length.
pub open spec fn changed_text(text: Seq<char>, change: TextDocumentContentChangeEvent) -> Option<
    Seq<char>,
> {
    match change.range {
        None => Some(change.text@),
        Some(range) => match (byte_at(text, range.start), byte_at(text, range.end)) {
            (Some(start), Some(end)) => {
                let from = char_index(text, start as int);
                let to = char_index(text, end as int);
                if start > end || (change.range_length is Some && utf16_len(
                    text.subrange(from, to),
                ) != change.range_length->0) {
                    None
                } else {
                    Some(text.take(from) + change.text@ + text.skip(to))
                }
            },
            _ => None,
        },
    }
}

/// Changes of a text one after the other. None where one of them does not apply.
pub open spec fn edited_text(text: Seq<char>, changes: Seq<TextDocumentContentChangeEvent>) -> Option<
    Seq<char>,
>
    decreases changes.len(),
{
    if changes.len() == 0 {
        Some(text)
    } else {
        match edited_text(text, changes.drop_last()) {
            Some(before) => changed_text(before, changes.last()),
            None => None,
        }
    }
}

/// Whether each text on the way through some changes is short enough for byte offsets.
pub open spec fn edits_fit(text: Seq<char>, changes: Seq<TextDocumentContentChangeEvent>) -> bool {
    forall|i: int|
        0 <= i <= changes.len() ==> match #[trigger] edited_text(text, changes.take(i)) {
            Some(text) => fits(text),
            None => true,
        }
}

/// Applies a batch of changes to an open document, all of them or none.
pub open spec fn batch_applied(
    world: WorldModel,
    uri: UrlParts,
    changes: Seq<TextDocumentContentChangeEvent>,
) -> (WorldModel, bool) {
    match open_text(world, uri) {
        Some(text) => match edited_text(text, changes) {
            Some(text) => put_open(world, uri, text),
            None => (world, false),
        },
        None => (world, false),
    }
}

/// Whether a document belongs to a workspace folder, not only to a detached place.
pub open spec fn in_workspace(world: WorldModel, uri: UrlParts) -> bool {
    let detached = match lookup(world.client_to_vfs, uri.text) {
        Some(path) => has_prefix(path, "/main/__solcore_detached__/"@),
        None => false,
    };
    !detached && (folder_path(world, uri) is Some || main_path(uri) is Some)
}

/// The client address of a virtual address.
pub open spec fn client_uri(world: WorldModel, vfs_url: Seq<char>) -> Option<UrlParts> {
    match parsed_url(vfs_url) {
        Some(uri) => match lookup(world.vfs_to_client, uri.text) {
            Some(client) => Some(client),
            None => Some(uri),
        },
        None => None,
    }
}

/// Transport-independent world state.
pub struct WorldState {
    documents: Table<(Url, DocumentState)>,
    open_documents: Table<Url>,
    client_to_vfs: Table<String>,
    vfs_to_client: Table<Url>,
    workspace_roots: Vec<WorkspaceRoot>,
    workspace_namespaced: bool,
    next_virtual_document_id: u64,
    entry_uri: Option<Url>,
    changes: Vec<WorkspaceChange>,
}

impl View for WorldState {
    type V = WorldModel;

    closed spec fn view(&self) -> WorldModel {
        WorldModel {
            documents: self.documents@,
            open: self.open_documents@,
            client_to_vfs: self.client_to_vfs@,
            vfs_to_client: self.vfs_to_client@,
            roots: views(self.workspace_roots@),
            namespaced: self.workspace_namespaced,
            next_id: self.next_virtual_document_id,
            entry: parts_of(self.entry_uri),
            changes: views(self.changes@),
        }
    }
}

/// Whether the address of the virtual path of a document leads back to the document.
pub open spec fn leads_back(world: WorldModel, uri: UrlParts) -> bool {
    match known_path(world, uri) {
        Some(path) => vfs_url(path) is Some && client_uri(world, vfs_url(path)->0) == Some(uri),
        None => false,
    }
}

/// A world without documents.
pub open spec fn empty_world() -> WorldModel {
    WorldModel {
        documents: Seq::empty(),
        open: Seq::empty(),
        client_to_vfs: Seq::empty(),
        vfs_to_client: Seq::empty(),
        roots: Seq::empty(),
        namespaced: false,
        next_id: 0,
        entry: None,
        changes: Seq::empty(),
    }
}

/// A document whose place is decided anew.
struct MovedDocument {
    uri: Url,
    text: String,
    open: bool,
    detached: String,
}

impl View for MovedDocument {
    type V = MovedParts;

    closed spec fn view(&self) -> MovedParts {
        MovedParts {
            uri: self.uri@,
            text: self.text@,
            open: self.open,
            detached: self.detached@,
        }
    }
}

/// The views of files.
pub open spec fn file_views(files: Seq<(Url, String)>) -> Seq<(UrlParts, Seq<char>)> {
    Seq::new(files.len(), |i: int| (files[i].0@, files[i].1@))
}

/// The views of folders with their files.
pub open spec fn folder_views(folders: Seq<(Url, Vec<(Url, String)>)>) -> Seq<
    (UrlParts, Seq<(UrlParts, Seq<char>)>),
> {
    Seq::new(folders.len(), |i: int| (folders[i].0@, file_views(folders[i].1@)))
}

/// Whether the text of each file is short enough for byte offsets.
pub open spec fn files_fit(files: Seq<(UrlParts, Seq<char>)>) -> bool {
    forall|i: int| 0 <= i < files.len() ==> fits((#[trigger] files[i]).1)
}

pub open spec fn folders_fit(folders: Seq<(UrlParts, Seq<(UrlParts, Seq<char>)>)>) -> bool {
    forall|i: int| 0 <= i < folders.len() ==> files_fit((#[trigger] folders[i]).1)
}

/// Text that several parts make up.
fn concat3(a: &str, b: &str, c: &str) -> (text: String)
    ensures
        text@ == a@ + b@ + c@,
{
    let mut text = String::new();
    text.append(a);
    text.append(b);
    text.append(c);
    assert(text@ == a@ + b@ + c@);
    text
}

fn owning_root_index(roots: &Vec<WorkspaceRoot>, uri: &Url) -> (index: Option<usize>)
    ensures
        match index {
            Some(i) => i < roots@.len() && owning_root(views(roots@), uri@) == Some(i as int)
                && path_below(roots@[i as int]@.uri, uri@) is Some,
            None => owning_root(views(roots@), uri@) is None,
        },
{
    let mut best: Option<usize> = None;
    let mut k: usize = 0;
    assert(views(roots@).take(0) == Seq::<RootParts>::empty());
    while k < roots.len()
        invariant
            k <= roots@.len(),
            match best {
                Some(i) => i < k && owning_root(views(roots@).take(k as int), uri@) == Some(
                    i as int,
                ) && path_below(roots@[i as int]@.uri, uri@) is Some,
                None => owning_root(views(roots@).take(k as int), uri@) is None,
            },
        decreases roots@.len() - k,
    {
        let ghost shown = views(roots@);
        assert(shown.take(k + 1).drop_last() == shown.take(k as int));
        assert(shown.take(k + 1).last() == roots@[k as int]@);
        if workspace_relative_path(&roots[k].uri, uri).is_some() {
            let keep = match best {
                Some(i) => {
                    assert(shown.take(k + 1)[i as int] == roots@[i as int]@);
                    let left = workspace_root_path_len(&roots[i].uri);
                    let right = workspace_root_path_len(&roots[k].uri);
                    left > right || (left == right && text_less(
                        roots[i].identity.as_str(),
                        roots[k].identity.as_str(),
                    ))
                },
                None => false,
            };
            if !keep {
                best = Some(k);
            }
        }
        k += 1;
    }
    assert(views(roots@).take(k as int) == views(roots@));
    best
}

/// The folder name and the cleaned path of a file below the folder that it belongs to.
fn owned_location(roots: &Vec<WorkspaceRoot>, uri: &Url) -> (owned: Option<(String, String)>)
    ensures
        match owned {
            Some(owned) => owned_path(views(roots@), uri@) == Some((owned.0@, owned.1@)),
            None => owned_path(views(roots@), uri@) is None,
        },
{
    let i = match owning_root_index(roots, uri) {
        Some(i) => i,
        None => return None,
    };
    match workspace_relative_path(&roots[i].uri, uri) {
        Some(below) => match relative_url_path(below.as_str()) {
            Some(relative) => Some((roots[i].namespace.clone(), relative)),
            None => None,
        },
        None => None,
    }
}

fn is_below_any(roots: &Vec<WorkspaceRoot>, uri: &Url) -> (below: bool)
    ensures
        below == below_any(views(roots@), uri@),
{
    let mut i: usize = 0;
    while i < roots.len()
        invariant
            i <= roots@.len(),
            forall|j: int|
                0 <= j < i ==> path_below((#[trigger] views(roots@)[j]).uri, uri@) is None,
        decreases roots@.len() - i,
    {
        if workspace_relative_path(&roots[i].uri, uri).is_some() {
            assert(path_below(views(roots@)[i as int].uri, uri@) is Some);
            return true;
        }
        assert(views(roots@)[i as int] == roots@[i as int]@);
        i += 1;
    }
    false
}

/// Inserts a folder in the order of identities, unless it is there.
fn insert_root(roots: &mut Vec<WorkspaceRoot>, root: WorkspaceRoot)
    ensures
        views(final(roots)@) == with_root(views(old(roots)@), root@),
{
    let ghost shown = views(roots@);
    let mut at: usize = roots.len();
    assert(shown.take(at as int) == shown);
    assert(shown.skip(at as int) == Seq::<RootParts>::empty());
    while at > 0 && !text_less(roots[at - 1].identity.as_str(), root.identity.as_str())
        invariant
            at <= roots@.len(),
            shown == views(roots@),
            with_root(shown, root@) == with_root(shown.take(at as int), root@) + shown.skip(
                at as int,
            ),
        decreases at,
    {
        let ghost front = shown.take(at as int);
        assert(front.last() == roots@[at - 1]@);
        assert(front.drop_last() == shown.take(at - 1));
        if str_eq(roots[at - 1].identity.as_str(), root.identity.as_str()) {
            assert(with_root(front, root@) == front);
            assert(front + shown.skip(at as int) == shown);
            return;
        }
        at -= 1;
        assert(with_root(front, root@) + shown.skip(at + 1) == with_root(
            shown.take(at as int),
            root@,
        ) + shown.skip(at as int));
    }
    let ghost front = shown.take(at as int);
    assert(with_root(front, root@) == front.push(root@)) by {
        if at > 0 {
            assert(front.last() == roots@[at - 1]@);
        }
    }
    roots.insert(at, root);
    assert(views(roots@) == front.push(root@) + shown.skip(at as int));
}

/// Inserts an address in the order of texts.
fn insert_url(urls: &mut Vec<Url>, url: Url)
    ensures
        views(final(urls)@) == with_url(views(old(urls)@), url@),
{
    let ghost shown = views(urls@);
    let mut at: usize = urls.len();
    assert(shown.take(at as int) == shown);
    assert(shown.skip(at as int) == Seq::<UrlParts>::empty());
    while at > 0 && text_less(url.as_str(), urls[at - 1].as_str())
        invariant
            at <= urls@.len(),
            shown == views(urls@),
            with_url(shown, url@) == with_url(shown.take(at as int), url@) + shown.skip(at as int),
        decreases at,
    {
        let ghost front = shown.take(at as int);
        assert(front.last() == urls@[at - 1]@);
        assert(front.drop_last() == shown.take(at - 1));
        at -= 1;
        assert(with_url(front, url@) + shown.skip(at + 1) == with_url(shown.take(at as int), url@)
            + shown.skip(at as int));
    }
    let ghost front = shown.take(at as int);
    assert(with_url(front, url@) == front.push(url@)) by {
        if at > 0 {
            assert(front.last() == urls@[at - 1]@);
        }
    }
    urls.insert(at, url);
    assert(views(urls@) == front.push(url@) + shown.skip(at as int));
}

impl WorldState {
    /// Creates an empty world.
    pub fn new() -> (world: WorldState)
        ensures
            world@ == empty_world(),
            well_formed(world@),
    {
        proof {
            law_empty_world();
        }
        let world = WorldState {
            documents: Table::new(),
            open_documents: Table::new(),
            client_to_vfs: Table::new(),
            vfs_to_client: Table::new(),
            workspace_roots: Vec::new(),
            workspace_namespaced: false,
            next_virtual_document_id: 0,
            entry_uri: None,
            changes: Vec::new(),
        };
        assert(world@ =~= empty_world());
        world
    }

    /// Takes the changes that the compiler has not been told yet.
    pub fn take_changes(&mut self) -> (changes: Vec<WorkspaceChange>)
        ensures
            views(changes@) == old(self)@.changes,
            final(self)@ == (WorldModel { changes: Seq::empty(), ..old(self)@ }),
            keeps_form(old(self)@, final(self)@),
    {
        let ghost before = self@;
        let mut changes: Vec<WorkspaceChange> = Vec::new();
        changes.append(&mut self.changes);
        assert(views(changes@) == before.changes);
        assert(self@ =~= (WorldModel { changes: Seq::empty(), ..before }));
        changes
    }

    fn push_change(&mut self, change: WorkspaceChange)
        ensures
            final(self)@ == with_change(old(self)@, change@),
    {
        let ghost before = self@;
        self.changes.push(change);
        assert(self@ =~= with_change(before, change@));
    }

    /// Returns whether a client document is currently open.
    pub fn is_document_open(&self, uri: &Url) -> (open: bool)
        ensures
            open == is_open(self@, uri@),
    {
        self.open_documents.contains(uri.as_str())
    }

    /// Returns the current text for an open document.
    pub fn document_text(&self, uri: &Url) -> (text: Option<&str>)
        ensures
            match text {
                Some(text) => open_text(self@, uri@) == Some(text@) && fits(text@),
                None => open_text(self@, uri@) is None,
            },
    {
        if !self.open_documents.contains(uri.as_str()) {
            return None;
        }
        match self.documents.get(uri.as_str()) {
            Some(document) => Some(document.1.text()),
            None => None,
        }
    }

    /// Returns whether real client files have a configured workspace folder.
    pub fn has_workspace_root(&self) -> (has: bool)
        ensures
            has == (self@.roots.len() > 0),
    {
        self.workspace_roots.len() > 0
    }

    /// Returns the number of configured client workspace folders.
    pub fn workspace_root_count(&self) -> (count: usize)
        ensures
            count == self@.roots.len(),
    {
        self.workspace_roots.len()
    }

    /// Returns the current line index for any known workspace document.
    pub fn line_index(&self, uri: &Url) -> (index: Option<&LineIndexExt>)
        ensures
            match index {
                Some(index) => lookup(self@.documents, uri@.text) matches Some(document)
                    && document.1 == index@,
                None => lookup(self@.documents, uri@.text) is None,
            },
    {
        match self.documents.get(uri.as_str()) {
            Some(document) => Some(document.1.line_index()),
            None => None,
        }
    }

    fn workspace_relative_vfs_path(&self, uri: &Url) -> (path: Option<String>)
        ensures
            text_of(path) == folder_path(self@, uri@),
    {
        let (namespace, relative) = match owned_location(&self.workspace_roots, uri) {
            Some(owned) => owned,
            None => return None,
        };
        if self.workspace_roots.len() == 1 && !self.workspace_namespaced {
            Some("/main/".to_owned().concat(relative.as_str()))
        } else {
            let folder = concat3("/main/__solcore_workspace__/", namespace.as_str(), "/");
            Some(folder.concat(relative.as_str()))
        }
    }

    /// Maps a client document to its virtual path.
    pub fn vfs_path_for_uri(&self, uri: &Url) -> (path: Option<String>)
        ensures
            text_of(path) == known_path(self@, uri@),
    {
        match self.client_to_vfs.get(uri.as_str()) {
            Some(path) => return Some(path.clone()),
            None => {},
        }
        match self.workspace_relative_vfs_path(uri) {
            Some(path) => Some(path),
            None => uri_to_vfs_path(uri),
        }
    }

    /// Maps the address of a virtual source file back to the address that the client knows.
    pub fn client_uri_for_vfs_url(&self, vfs_url: &str) -> (uri: Option<Url>)
        ensures
            parts_of(uri) == client_uri(self@, vfs_url@),
    {
        let uri = match Url::parse(vfs_url) {
            Some(uri) => uri,
            None => return None,
        };
        match self.vfs_to_client.get(uri.as_str()) {
            Some(client) => Some(client.clone()),
            None => Some(uri),
        }
    }

    /// Returns whether a document currently belongs to a configured workspace folder rather
    /// than merely being retained as an open detached document.
    pub fn is_uri_in_workspace(&self, uri: &Url) -> (inside: bool)
        ensures
            inside == in_workspace(self@, uri@),
    {
        match self.client_to_vfs.get(uri.as_str()) {
            Some(path) => {
                if str_starts_with(path.as_str(), "/main/__solcore_detached__/") {
                    return false;
                }
            },
            None => {},
        }
        self.workspace_relative_vfs_path(uri).is_some() || uri_to_vfs_path(uri).is_some()
    }

    fn infer_root(&mut self, uri: &Url)
        ensures
            final(self)@ == with_inferred_root(old(self)@, uri@),
    {
        let ghost before = self@;
        if self.workspace_roots.len() == 0 && str_eq(uri.scheme(), "file") && uri_to_vfs_path(
            uri,
        ).is_none() {
            if let Some(folder) = uri.join(".") {
                if let Some(root) = WorkspaceRoot::new(&folder) {
                    self.workspace_roots.push(root);
                    assert(self@ =~= (WorldModel { roots: before.roots.push(root@), ..before }));
                }
            }
        }
    }

    fn virtual_document_path(&mut self, uri: &Url) -> (path: Option<String>)
        ensures
            (final(self)@, text_of(path)) == with_virtual_path(old(self)@, uri@),
    {
        if str_eq(uri.scheme(), "file") || self.next_virtual_document_id == u64::MAX {
            return None;
        }
        let ghost before = self@;
        let id: u64 = self.next_virtual_document_id;
        self.next_virtual_document_id = id + 1;
        assert(self@ =~= (WorldModel { next_id: (id + 1) as u64, ..before }));
        let stem = concat3("/main/__virtual__/", decimal_text(id).as_str(), ".");
        Some(stem.concat(path_extension(uri.path()).as_str()))
    }

    fn map_uri(&mut self, uri: &Url, path: &str) -> (keyed: bool)
        ensures
            final(self)@ == with_mapping(old(self)@, uri@, path@),
            keyed == (vfs_key(path@) is Some),
            keyed == short_path(path@),
    {
        let ghost before = self@;
        self.client_to_vfs.put(uri.as_str(), path.to_owned());
        match vfs_key_for_path(path) {
            Some(key) => {
                self.vfs_to_client.put(key.as_str(), uri.clone());
                assert(self@ =~= with_mapping(before, uri@, path@));
                true
            },
            None => {
                assert(self@ =~= with_mapping(before, uri@, path@));
                false
            },
        }
    }

    fn unmap_uri(&mut self, uri: &Url) -> (path: Option<String>)
        ensures
            text_of(path) == lookup(old(self)@.client_to_vfs, uri@.text),
            match path {
                Some(path) => final(self)@ == without_mapping(old(self)@, uri@, path@),
                None => final(self)@ == old(self)@,
            },
    {
        let ghost before = self@;
        match self.client_to_vfs.remove(uri.as_str()) {
            Some(path) => {
                if let Some(key) = vfs_key_for_path(path.as_str()) {
                    self.vfs_to_client.remove(key.as_str());
                }
                assert(self@ =~= without_mapping(before, uri@, path@));
                Some(path)
            },
            None => {
                assert(self@ =~= before);
                None
            },
        }
    }

    fn ensure_uri_mapping(&mut self, uri: &Url) -> (path: Option<String>)
        ensures
            (final(self)@, text_of(path)) == mapped(old(self)@, uri@),
            path is Some && lookup(old(self)@.client_to_vfs, uri@.text) is None ==> vfs_key(
                path->0@,
            ) is Some,
            path is Some <==> is_placeable(old(self)@, uri@),
    {
        match self.client_to_vfs.get(uri.as_str()) {
            Some(path) => return Some(path.clone()),
            None => {},
        }
        self.infer_root(uri);
        let path = match self.workspace_relative_vfs_path(uri) {
            Some(path) => path,
            None => match uri_to_vfs_path(uri) {
                Some(path) => path,
                None => match self.virtual_document_path(uri) {
                    Some(path) => path,
                    None => return None,
                },
            },
        };
        if self.map_uri(uri, path.as_str()) {
            Some(path)
        } else {
            None
        }
    }

    fn put_contents(&mut self, uri: &Url, path: &str, text: String)
        requires
            fits(text@),
        ensures
            final(self)@ == with_contents(old(self)@, uri@, path@, text@),
    {
        let ghost before = self@;
        self.push_change(
            WorkspaceChange::SetFile { path: path.to_owned(), contents: text.clone() },
        );
        self.documents.put(uri.as_str(), (uri.clone(), DocumentState::new(text)));
        assert(self@ =~= with_contents(before, uri@, path@, text@));
    }

    /// Adds or refreshes a closed workspace file, for example after a watched file-system
    /// event.
    pub fn set_workspace_document(&mut self, uri: Url, text: String) -> (done: bool)
        requires
            fits(text@),
        ensures
            (final(self)@, done) == set_document(old(self)@, uri@, text@),
            done <==> is_placeable(old(self)@, uri@),
            keeps_form(old(self)@, final(self)@),
    {
        proof {
            if well_formed(self@) {
                law_set_document(self@, uri@, text@);
            }
        }
        match self.ensure_uri_mapping(&uri) {
            Some(path) => {
                self.put_contents(&uri, path.as_str(), text);
                true
            },
            None => false,
        }
    }

    /// Removes a closed workspace file from the analysis graph.
    pub fn remove_workspace_document(&mut self, uri: &Url) -> (done: bool)
        ensures
            (final(self)@, done) == removed(old(self)@, uri@),
            keeps_form(old(self)@, final(self)@),
    {
        proof {
            if well_formed(self@) {
                law_removed(self@, uri@);
            }
        }
        if self.open_documents.contains(uri.as_str()) {
            return false;
        }
        let path = match self.unmap_uri(uri) {
            Some(path) => path,
            None => return false,
        };
        let ghost unmapped = self@;
        self.documents.remove(uri.as_str());
        assert(self@ =~= (WorldModel {
            documents: without_entry(unmapped.documents, uri@.text),
            ..unmapped
        }));
        self.push_change(WorkspaceChange::RemoveFile { path });
        true
    }

    /// Opens a full-text document under `/main`.
    ///
    /// Returns `false` for a document that has no place in the workspace.
    pub fn open_document(&mut self, uri: Url, text: String) -> (done: bool)
        requires
            fits(text@),
        ensures
            (final(self)@, done) == put_open(old(self)@, uri@, text@),
            done <==> is_placeable(old(self)@, uri@),
            keeps_form(old(self)@, final(self)@),
            done && lookup(old(self)@.client_to_vfs, uri@.text) is None ==> leads_back(
                final(self)@,
                uri@,
            ),
    {
        self.change_document(&uri, text)
    }

    /// Applies a full-text document change under `/main`.
    ///
    /// Returns `false` for a document that has no place in the workspace.
    pub fn change_document(&mut self, uri: &Url, new_text: String) -> (done: bool)
        requires
            fits(new_text@),
        ensures
            (final(self)@, done) == put_open(old(self)@, uri@, new_text@),
            done <==> is_placeable(old(self)@, uri@),
            keeps_form(old(self)@, final(self)@),
            done && lookup(old(self)@.client_to_vfs, uri@.text) is None ==> leads_back(
                final(self)@,
                uri@,
            ),
    {
        proof {
            if well_formed(self@) {
                law_put_open(self@, uri@, new_text@, uri@);
            }
        }
        let ghost before = self@;
        let path = match self.ensure_uri_mapping(uri) {
            Some(path) => path,
            None => return false,
        };
        proof {
            if lookup(before.client_to_vfs, uri@.text) is None {
                law_mapping_round_trip(before, uri@);
            }
        }
        self.put_contents(uri, path.as_str(), new_text);
        let ghost set = self@;
        if self.entry_uri.is_none() {
            self.push_change(WorkspaceChange::SetEntry { path: path.clone() });
            self.entry_uri = Some(uri.clone());
            assert(self@ =~= (WorldModel {
                entry: Some(uri@),
                ..with_change(set, ChangeParts::SetEntry { path: path@ })
            }));
        }
        let ghost entered = self@;
        self.open_documents.put(uri.as_str(), uri.clone());
        assert(self@ =~= (WorldModel {
            open: with_entry(entered.open, uri@.text, uri@),
            ..entered
        }));
        true
    }

    /// Applies a content-change batch in protocol order.
    ///
    /// Full-document and ranged changes may be mixed. The update is atomic: an invalid range
    /// leaves the current document unchanged.
    pub fn apply_document_changes(
        &mut self,
        uri: &Url,
        changes: Vec<TextDocumentContentChangeEvent>,
    ) -> (done: bool)
        requires
            open_text(old(self)@, uri@) is Some ==> edits_fit(
                open_text(old(self)@, uri@)->0,
                changes@,
            ),
        ensures
            (final(self)@, done) == batch_applied(old(self)@, uri@, changes@),
            keeps_form(old(self)@, final(self)@),
    {
        proof {
            if well_formed(self@) {
                law_batch_atomic(self@, uri@, changes@);
            }
        }
        let mut text = match self.document_text(uri) {
            Some(text) => text.to_owned(),
            None => return false,
        };
        let ghost first = text@;
        let mut i: usize = 0;
        assert(changes@.take(0) == Seq::<TextDocumentContentChangeEvent>::empty());
        while i < changes.len()
            invariant
                i <= changes@.len(),
                edits_fit(first, changes@),
                edited_text(first, changes@.take(i as int)) == Some(text@),
                self@ == old(self)@,
                open_text(self@, uri@) == Some(first),
            decreases changes@.len() - i,
        {
            assert(changes@.take(i + 1).drop_last() == changes@.take(i as int));
            match change_text(text.as_str(), &changes[i]) {
                Some(next) => {
                    text = next;
                },
                None => {
                    proof {
                        lemma_edits_stop(first, changes@, i + 1);
                    }
                    return false;
                },
            }
            i += 1;
        }
        assert(changes@.take(i as int) == changes@);
        self.change_document(uri, text)
    }

    /// Closes a document.
    ///
    /// Its text and line index are kept so imports and navigation remain stable. Native
    /// transports may refresh the retained text from disk.
    pub fn close_document(&mut self, uri: &Url)
        ensures
            final(self)@ == closed_document(old(self)@, uri@),
            keeps_form(old(self)@, final(self)@),
    {
        proof {
            if well_formed(self@) {
                law_closed_document(self@, uri@);
            }
        }
        let ghost before = self@;
        self.open_documents.remove(uri.as_str());
        let ghost shut = self@;
        assert(shut =~= (WorldModel { open: without_entry(before.open, uri@.text), ..before }));
        let is_entry = match &self.entry_uri {
            Some(entry) => entry == uri,
            None => false,
        };
        if is_entry {
            self.entry_uri = self.first_open(false);
            assert(self@ =~= (WorldModel {
                entry: least_open(shut.open, |u: UrlParts| true),
                ..shut
            }));
            self.tell_entry();
        }
    }

    /// The first open document, or the first one that has a virtual path.
    fn first_open(&self, mapped_only: bool) -> (first: Option<Url>)
        ensures
            !mapped_only ==> parts_of(first) == least_open(self@.open, |u: UrlParts| true),
            mapped_only ==> parts_of(first) == least_open(
                self@.open,
                |u: UrlParts| known_path(self@, u) is Some,
            ),
    {
        let ghost test = if mapped_only {
            |u: UrlParts| known_path(self@, u) is Some
        } else {
            |u: UrlParts| true
        };
        let mut first: Option<Url> = None;
        let mut i: usize = 0;
        assert(self@.open.take(0) == Seq::<(Seq<char>, UrlParts)>::empty());
        while i < self.open_documents.len()
            invariant
                i <= self@.open.len(),
                self@.open == self.open_documents@,
                parts_of(first) == least_open(self@.open.take(i as int), test),
                mapped_only ==> test == |u: UrlParts| known_path(self@, u) is Some,
                !mapped_only ==> test == |u: UrlParts| true,
            decreases self@.open.len() - i,
        {
            assert(self@.open.take(i + 1).drop_last() == self@.open.take(i as int));
            let uri = self.open_documents.value_at(i);
            if !mapped_only || self.vfs_path_for_uri(uri).is_some() {
                assert(test(uri@));
                let better = match &first {
                    Some(least) => text_less(uri.as_str(), least.as_str()),
                    None => true,
                };
                if better {
                    first = Some(uri.clone());
                }
            } else {
                assert(!test(uri@));
            }
            i += 1;
        }
        assert(self@.open.take(i as int) == self@.open);
        first
    }

    fn tell_entry(&mut self)
        ensures
            final(self)@ == announce_entry(old(self)@),
    {
        let path = match &self.entry_uri {
            Some(uri) => self.vfs_path_for_uri(uri),
            None => None,
        };
        if let Some(path) = path {
            self.push_change(WorkspaceChange::SetEntry { path });
        }
    }

    fn refresh_entry(&mut self)
        ensures
            final(self)@ == refreshed_entry(old(self)@),
    {
        let ghost before = self@;
        let keep = match &self.entry_uri {
            Some(uri) => self.open_documents.contains(uri.as_str()) && self.vfs_path_for_uri(
                uri,
            ).is_some(),
            None => false,
        };
        if !keep {
            self.entry_uri = self.first_open(true);
            assert(self@ =~= (WorldModel {
                entry: least_open(before.open, |u: UrlParts| known_path(before, u) is Some),
                ..before
            }));
        }
        self.tell_entry();
    }
}

/// Applies one change to a text.
pub fn change_text(text: &str, change: &TextDocumentContentChangeEvent) -> (changed: Option<String>)
    requires
        fits(text@),
    ensures
        text_of(changed) == changed_text(text@, *change),
{
    let range = match change.range {
        Some(range) => range,
        None => return Some(change.text.clone()),
    };
    let line_index = LineIndexExt::new(text);
    let start = match line_index.position_to_byte(range.start) {
        Some(start) => start,
        None => return None,
    };
    let end = match line_index.position_to_byte(range.end) {
        Some(end) => end,
        None => return None,
    };
    if start > end {
        return None;
    }
    proof {
        law_offset_round_trip(text@, range.start);
        law_offset_round_trip(text@, range.end);
        lemma_middle_fits(text@, start as int, end as int);
    }
    let (head, replaced, tail) = cut(text, start, end);
    if let Some(length) = change.range_length {
        if count_utf16(replaced) != length as u64 {
            return None;
        }
    }
    Some(concat3(head, change.text.as_str(), tail))
}

proof fn lemma_middle_fits(text: Seq<char>, start: int, end: int)
    requires
        fits(text),
        0 <= start <= end <= utf8(text).len(),
        is_char_boundary(utf8(text), start),
        is_char_boundary(utf8(text), end),
    ensures
        fits(text.subrange(char_index(text, start), char_index(text, end))),
{
    let i = char_index(text, start);
    let j = char_index(text, end);
    lemma_cut(text, start);
    lemma_cut(text, end);
    lemma_char_index_order(text, start, end);
    assert(text.skip(i) == text.subrange(i, j) + text.skip(j));
    lemma_utf8_concat(text.subrange(i, j), text.skip(j));
    assert(utf8(text.skip(i)).len() == utf8(text).len() - start);
    assert(utf8(text.skip(i)) == utf8(text.subrange(i, j)) + utf8(text.skip(j)));
}

/// A change that does not apply stops the whole batch.
proof fn lemma_edits_stop(
    text: Seq<char>,
    changes: Seq<TextDocumentContentChangeEvent>,
    failed: int,
)
    requires
        0 <= failed <= changes.len(),
        edited_text(text, changes.take(failed)) is None,
    ensures
        edited_text(text, changes) is None,
    decreases changes.len(),
{
    if failed == changes.len() {
        assert(changes.take(failed) == changes);
    } else {
        assert(changes.drop_last().take(failed) == changes.take(failed));
        lemma_edits_stop(text, changes.drop_last(), failed);
    }
}

impl WorldState {
    fn detached_vfs_path(&self, uri: &Url) -> (path: String)
        ensures
            path@ == detached_path(self@, uri@),
    {
        let (namespace, relative) = match owned_location(&self.workspace_roots, uri) {
            Some(owned) => owned,
            None => {
                let identity = match workspace_root_identity(uri) {
                    Some(identity) => identity,
                    None => uri.as_str().to_owned(),
                };
                let name = match path_file_name(uri.path()) {
                    Some(name) => name,
                    None => "document.solc".to_owned(),
                };
                (hex_encode(identity.as_str().as_bytes()), name)
            },
        };
        let folder = concat3("/main/__solcore_detached__/", namespace.as_str(), "/");
        folder.concat(relative.as_str())
    }

    fn retained_detached_path(&self, uri: &Url) -> (path: String)
        ensures
            path@ == kept_detached_path(self@, uri@),
    {
        match self.client_to_vfs.get(uri.as_str()) {
            Some(path) => {
                if str_starts_with(path.as_str(), "/main/__solcore_detached__/") {
                    return path.clone();
                }
            },
            None => {},
        }
        self.detached_vfs_path(uri)
    }

    fn detaches_open_document(&self, roots: &Vec<WorkspaceRoot>) -> (detaches: bool)
        ensures
            detaches == detaches_open(self@, views(roots@)),
    {
        let mut i: usize = 0;
        while i < self.open_documents.len()
            invariant
                i <= self@.open.len(),
                self@.open == self.open_documents@,
                forall|j: int|
                    0 <= j < i ==> !is_detached_by(
                        self@,
                        views(roots@),
                        (#[trigger] self@.open[j]).1,
                    ),
            decreases self@.open.len() - i,
        {
            let uri = self.open_documents.value_at(i);
            if str_eq(uri.scheme(), "file") && (uri_to_vfs_path(uri).is_none() || is_below_any(
                &self.workspace_roots,
                uri,
            )) && !is_below_any(roots, uri) {
                assert(is_detached_by(self@, views(roots@), self@.open[i as int].1));
                return true;
            }
            i += 1;
        }
        false
    }

    fn collect_moved(&self, roots: &Vec<WorkspaceRoot>) -> (moved: Vec<MovedDocument>)
        ensures
            views(moved@) == moved_documents(self@, views(roots@), self@.documents),
    {
        let mut moved: Vec<MovedDocument> = Vec::new();
        let mut i: usize = 0;
        let ghost documents = self@.documents;
        assert(documents.take(0) == Seq::<(Seq<char>, (UrlParts, Seq<char>))>::empty());
        assert(views(moved@) == Seq::<MovedParts>::empty());
        while i < self.documents.len()
            invariant
                i <= documents.len(),
                documents == self@.documents,
                documents == self.documents@,
                views(moved@) == moved_documents(self@, views(roots@), documents.take(i as int)),
            decreases documents.len() - i,
        {
            assert(documents.take(i + 1).drop_last() == documents.take(i as int));
            let document = self.documents.value_at(i);
            let uri = &document.0;
            let ghost earlier = views(moved@);
            if str_eq(uri.scheme(), "file") && (uri_to_vfs_path(uri).is_none() || is_below_any(
                &self.workspace_roots,
                uri,
            ) || is_below_any(roots, uri)) {
                let next = MovedDocument {
                    uri: uri.clone(),
                    text: document.1.text().to_owned(),
                    open: self.open_documents.contains(uri.as_str()),
                    detached: self.retained_detached_path(uri),
                };
                moved.push(next);
                assert(views(moved@) == earlier.push(next@));
            }
            i += 1;
        }
        assert(documents.take(i as int) == documents);
        moved
    }

    fn lift(&mut self, moved: &Vec<MovedDocument>)
        ensures
            final(self)@ == lifted(old(self)@, views(moved@)),
    {
        let ghost first = self@;
        let ghost all = views(moved@);
        let mut i: usize = 0;
        assert(all.take(0) == Seq::<MovedParts>::empty());
        while i < moved.len()
            invariant
                i <= moved@.len(),
                all == views(moved@),
                self@ == lifted(first, all.take(i as int)),
            decreases moved@.len() - i,
        {
            assert(all.take(i + 1).drop_last() == all.take(i as int));
            assert(all.take(i + 1).last() == moved@[i as int]@);
            if let Some(path) = self.unmap_uri(&moved[i].uri) {
                self.push_change(WorkspaceChange::RemoveFile { path });
            }
            i += 1;
        }
        assert(all.take(i as int) == all);
    }

    fn place(&mut self, moved: &Vec<MovedDocument>)
        ensures
            final(self)@ == placed(old(self)@, views(moved@)),
    {
        let ghost first = self@;
        let ghost all = views(moved@);
        let mut i: usize = 0;
        assert(all.take(0) == Seq::<MovedParts>::empty());
        while i < moved.len()
            invariant
                i <= moved@.len(),
                all == views(moved@),
                self@ == placed(first, all.take(i as int)),
            decreases moved@.len() - i,
        {
            assert(all.take(i + 1).drop_last() == all.take(i as int));
            assert(all.take(i + 1).last() == moved@[i as int]@);
            let document = &moved[i];
            let ghost before = self@;
            let path = match self.workspace_relative_vfs_path(&document.uri) {
                Some(path) => Some(path),
                None => if document.open {
                    Some(document.detached.clone())
                } else {
                    None
                },
            };
            assert(text_of(path) == new_place(before, document@));
            match path {
                Some(path) => {
                    self.map_uri(&document.uri, path.as_str());
                    self.push_change(
                        WorkspaceChange::SetFile { path, contents: document.text.clone() },
                    );
                },
                None => {
                    self.documents.remove(document.uri.as_str());
                    self.open_documents.remove(document.uri.as_str());
                    assert(self@ =~= (WorldModel {
                        documents: without_entry(before.documents, document@.uri.text),
                        open: without_entry(before.open, document@.uri.text),
                        ..before
                    }));
                },
            }
            i += 1;
        }
        assert(all.take(i as int) == all);
    }

    fn has_roots(&self, roots: &Vec<WorkspaceRoot>) -> (same: bool)
        ensures
            same == (identities(self@.roots) == identities(views(roots@))),
    {
        let ghost mine = identities(self@.roots);
        let ghost theirs = identities(views(roots@));
        if self.workspace_roots.len() != roots.len() {
            assert(mine.len() != theirs.len());
            return false;
        }
        let mut i: usize = 0;
        while i < roots.len()
            invariant
                i <= roots@.len(),
                mine == identities(self@.roots),
                theirs == identities(views(roots@)),
                roots@.len() == self.workspace_roots@.len(),
                self@.roots == views(self.workspace_roots@),
                forall|j: int| 0 <= j < i ==> mine[j] == theirs[j],
            decreases roots@.len() - i,
        {
            if !str_eq(self.workspace_roots[i].identity.as_str(), roots[i].identity.as_str()) {
                assert(mine[i as int] != theirs[i as int]);
                return false;
            }
            i += 1;
        }
        assert(mine == theirs);
        true
    }

    /// Replaces the workspace folders and moves the documents whose places depend on them.
    pub fn replace_workspace_roots(&mut self, uris: &Vec<Url>)
        ensures
            final(self)@ == replaced_roots(old(self)@, views(uris@)),
            final(self)@.roots.len() == identity_set(views(uris@)).len(),
            keeps_form(old(self)@, final(self)@),
    {
        proof {
            law_roots_settle(self@, views(uris@), views(uris@));
            if well_formed(self@) {
                law_replaced_roots(self@, views(uris@), arbitrary());
            }
        }
        let ghost before = self@;
        let mut roots: Vec<WorkspaceRoot> = Vec::new();
        let ghost all = views(uris@);
        let mut i: usize = 0;
        assert(all.take(0) == Seq::<UrlParts>::empty());
        assert(views(roots@) == Seq::<RootParts>::empty());
        while i < uris.len()
            invariant
                i <= uris@.len(),
                all == views(uris@),
                views(roots@) == roots_at(all.take(i as int)),
            decreases uris@.len() - i,
        {
            assert(all.take(i + 1).drop_last() == all.take(i as int));
            assert(all.take(i + 1).last() == uris@[i as int]@);
            if let Some(root) = WorkspaceRoot::new(&uris[i]) {
                insert_root(&mut roots, root);
            }
            i += 1;
        }
        assert(all.take(i as int) == all);
        if self.has_roots(&roots) {
            return;
        }
        let detaches = self.detaches_open_document(&roots);
        self.workspace_namespaced = self.workspace_namespaced || roots.len() > 1 || (roots.len()
            > 0 && detaches);
        let ghost shown = views(roots@);
        let ghost named = WorldModel {
            namespaced: before.namespaced || shown.len() > 1 || (shown.len() > 0 && detaches_open(
                before,
                shown,
            )),
            ..before
        };
        assert(self@ =~= named);
        let moved = self.collect_moved(&roots);
        self.lift(&moved);
        let ghost cleared = self@;
        self.workspace_roots = roots;
        assert(self@ =~= (WorldModel { roots: shown, ..cleared }));
        self.place(&moved);
        self.refresh_entry();
    }

    fn load_documents(&mut self, files: &Vec<(Url, String)>) -> (count: usize)
        requires
            files_fit(file_views(files@)),
        ensures
            (final(self)@, count as nat) == loaded(old(self)@, file_views(files@)),
            keeps_form(old(self)@, final(self)@),
    {
        proof {
            if well_formed(self@) {
                law_loaded(self@, file_views(files@), arbitrary());
            }
        }
        let ghost first = self@;
        let ghost all = file_views(files@);
        let mut count: usize = 0;
        let mut i: usize = 0;
        assert(all.take(0) == Seq::<(UrlParts, Seq<char>)>::empty());
        while i < files.len()
            invariant
                i <= files@.len(),
                count <= i,
                all == file_views(files@),
                files_fit(all),
                (self@, count as nat) == loaded(first, all.take(i as int)),
            decreases files@.len() - i,
        {
            assert(all.take(i + 1).drop_last() == all.take(i as int));
            assert(all.take(i + 1).last() == all[i as int]);
            assert(all[i as int] == (files@[i as int].0@, files@[i as int].1@));
            let uri = &files[i].0;
            if !names_earlier(files, i) && !self.open_documents.contains(uri.as_str()) {
                if self.set_workspace_document(uri.clone(), files[i].1.clone()) {
                    count += 1;
                }
            }
            i += 1;
        }
        assert(all.take(i as int) == all);
        count
    }

    /// Mounts all known files below a client workspace folder.
    ///
    /// Client files are mapped to stable `/main/<relative-path>` virtual paths. The files remain
    /// available for imports and cross-file navigation even when they are not open in the
    /// editor.
    pub fn load_workspace_documents(&mut self, root: Url, files: Vec<(Url, String)>) -> (
        count: usize)
        requires
            files_fit(file_views(files@)),
        ensures
            (final(self)@, count as nat) == loaded(
                replaced_roots(old(self)@, seq![root@]),
                file_views(files@),
            ),
            keeps_form(old(self)@, final(self)@),
    {
        let mut uris: Vec<Url> = Vec::new();
        uris.push(root);
        assert(views(uris@) == seq![root@]);
        self.replace_workspace_roots(&uris);
        self.load_documents(&files)
    }

    /// Mounts all files from every client workspace folder.
    ///
    /// A single folder keeps the `/main/<relative-path>` layout. With multiple folders, each
    /// folder receives a stable namespace below `/main/__solcore_workspace__/`, so equal relative
    /// paths never overwrite one another while relative imports stay inside their originating
    /// folder.
    pub fn load_workspace_roots(&mut self, roots: Vec<(Url, Vec<(Url, String)>)>) -> (count: usize)
        requires
            folders_fit(folder_views(roots@)),
        ensures
            (final(self)@, count as nat) == loaded(
                replaced_roots(old(self)@, folder_uris(folder_views(roots@))),
                all_files(folder_views(roots@)),
            ),
            keeps_form(old(self)@, final(self)@),
    {
        let mut uris: Vec<Url> = Vec::new();
        let mut files: Vec<(Url, String)> = Vec::new();
        collect_folders(&roots, &mut uris, &mut files);
        assert(Seq::<UrlParts>::empty() + folder_uris(folder_views(roots@)) == folder_uris(
            folder_views(roots@),
        ));
        self.replace_workspace_roots(&uris);
        self.load_documents(&files)
    }

    /// Applies a dynamic change of the workspace folders.
    ///
    /// Closed documents below removed folders are discarded. Open documents are retained under a
    /// collision-free detached namespace until they close or their folder is added again. The
    /// result is the number of loaded files and the discarded documents.
    pub fn update_workspace_roots(
        &mut self,
        removed: Vec<Url>,
        added: Vec<(Url, Vec<(Url, String)>)>,
    ) -> (outcome: (usize, Vec<Url>))
        requires
            folders_fit(folder_views(added@)),
        ensures
            ({
                let replaced = replaced_roots(
                    old(self)@,
                    remaining_roots(old(self)@.roots, views(removed@)) + folder_uris(
                        folder_views(added@),
                    ),
                );
                &&& (final(self)@, outcome.0 as nat) == loaded(
                    replaced,
                    all_files(folder_views(added@)),
                )
                &&& views(outcome.1@) == sorted_urls(
                    document_urls(old(self)@),
                    |u: UrlParts| lookup(final(self)@.documents, u.text) is None,
                )
            }),
            keeps_form(old(self)@, final(self)@),
    {
        let known = self.document_uris();
        let mut uris = self.roots_without(&removed);
        let mut files: Vec<(Url, String)> = Vec::new();
        collect_folders(&added, &mut uris, &mut files);
        self.replace_workspace_roots(&uris);
        let count = self.load_documents(&files);
        let ghost test = |u: UrlParts| lookup(self@.documents, u.text) is None;
        let ghost all = views(known@);
        let mut discarded: Vec<Url> = Vec::new();
        let mut i: usize = 0;
        assert(all.take(0) == Seq::<UrlParts>::empty());
        assert(views(discarded@) == Seq::<UrlParts>::empty());
        while i < known.len()
            invariant
                i <= known@.len(),
                all == views(known@),
                self@.documents == self.documents@,
                test == |u: UrlParts| lookup(self@.documents, u.text) is None,
                views(discarded@) == sorted_urls(all.take(i as int), test),
            decreases known@.len() - i,
        {
            assert(all.take(i + 1).drop_last() == all.take(i as int));
            assert(all.take(i + 1).last() == known@[i as int]@);
            if !self.documents.contains(known[i].as_str()) {
                insert_url(&mut discarded, known[i].clone());
            }
            i += 1;
        }
        assert(all.take(i as int) == all);
        (count, discarded)
    }

    fn document_uris(&self) -> (uris: Vec<Url>)
        ensures
            views(uris@) == document_urls(self@),
    {
        let mut uris: Vec<Url> = Vec::new();
        let mut i: usize = 0;
        while i < self.documents.len()
            invariant
                i <= self@.documents.len(),
                self@.documents == self.documents@,
                uris@.len() == i,
                forall|j: int| 0 <= j < i ==> (#[trigger] uris@[j])@ == document_urls(self@)[j],
            decreases self@.documents.len() - i,
        {
            uris.push(self.documents.value_at(i).0.clone());
            i += 1;
        }
        assert(views(uris@) == document_urls(self@));
        uris
    }

    fn roots_without(&self, removed: &Vec<Url>) -> (uris: Vec<Url>)
        ensures
            views(uris@) == remaining_roots(self@.roots, views(removed@)),
    {
        let ghost all = self@.roots;
        let mut uris: Vec<Url> = Vec::new();
        let mut i: usize = 0;
        assert(all.take(0) == Seq::<RootParts>::empty());
        assert(views(uris@) == Seq::<UrlParts>::empty());
        while i < self.workspace_roots.len()
            invariant
                i <= all.len(),
                all == views(self.workspace_roots@),
                views(uris@) == remaining_roots(all.take(i as int), views(removed@)),
            decreases all.len() - i,
        {
            assert(all.take(i + 1).drop_last() == all.take(i as int));
            assert(all.take(i + 1).last() == self.workspace_roots@[i as int]@);
            let ghost earlier = views(uris@);
            if !names_identity(removed, self.workspace_roots[i].identity.as_str()) {
                uris.push(self.workspace_roots[i].uri.clone());
                assert(views(uris@) == earlier.push(all[i as int].uri));
            }
            i += 1;
        }
        assert(all.take(i as int) == all);
        uris
    }

    /// Returns the addresses of currently open documents in deterministic order.
    pub fn open_document_uris(&self) -> (uris: Vec<Url>)
        ensures
            views(uris@) == sorted_urls(open_urls(self@), |u: UrlParts| true),
    {
        let ghost test = |u: UrlParts| true;
        let ghost all = open_urls(self@);
        let mut uris: Vec<Url> = Vec::new();
        let mut i: usize = 0;
        assert(all.take(0) == Seq::<UrlParts>::empty());
        assert(views(uris@) == Seq::<UrlParts>::empty());
        while i < self.open_documents.len()
            invariant
                i <= all.len(),
                all == open_urls(self@),
                self@.open == self.open_documents@,
                test == |u: UrlParts| true,
                views(uris@) == sorted_urls(all.take(i as int), test),
            decreases all.len() - i,
        {
            assert(all.take(i + 1).drop_last() == all.take(i as int));
            insert_url(&mut uris, self.open_documents.value_at(i).clone());
            i += 1;
        }
        assert(all.take(i as int) == all);
        uris
    }

    /// Returns every file known to the workspace in deterministic order.
    pub fn workspace_document_uris(&self) -> (uris: Vec<Url>)
        ensures
            views(uris@) == sorted_urls(document_urls(self@), |u: UrlParts| true),
    {
        let ghost test = |u: UrlParts| true;
        let ghost all = document_urls(self@);
        let mut uris: Vec<Url> = Vec::new();
        let mut i: usize = 0;
        assert(all.take(0) == Seq::<UrlParts>::empty());
        assert(views(uris@) == Seq::<UrlParts>::empty());
        while i < self.documents.len()
            invariant
                i <= all.len(),
                all == document_urls(self@),
                self@.documents == self.documents@,
                test == |u: UrlParts| true,
                views(uris@) == sorted_urls(all.take(i as int), test),
            decreases all.len() - i,
        {
            assert(all.take(i + 1).drop_last() == all.take(i as int));
            insert_url(&mut uris, self.documents.value_at(i).0.clone());
            i += 1;
        }
        assert(all.take(i as int) == all);
        uris
    }
}

fn names_identity(uris: &Vec<Url>, identity: &str) -> (named: bool)
    ensures
        named == exists|i: int|
            0 <= i < uris@.len() && root_identity(#[trigger] views(uris@)[i]) == Some(identity@),
{
    let mut i: usize = 0;
    while i < uris.len()
        invariant
            i <= uris@.len(),
            forall|j: int|
                0 <= j < i ==> root_identity(#[trigger] views(uris@)[j]) != Some(identity@),
        decreases uris@.len() - i,
    {
        if let Some(found) = workspace_root_identity(&uris[i]) {
            if str_eq(found.as_str(), identity) {
                assert(root_identity(views(uris@)[i as int]) == Some(identity@));
                return true;
            }
        }
        assert(views(uris@)[i as int] == uris@[i as int]@);
        i += 1;
    }
    false
}

fn names_earlier(files: &Vec<(Url, String)>, end: usize) -> (named: bool)
    requires
        end < files@.len(),
    ensures
        named == names_file(
            file_views(files@).take(end as int),
            file_views(files@)[end as int].0.text,
        ),
{
    let ghost all = file_views(files@);
    let mut i: usize = 0;
    while i < end
        invariant
            i <= end < files@.len(),
            all == file_views(files@),
            forall|j: int| 0 <= j < i ==> (#[trigger] all[j]).0.text != all[end as int].0.text,
        decreases end - i,
    {
        if files[i].0 == files[end].0 {
            assert(all.take(end as int)[i as int].0.text == all[end as int].0.text);
            return true;
        }
        i += 1;
    }
    assert forall|j: int| 0 <= j < end implies (#[trigger] all.take(end as int)[j]).0.text
        != all[end as int].0.text by {
        assert(all.take(end as int)[j] == all[j]);
    }
    false
}

/// Collects the addresses and the files of folders.
fn collect_folders(
    folders: &Vec<(Url, Vec<(Url, String)>)>,
    uris: &mut Vec<Url>,
    files: &mut Vec<(Url, String)>,
)
    requires
        old(files)@.len() == 0,
    ensures
        views(final(uris)@) == views(old(uris)@) + folder_uris(folder_views(folders@)),
        file_views(final(files)@) == all_files(folder_views(folders@)),
        folders_fit(folder_views(folders@)) ==> files_fit(file_views(final(files)@)),
{
    let ghost first = views(uris@);
    let ghost all = folder_views(folders@);
    let mut i: usize = 0;
    assert(all.take(0) == Seq::<(UrlParts, Seq<(UrlParts, Seq<char>)>)>::empty());
    assert(first + folder_uris(all.take(0)) == first);
    assert(file_views(files@) == Seq::<(UrlParts, Seq<char>)>::empty());
    while i < folders.len()
        invariant
            i <= folders@.len(),
            all == folder_views(folders@),
            views(uris@) == first + folder_uris(all.take(i as int)),
            file_views(files@) == all_files(all.take(i as int)),
            folders_fit(all) ==> files_fit(file_views(files@)),
        decreases folders@.len() - i,
    {
        assert(all.take(i + 1).drop_last() == all.take(i as int));
        let ghost earlier_uris = views(uris@);
        uris.push(folders[i].0.clone());
        assert(views(uris@) == first + folder_uris(all.take(i + 1))) by {
            assert(views(uris@) == earlier_uris.push(all[i as int].0));
            assert(folder_uris(all.take(i + 1)) == folder_uris(all.take(i as int)).push(
                all[i as int].0,
            ));
        }
        let ghost earlier = file_views(files@);
        let ghost own = file_views(folders@[i as int].1@);
        let mut k: usize = 0;
        while k < folders[i].1.len()
            invariant
                i < folders@.len(),
                k <= folders@[i as int].1@.len(),
                own == file_views(folders@[i as int].1@),
                file_views(files@) == earlier + own.take(k as int),
            decreases folders@[i as int].1@.len() - k,
        {
            let ghost sofar = file_views(files@);
            files.push((folders[i].1[k].0.clone(), folders[i].1[k].1.clone()));
            assert(file_views(files@) == sofar.push(own[k as int]));
            assert(own.take(k + 1) == own.take(k as int).push(own[k as int]));
            assert(file_views(files@) == earlier + own.take(k + 1));
            k += 1;
        }
        assert(own.take(k as int) == own);
        assert(all[i as int] == (folders@[i as int].0@, own));
        assert(all.take(i + 1).last() == all[i as int]);
        i += 1;
    }
    assert(all.take(i as int) == all);
}

} // verus!
