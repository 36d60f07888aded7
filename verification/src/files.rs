//! Which files and folders the server looks at.
use vstd::prelude::*;

use crate::seqs::views;
use crate::state::{
    closed_document, fits, is_open, known_path, removed, set_document, WorldModel, WorldState,
};
use crate::table::{lemma_without_entry, lookup};
use crate::text::{from_chars, str_eq, to_chars};
use crate::url::{parts_of, text_of, Url, UrlParts};
use crate::world_laws::{
    keeps_form, law_closed_document, law_removed, law_set_document, well_formed,
};

verus! {

/// Whether a name of a file has the extension of source files behind a stem.
pub open spec fn source_name(name: Seq<char>) -> bool {
    name.len() > ".solc"@.len() && name.skip(name.len() - ".solc"@.len()) == ".solc"@
}

/// Returns whether a file is a source file, by its name.
pub fn is_solcore_file_name(name: &str) -> (found: bool)
    ensures
        found == source_name(name@),
{
    proof {
        reveal_strlit(".solc");
    }
    let chars = to_chars(name);
    let count: usize = chars.len();
    if count <= 5 {
        return false;
    }
    let end = from_chars(chars.as_slice(), count - 5, count);
    assert(end@ == name@.skip(count - 5));
    str_eq(end.as_str(), ".solc")
}

/// Whether a folder is not looked into, by its name.
pub open spec fn ignored_name(name: Seq<char>) -> bool {
    name == ".git"@ || name == ".hg"@ || name == ".svn"@ || name == "node_modules"@ || name
        == "target"@
}

/// Returns whether a folder is not looked into, by its name.
pub fn is_ignored_directory_name(name: &str) -> (found: bool)
    ensures
        found == ignored_name(name@),
{
    str_eq(name, ".git") || str_eq(name, ".hg") || str_eq(name, ".svn") || str_eq(
        name,
        "node_modules",
    ) || str_eq(name, "target")
}

/// Whether the folder of a document that is being opened is looked for: a file that nothing maps
/// yet, where no workspace folder is configured.
pub open spec fn lacks_root(world: WorldModel, uri: UrlParts) -> bool {
    world.roots.len() == 0 && known_path(world, uri) is None && uri.scheme == "file"@
}

/// Returns whether the folder of a document that is being opened is looked for.
pub fn needs_workspace_root(world: &WorldState, uri: &Url) -> (needs: bool)
    ensures
        needs == lacks_root(world@, uri@),
{
    !world.has_workspace_root() && world.vfs_path_for_uri(uri).is_none() && str_eq(
        uri.scheme(),
        "file",
    )
}

/// Returns the folder that a client begins with: the first of its workspace folders, else the
/// root that it names by address, else the one that it names by path.
pub fn initial_workspace_root<'a>(
    folders: &'a Vec<Url>,
    root_uri: Option<&'a Url>,
    root_path: Option<&'a Url>,
) -> (root: Option<&'a Url>)
    ensures
        root == if folders@.len() > 0 {
            Some(&folders@[0])
        } else if root_uri is Some {
            root_uri
        } else {
            root_path
        },
{
    if folders.len() > 0 {
        return Some(&folders[0]);
    }
    match root_uri {
        Some(root) => Some(root),
        None => root_path,
    }
}

/// The addresses of the folders that a client begins with: its workspace folders, else the root
/// that it names.
pub open spec fn initial_roots(folders: Seq<UrlParts>, root_uri: Option<UrlParts>) -> Seq<UrlParts> {
    if folders.len() > 0 {
        folders
    } else {
        match root_uri {
            Some(root) => seq![root],
            None => Seq::empty(),
        }
    }
}

/// Returns the folders that a client begins with.
pub fn initial_workspace_roots(folders: Vec<Url>, root_uri: Option<Url>) -> (roots: Vec<Url>)
    ensures
        views(roots@) == initial_roots(views(folders@), parts_of(root_uri)),
{
    if folders.len() > 0 {
        return folders;
    }
    let mut roots: Vec<Url> = Vec::new();
    if let Some(root) = root_uri {
        roots.push(root);
    }
    assert(views(roots@) == initial_roots(views(folders@), parts_of(root_uri)));
    roots
}

/// The version with which the diagnostics of a document are published: that of the change which
/// led to them, none for other documents.
pub open spec fn version_for(uri: UrlParts, changed: Option<(UrlParts, i32)>) -> Option<i32> {
    match changed {
        Some((other, version)) => if other.text == uri.text {
            Some(version)
        } else {
            None
        },
        None => None,
    }
}

/// Returns the version with which the diagnostics of a document are published.
pub fn published_version(uri: &Url, changed: Option<(&Url, i32)>) -> (version: Option<i32>)
    ensures
        version == version_for(
            uri@,
            match changed {
                Some((other, version)) => Some((other@, version)),
                None => None,
            },
        ),
{
    match changed {
        Some((other, version)) => if other.same(uri) {
            Some(version)
        } else {
            None
        },
        None => None,
    }
}

/// The world after a source file has changed outside of the client: nothing for a document that
/// is open, else the file is gone or has another text. A file that could not be read stays as it
/// was.
pub open spec fn watched(
    world: WorldModel,
    uri: UrlParts,
    deleted: bool,
    text: Option<Seq<char>>,
) -> WorldModel {
    if is_open(world, uri) {
        world
    } else if deleted {
        removed(world, uri).0
    } else {
        match text {
            Some(text) => set_document(world, uri, text).0,
            None => world,
        }
    }
}

/// Takes a change of a source file outside of the client into the world.
pub fn update_watched_file(world: &mut WorldState, uri: Url, deleted: bool, text: Option<String>)
    requires
        text matches Some(text) ==> fits(text@),
    ensures
        final(world)@ == watched(old(world)@, uri@, deleted, text_of(text)),
        keeps_form(old(world)@, final(world)@),
{
    if world.is_document_open(&uri) {
        return;
    }
    if deleted {
        world.remove_workspace_document(&uri);
    } else if let Some(text) = text {
        world.set_workspace_document(uri, text);
    }
}

/// The world after a document was closed whose file has a text, or is gone.
pub open spec fn closed_to_disk(world: WorldModel, uri: UrlParts, text: Option<Seq<char>>) -> WorldModel {
    let shut = closed_document(world, uri);
    match text {
        Some(text) => set_document(shut, uri, text).0,
        None => removed(shut, uri).0,
    }
}

/// Closes a document and takes the text of its file in place of the text in the client.
pub fn close_to_disk(world: &mut WorldState, uri: Url, text: Option<String>)
    requires
        text matches Some(text) ==> fits(text@),
    ensures
        final(world)@ == closed_to_disk(old(world)@, uri@, text_of(text)),
        keeps_form(old(world)@, final(world)@),
{
    world.close_document(&uri);
    match text {
        Some(text) => {
            world.set_workspace_document(uri, text);
        },
        None => {
            world.remove_workspace_document(&uri);
        },
    }
}

/// A change on disk opens and closes nothing and leaves an open document as the editor has it. A
/// file that was deleted is no longer known; one that was read is known by the text on disk,
/// where it can be placed; one that could not be read stays as it was.
pub proof fn law_watched(world: WorldModel, uri: UrlParts, deleted: bool, text: Option<Seq<char>>)
    requires
        well_formed(world),
    ensures
        ({
            let after = watched(world, uri, deleted, text);
            &&& well_formed(after)
            &&& after.open == world.open
            &&& is_open(world, uri) ==> after == world
            &&& !is_open(world, uri) && deleted ==> lookup(after.documents, uri.text) is None
            &&& !is_open(world, uri) && !deleted ==> match text {
                Some(read) => set_document(world, uri, read).1 ==> lookup(
                    after.documents,
                    uri.text,
                ) == Some((uri, read)),
                None => after == world,
            }
        }),
{
    law_removed(world, uri);
    if text is Some {
        law_set_document(world, uri, text->0);
    }
}

/// A document that the editor closes is open no more. What is known of it then is the text on disk,
/// where it can be placed, and nothing where there is no such file.
pub proof fn law_closed_to_disk(world: WorldModel, uri: UrlParts, text: Option<Seq<char>>)
    requires
        well_formed(world),
    ensures
        ({
            let after = closed_to_disk(world, uri, text);
            &&& well_formed(after)
            &&& !is_open(after, uri)
            &&& match text {
                Some(read) => set_document(closed_document(world, uri), uri, read).1 ==> lookup(
                    after.documents,
                    uri.text,
                ) == Some((uri, read)),
                None => lookup(after.documents, uri.text) is None,
            }
        }),
{
    let shut = closed_document(world, uri);
    law_closed_document(world, uri);
    law_removed(shut, uri);
    lemma_without_entry(world.open, uri.text, uri.text);
    if text is Some {
        law_set_document(shut, uri, text->0);
    }
}

/// The folders that a client names are the first roots. Only where it names none is the root that
/// it gave, if any.
pub proof fn law_initial_roots(folders: Seq<UrlParts>, root_uri: Option<UrlParts>, uri: UrlParts)
    ensures
        initial_roots(folders, root_uri).contains(uri) <==> if folders.len() > 0 {
            folders.contains(uri)
        } else {
            root_uri == Some(uri)
        },
{
    if folders.len() == 0 && root_uri is Some {
        let roots = initial_roots(folders, root_uri);
        assert(roots[0] == root_uri->0);
    }
}

/// A version goes with the document that was changed and with no other.
pub proof fn law_version_sent(uri: UrlParts, other: UrlParts, version: i32)
    ensures
        version_for(uri, Some((uri, version))) == Some(version),
        other.text != uri.text ==> version_for(other, Some((uri, version))) is None,
        version_for(other, None) is None,
{
}

/// A source file is one with the extension behind a stem, whatever the stem is.
pub proof fn law_source_name(stem: Seq<char>)
    ensures
        source_name(stem + ".solc"@) <==> stem.len() > 0,
{
    reveal_strlit(".solc");
    assert((stem + ".solc"@).skip(stem.len() as int) == ".solc"@);
}

} // verus!
