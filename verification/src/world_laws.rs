//! What holds of the documents of the server through all operations on them.
use vstd::prelude::*;

use crate::line_index::{byte_at, char_index, law_offset_round_trip, lemma_cut, lemma_utf8_concat};
use crate::paths::{
    hex_text, law_hex_encode_injective, main_path, path_below, relative_path, root_identity,
    root_path_len, vfs_key, vfs_url,
};
use crate::protocol::TextDocumentContentChangeEvent;
use crate::state::{
    all_files, batch_applied, below_any, changed_text, client_uri, closed_document, detaches_open, document_urls,
    edited_text, empty_world, folder_path, folder_uris, identities, is_open, is_placed_by, known_path,
    least_open, lifted, loaded, mapped, moved_documents, names_file, new_place, open_text, open_urls, owned_path,
    owning_root, placed, put_open, removed, replaced_roots, root_at, roots_at, set_document, sorted_urls, with_inferred_root, with_root,
    with_url, with_virtual_path, MovedParts, RootParts, WorldModel,
};
use crate::table::{
    index_of, keys_distinct, lemma_index_of, lemma_with_entry, lemma_without_entry, lookup,
    with_entry, without_entry,
};
use crate::text::{
    has_prefix, lemma_text_lt_irreflexive, lemma_text_lt_total, lemma_text_lt_transitive,
    lemma_utf8_injective, text_lt, utf8,
};
use crate::url::UrlParts;

verus! {

/// Whether no key of a world occurs twice, each document stands under its own address, each
/// open document is known and each known document has a virtual path.
pub open spec fn well_formed(world: WorldModel) -> bool {
    &&& tables_distinct(world)
    &&& open_known(world)
    &&& forall|key: Seq<char>|
        #[trigger] lookup(world.documents, key) is Some ==> lookup(world.client_to_vfs, key) is Some
}

/// Whether a world that was reached from a well-formed one is well-formed.
pub open spec fn keeps_form(before: WorldModel, after: WorldModel) -> bool {
    well_formed(before) ==> well_formed(after)
}

pub open spec fn tables_distinct(world: WorldModel) -> bool {
    &&& keys_distinct(world.documents)
    &&& keys_distinct(world.open)
    &&& keys_distinct(world.client_to_vfs)
    &&& keys_distinct(world.vfs_to_client)
}

pub open spec fn open_known(world: WorldModel) -> bool {
    &&& forall|key: Seq<char>|
        #[trigger] lookup(world.documents, key) matches Some(document) ==> document.0.text == key
    &&& forall|key: Seq<char>|
        #[trigger] lookup(world.open, key) matches Some(uri) ==> uri.text == key && lookup(
            world.documents,
            key,
        ) is Some
}

proof fn lemma_put<V>(entries: Seq<(Seq<char>, V)>, key: Seq<char>, value: V)
    ensures
        forall|other: Seq<char>|
            #[trigger] lookup(with_entry(entries, key, value), other) == if other == key {
                Some(value)
            } else {
                lookup(entries, other)
            },
        keys_distinct(entries) ==> keys_distinct(with_entry(entries, key, value)),
{
    assert forall|other: Seq<char>| #[trigger]
        lookup(with_entry(entries, key, value), other) == if other == key {
            Some(value)
        } else {
            lookup(entries, other)
        } by {
        lemma_with_entry(entries, key, value, other);
    }
    lemma_with_entry(entries, key, value, key);
}

proof fn lemma_drop<V>(entries: Seq<(Seq<char>, V)>, key: Seq<char>)
    requires
        keys_distinct(entries),
    ensures
        forall|other: Seq<char>|
            #[trigger] lookup(without_entry(entries, key), other) == if other == key {
                None
            } else {
                lookup(entries, other)
            },
        keys_distinct(without_entry(entries, key)),
{
    assert forall|other: Seq<char>| #[trigger]
        lookup(without_entry(entries, key), other) == if other == key {
            None
        } else {
            lookup(entries, other)
        } by {
        lemma_without_entry(entries, key, other);
    }
    lemma_without_entry(entries, key, key);
}

/// A new world is well-formed.
pub proof fn law_empty_world()
    ensures
        well_formed(empty_world()),
{
    assert forall|key: Seq<char>| #[trigger] lookup(empty_world().documents, key) is None by {
        lemma_index_of(empty_world().documents, key);
    }
    assert forall|key: Seq<char>| #[trigger] lookup(empty_world().open, key) is None by {
        lemma_index_of(empty_world().open, key);
    }
}

/// What giving a document a place changes: its mapping, the folder inferred from it and the
/// number of the next virtual document.
proof fn lemma_mapped(world: WorldModel, uri: UrlParts)
    requires
        well_formed(world),
    ensures
        ({
            let (after, path) = mapped(world, uri);
            &&& well_formed(after)
            &&& after.documents == world.documents
            &&& after.open == world.open
            &&& after.entry == world.entry
            &&& after.changes == world.changes
            &&& path is Some ==> lookup(after.client_to_vfs, uri.text) == path
            &&& lookup(world.client_to_vfs, uri.text) is Some ==> after == world && path is Some
        }),
{
    let rooted = with_inferred_root(world, uri);
    let (at, path) = match folder_path(rooted, uri) {
        Some(path) => (rooted, Some(path)),
        None => match main_path(uri) {
            Some(path) => (rooted, Some(path)),
            None => with_virtual_path(rooted, uri),
        },
    };
    if path is Some {
        lemma_put(at.client_to_vfs, uri.text, path->0);
        if vfs_key(path->0) is Some {
            lemma_put(at.vfs_to_client, vfs_key(path->0)->0, uri);
        }
    }
}

/// Opening or changing a document keeps a world well-formed. Where it succeeds, the document is
/// open with the new text, and no other document is opened, closed or changed.
pub proof fn law_put_open(world: WorldModel, uri: UrlParts, text: Seq<char>, other: UrlParts)
    requires
        well_formed(world),
    ensures
        well_formed(put_open(world, uri, text).0),
        put_open(world, uri, text).1 ==> open_text(put_open(world, uri, text).0, uri) == Some(text),
        !put_open(world, uri, text).1 ==> open_text(put_open(world, uri, text).0, uri) == open_text(
            world,
            uri,
        ),
        other.text != uri.text ==> open_text(put_open(world, uri, text).0, other) == open_text(
            world,
            other,
        ),
{
    lemma_mapped(world, uri);
    let (at, path) = mapped(world, uri);
    if path is Some {
        lemma_put(at.documents, uri.text, (uri, text));
        lemma_put(at.open, uri.text, uri);
    }
}

/// Adding or refreshing a closed document keeps a world well-formed and opens or closes nothing.
pub proof fn law_set_document(world: WorldModel, uri: UrlParts, text: Seq<char>)
    requires
        well_formed(world),
    ensures
        well_formed(set_document(world, uri, text).0),
        set_document(world, uri, text).0.open == world.open,
        set_document(world, uri, text).1 ==> lookup(
            set_document(world, uri, text).0.documents,
            uri.text,
        ) == Some((uri, text)),
{
    lemma_mapped(world, uri);
    let (at, path) = mapped(world, uri);
    if path is Some {
        lemma_put(at.documents, uri.text, (uri, text));
    }
}

/// Removing a document keeps a world well-formed. An open document is not removed; a closed one
/// is gone with its mapping.
pub proof fn law_removed(world: WorldModel, uri: UrlParts)
    requires
        well_formed(world),
    ensures
        well_formed(removed(world, uri).0),
        is_open(world, uri) ==> removed(world, uri) == (world, false),
        !is_open(world, uri) ==> lookup(removed(world, uri).0.documents, uri.text) is None && lookup(
            removed(world, uri).0.client_to_vfs,
            uri.text,
        ) is None,
{
    if !is_open(world, uri) {
        match lookup(world.client_to_vfs, uri.text) {
            Some(path) => {
                lemma_drop(world.client_to_vfs, uri.text);
                if vfs_key(path) is Some {
                    lemma_drop(world.vfs_to_client, vfs_key(path)->0);
                }
                lemma_drop(world.documents, uri.text);
            },
            None => {},
        }
    }
}

/// Closing a document keeps a world well-formed and every text known.
pub proof fn law_closed_document(world: WorldModel, uri: UrlParts)
    requires
        well_formed(world),
    ensures
        well_formed(closed_document(world, uri)),
        open_text(closed_document(world, uri), uri) is None,
        closed_document(world, uri).documents == world.documents,
        closed_document(world, uri).client_to_vfs == world.client_to_vfs,
{
    lemma_drop(world.open, uri.text);
}

/// A batch of changes is applied as a whole or not at all.
pub proof fn law_batch_atomic(
    world: WorldModel,
    uri: UrlParts,
    changes: Seq<TextDocumentContentChangeEvent>,
)
    requires
        well_formed(world),
    ensures
        well_formed(batch_applied(world, uri, changes).0),
        !batch_applied(world, uri, changes).1 ==> batch_applied(world, uri, changes).0 == world,
        batch_applied(world, uri, changes).1 ==> open_text(world, uri) is Some
            && edited_text(open_text(world, uri)->0, changes) is Some && open_text(
            batch_applied(world, uri, changes).0,
            uri,
        ) == edited_text(open_text(world, uri)->0, changes),
{
    lemma_mapped(world, uri);
    match open_text(world, uri) {
        Some(text) => match edited_text(text, changes) {
            Some(text) => {
                law_put_open(world, uri, text, uri);
            },
            None => {},
        },
        None => {},
    }
}

/// Loading files keeps a world well-formed and leaves every open document as it is.
pub proof fn law_loaded(world: WorldModel, files: Seq<(UrlParts, Seq<char>)>, other: UrlParts)
    requires
        well_formed(world),
    ensures
        well_formed(loaded(world, files).0),
        loaded(world, files).0.open == world.open,
        is_open(world, other) ==> open_text(loaded(world, files).0, other) == open_text(world, other),
        loaded(world, files).1 <= files.len(),
    decreases files.len(),
{
    if files.len() > 0 {
        law_loaded(world, files.drop_last(), other);
        let before = loaded(world, files.drop_last()).0;
        let (uri, text) = files.last();
        law_set_document(before, uri, text);
        lemma_mapped(before, uri);
        let (at, path) = mapped(before, uri);
        if path is Some {
            lemma_put(at.documents, uri.text, (uri, text));
        }
    }
}

spec fn names(moved: Seq<MovedParts>, key: Seq<char>) -> bool {
    exists|i: int| 0 <= i < moved.len() && (#[trigger] moved[i]).uri.text == key
}

/// What is collected of the documents that move.
proof fn lemma_moved(
    world: WorldModel,
    roots: Seq<RootParts>,
    documents: Seq<(Seq<char>, (UrlParts, Seq<char>))>,
)
    ensures
        forall|i: int|
            0 <= i < moved_documents(world, roots, documents).len() ==> is_placed_by(
                world,
                roots,
                (#[trigger] moved_documents(world, roots, documents)[i]).uri,
            ) && moved_documents(world, roots, documents)[i].open == is_open(
                world,
                moved_documents(world, roots, documents)[i].uri,
            ),
        forall|j: int|
            0 <= j < documents.len() && is_placed_by(world, roots, (#[trigger] documents[j]).1.0)
                ==> names(moved_documents(world, roots, documents), documents[j].1.0.text),
    decreases documents.len(),
{
    if documents.len() > 0 {
        lemma_moved(world, roots, documents.drop_last());
        let earlier = moved_documents(world, roots, documents.drop_last());
        let all = moved_documents(world, roots, documents);
        let last = documents.last();
        assert forall|j: int|
            0 <= j < documents.len() && is_placed_by(
                world,
                roots,
                (#[trigger] documents[j]).1.0,
            ) implies names(all, documents[j].1.0.text) by {
            if j < documents.len() - 1 {
                assert(documents.drop_last()[j] == documents[j]);
                let k = choose|k: int|
                    0 <= k < earlier.len() && (#[trigger] earlier[k]).uri.text
                        == documents[j].1.0.text;
                assert(all[k].uri.text == documents[j].1.0.text);
            } else {
                assert(all[all.len() - 1].uri.text == documents[j].1.0.text);
            }
        }
    }
}

proof fn lemma_lifted(world: WorldModel, moved: Seq<MovedParts>)
    requires
        well_formed(world),
    ensures
        ({
            let after = lifted(world, moved);
            &&& tables_distinct(after)
            &&& after.documents == world.documents
            &&& after.open == world.open
            &&& after.roots == world.roots
            &&& after.namespaced == world.namespaced
            &&& forall|key: Seq<char>|
                !names(moved, key) ==> #[trigger] lookup(after.client_to_vfs, key) == lookup(
                    world.client_to_vfs,
                    key,
                )
        }),
    decreases moved.len(),
{
    if moved.len() > 0 {
        let init = moved.drop_last();
        lemma_lifted(world, init);
        let before = lifted(world, init);
        let uri = moved.last().uri;
        match lookup(before.client_to_vfs, uri.text) {
            Some(path) => {
                lemma_drop(before.client_to_vfs, uri.text);
                if vfs_key(path) is Some {
                    lemma_drop(before.vfs_to_client, vfs_key(path)->0);
                }
            },
            None => {},
        }
        let after = lifted(world, moved);
        assert forall|key: Seq<char>| !names(moved, key) implies #[trigger] lookup(
            after.client_to_vfs,
            key,
        ) == lookup(world.client_to_vfs, key) by {
            assert(moved[moved.len() - 1].uri.text != key);
            assert(!names(init, key)) by {
                assert forall|i: int| 0 <= i < init.len() implies (#[trigger] init[i]).uri.text
                    != key by {
                    assert(moved[i] == init[i]);
                }
            }
            assert(lookup(before.client_to_vfs, key) == lookup(world.client_to_vfs, key));
        }
    }
}

/// The documents that are placed so far have a mapping or are gone.
proof fn lemma_placed(start: WorldModel, moved: Seq<MovedParts>, world: WorldModel)
    requires
        tables_distinct(start),
        open_known(start),
        forall|i: int|
            0 <= i < moved.len() ==> (#[trigger] moved[i]).open == (lookup(
                start.open,
                moved[i].uri.text,
            ) is Some),
    ensures
        ({
            let after = placed(start, moved);
            &&& tables_distinct(after)
            &&& open_known(after)
            &&& after.roots == start.roots
            &&& after.namespaced == start.namespaced
            &&& forall|key: Seq<char>|
                names(moved, key) && #[trigger] lookup(after.documents, key) is Some ==> lookup(
                    after.client_to_vfs,
                    key,
                ) is Some
            &&& forall|key: Seq<char>|
                #[trigger] lookup(start.client_to_vfs, key) is Some ==> lookup(
                    after.client_to_vfs,
                    key,
                ) is Some
            &&& forall|key: Seq<char>| #[trigger] lookup(after.open, key) == lookup(start.open, key)
            &&& forall|key: Seq<char>|
                (#[trigger] lookup(start.open, key)) is Some ==> lookup(after.documents, key)
                    == lookup(start.documents, key)
            &&& forall|key: Seq<char>|
                (#[trigger] lookup(after.documents, key)) is Some ==> lookup(after.documents, key)
                    == lookup(start.documents, key)
            &&& forall|i: int|
                0 <= i < moved.len() && !(#[trigger] moved[i]).open && folder_path(
                    start,
                    moved[i].uri,
                ) is None ==> lookup(after.documents, moved[i].uri.text) is None
        }),
    decreases moved.len(),
{
    if moved.len() > 0 {
        let init = moved.drop_last();
        assert forall|i: int| 0 <= i < init.len() implies (#[trigger] init[i]).open == (lookup(
            start.open,
            init[i].uri.text,
        ) is Some) by {
            assert(moved[i] == init[i]);
        }
        lemma_placed(start, init, world);
        let before = placed(start, init);
        let after = placed(start, moved);
        let document = moved.last();
        assert(moved[moved.len() - 1] == document);
        assert(folder_path(before, document.uri) == folder_path(start, document.uri));
        match new_place(before, document) {
            Some(path) => {
                lemma_put(before.client_to_vfs, document.uri.text, path);
                if vfs_key(path) is Some {
                    lemma_put(before.vfs_to_client, vfs_key(path)->0, document.uri);
                }
            },
            None => {
                assert(!document.open);
                lemma_drop(before.documents, document.uri.text);
                lemma_drop(before.open, document.uri.text);
            },
        }
        assert forall|key: Seq<char>|
            names(moved, key) && #[trigger] lookup(after.documents, key) is Some implies lookup(
            after.client_to_vfs,
            key,
        ) is Some by {
            if key != document.uri.text {
                let i = choose|i: int|
                    0 <= i < moved.len() && (#[trigger] moved[i]).uri.text == key;
                assert(init[i].uri.text == key);
                assert(names(init, key));
            }
        }
        assert forall|i: int|
            0 <= i < moved.len() && !(#[trigger] moved[i]).open && folder_path(
                start,
                moved[i].uri,
            ) is None implies lookup(after.documents, moved[i].uri.text) is None by {
            if i < init.len() {
                assert(init[i] == moved[i]);
            }
        }
    }
}

/// Whether a document is known under its address.
pub open spec fn is_known_as(world: WorldModel, document: UrlParts) -> bool {
    match lookup(world.documents, document.text) {
        Some(known) => known.0 == document,
        None => false,
    }
}

/// Replacing the workspace folders keeps a world well-formed. Every open document stays open
/// with its text. A closed document that loses its place is discarded.
pub proof fn law_replaced_roots(world: WorldModel, uris: Seq<UrlParts>, document: UrlParts)
    requires
        well_formed(world),
    ensures
        ({
            let after = replaced_roots(world, uris);
            &&& well_formed(after)
            &&& is_open(after, document) == is_open(world, document)
            &&& open_text(after, document) == open_text(world, document)
            &&& identities(world.roots) != identities(roots_at(uris)) && !is_open(world, document)
                && is_known_as(world, document) && is_placed_by(
                world,
                roots_at(uris),
                document,
            ) && folder_path(
                after,
                document,
            ) is None ==> lookup(after.documents, document.text) is None
        }),
{
    let roots = roots_at(uris);
    if identities(world.roots) != identities(roots) {
        let named = WorldModel {
            namespaced: world.namespaced || roots.len() > 1 || (roots.len() > 0
                && detaches_open(world, roots)),
            ..world
        };
        let moved = moved_documents(named, roots, named.documents);
        lemma_moved(named, roots, named.documents);
        lemma_lifted(named, moved);
        let start = WorldModel { roots, ..lifted(named, moved) };
        assert forall|i: int| 0 <= i < moved.len() implies (#[trigger] moved[i]).open == (lookup(
            start.open,
            moved[i].uri.text,
        ) is Some) by {}
        lemma_placed(start, moved, world);
        let set = placed(start, moved);
        assert forall|key: Seq<char>| #[trigger] lookup(set.documents, key) is Some implies lookup(
            set.client_to_vfs,
            key,
        ) is Some by {
            if !names(moved, key) {
                assert(lookup(start.documents, key) is Some);
                assert(lookup(start.client_to_vfs, key) == lookup(world.client_to_vfs, key));
                assert(lookup(start.client_to_vfs, key) is Some);
            }
        }
        assert(well_formed(set));
        let after = replaced_roots(world, uris);
        assert(after.documents == set.documents && after.open == set.open && after.client_to_vfs
            == set.client_to_vfs && after.roots == set.roots && after.namespaced == set.namespaced);
        assert(folder_path(after, document) == folder_path(start, document));
        if is_open(world, document) {
            assert(lookup(start.open, document.text) is Some);
        }
        lemma_index_of(world.documents, document.text);
        if is_known_as(world, document) && is_placed_by(world, roots, document) && !is_open(
            world,
            document,
        ) {
            let j = index_of(world.documents, document.text)->0;
            assert(named.documents[j].1.0 == document);
            assert(is_placed_by(named, roots, document));
            let i = choose|i: int|
                0 <= i < moved.len() && (#[trigger] moved[i]).uri.text == document.text;
            assert(moved[i].uri.text == document.text);
            if folder_path(start, document) is None {
                lemma_moved_source(named, roots, named.documents, i);
                let k = choose|k: int|
                    0 <= k < named.documents.len() && (#[trigger] named.documents[k]).1.0
                        == moved[i].uri;
                lemma_lookup_at(named.documents, k);
                assert(named.documents[k].0 == document.text) by {
                    assert(lookup(named.documents, named.documents[k].0) is Some);
                }
                assert(moved[i].uri == document);
            }
        }
    }
}

proof fn lemma_lookup_at<V>(entries: Seq<(Seq<char>, V)>, k: int)
    requires
        keys_distinct(entries),
        0 <= k < entries.len(),
    ensures
        lookup(entries, entries[k].0) == Some(entries[k].1),
{
    lemma_index_of(entries, entries[k].0);
}

/// Each document that moves is a known document.
proof fn lemma_moved_source(
    world: WorldModel,
    roots: Seq<RootParts>,
    documents: Seq<(Seq<char>, (UrlParts, Seq<char>))>,
    i: int,
)
    requires
        0 <= i < moved_documents(world, roots, documents).len(),
    ensures
        exists|k: int|
            0 <= k < documents.len() && (#[trigger] documents[k]).1.0 == moved_documents(
                world,
                roots,
                documents,
            )[i].uri,
    decreases documents.len(),
{
    let earlier = moved_documents(world, roots, documents.drop_last());
    if i < earlier.len() {
        lemma_moved_source(world, roots, documents.drop_last(), i);
        let k = choose|k: int|
            0 <= k < documents.len() - 1 && (#[trigger] documents.drop_last()[k]).1.0
                == earlier[i].uri;
        assert(documents[k].1.0 == earlier[i].uri);
    } else {
        assert(documents[documents.len() - 1].1.0 == moved_documents(world, roots, documents)[i].uri);
    }
}

/// A document that is given a place has that place, and the address of the place leads back to
/// the document.
pub proof fn law_mapping_round_trip(world: WorldModel, uri: UrlParts)
    requires
        lookup(world.client_to_vfs, uri.text) is None,
        mapped(world, uri).1 is Some,
    ensures
        known_path(mapped(world, uri).0, uri) == mapped(world, uri).1,
        vfs_url(mapped(world, uri).1->0) is Some,
        client_uri(mapped(world, uri).0, vfs_url(mapped(world, uri).1->0)->0) == Some(uri),
{
    let rooted = with_inferred_root(world, uri);
    let (at, path) = match folder_path(rooted, uri) {
        Some(path) => (rooted, Some(path)),
        None => match main_path(uri) {
            Some(path) => (rooted, Some(path)),
            None => with_virtual_path(rooted, uri),
        },
    };
    let key = vfs_key(path->0)->0;
    lemma_with_entry(at.client_to_vfs, uri.text, path->0, uri.text);
    lemma_with_entry(at.vfs_to_client, key, uri, key);
}

/// No hexadecimal text holds a slash.
proof fn lemma_hex_no_slash(bytes: Seq<u8>)
    ensures
        !hex_text(bytes).contains('/'),
    decreases bytes.len(),
{
    if bytes.len() > 0 {
        lemma_hex_no_slash(bytes.drop_last());
        let text = hex_text(bytes);
        assert forall|i: int| 0 <= i < text.len() implies text[i] != '/' by {
            if i < text.len() - 2 {
                assert(text[i] == hex_text(bytes.drop_last())[i]);
            }
        }
    }
}

/// A text that goes on behind a separator that its head does not hold has only one such head.
proof fn lemma_head_unique(a: Seq<char>, b: Seq<char>, x: Seq<char>, y: Seq<char>)
    requires
        !a.contains('/'),
        !b.contains('/'),
        a.push('/') + x == b.push('/') + y,
    ensures
        a == b,
        x == y,
{
    let left = a.push('/') + x;
    let right = b.push('/') + y;
    assert(left[a.len() as int] == '/');
    assert(right[b.len() as int] == '/');
    if a.len() < b.len() {
        assert(right[a.len() as int] == b[a.len() as int]);
        assert(b.contains('/'));
    } else if b.len() < a.len() {
        assert(left[b.len() as int] == a[b.len() as int]);
        assert(a.contains('/'));
    }
    assert(a == left.take(a.len() as int));
    assert(b == right.take(b.len() as int));
    assert(x == left.skip(a.len() as int + 1));
    assert(y == right.skip(b.len() as int + 1));
}

/// Whether each folder has the name that its identity gives it.
pub open spec fn roots_named(roots: Seq<RootParts>) -> bool {
    forall|i: int|
        0 <= i < roots.len() ==> (#[trigger] roots[i]).namespace == hex_text(utf8(roots[i].identity))
}

proof fn lemma_owner(roots: Seq<RootParts>, uri: UrlParts)
    ensures
        owning_root(roots, uri) matches Some(i) ==> 0 <= i < roots.len(),
    decreases roots.len(),
{
    if roots.len() > 0 {
        lemma_owner(roots.drop_last(), uri);
    }
}

/// Files that have the same virtual path below the folder names belong to the same folder, and
/// have the same path below it: files of different folders never overwrite one another.
pub proof fn law_folders_isolated(world: WorldModel, a: UrlParts, b: UrlParts)
    requires
        roots_named(world.roots),
        world.roots.len() > 1 || world.namespaced,
        folder_path(world, a) is Some,
        folder_path(world, a) == folder_path(world, b),
    ensures
        owning_root(world.roots, a) is Some,
        owning_root(world.roots, b) is Some,
        world.roots[owning_root(world.roots, a)->0].identity == world.roots[owning_root(
            world.roots,
            b,
        )->0].identity,
        owned_path(world.roots, a) == owned_path(world.roots, b),
{
    lemma_owner(world.roots, a);
    lemma_owner(world.roots, b);
    let i = owning_root(world.roots, a)->0;
    let j = owning_root(world.roots, b)->0;
    let (left, x) = owned_path(world.roots, a)->0;
    let (right, y) = owned_path(world.roots, b)->0;
    let head = "/main/__solcore_workspace__/"@;
    reveal_strlit("/");
    assert("/"@ == seq!['/']);
    let p = head + left + "/"@ + x;
    let q = head + right + "/"@ + y;
    assert(p.skip(head.len() as int) == left.push('/') + x);
    assert(q.skip(head.len() as int) == right.push('/') + y);
    lemma_hex_no_slash(utf8(world.roots[i].identity));
    lemma_hex_no_slash(utf8(world.roots[j].identity));
    lemma_head_unique(left, right, x, y);
    law_hex_encode_injective(utf8(world.roots[i].identity), utf8(world.roots[j].identity));
    lemma_utf8_injective(world.roots[i].identity, world.roots[j].identity);
}

/// The folders of some addresses have the names that their identities give them, and stand in
/// the order of their identities, no identity twice.
pub proof fn law_roots_ordered(uris: Seq<UrlParts>)
    ensures
        roots_named(roots_at(uris)),
        identities_increase(roots_at(uris)),
    decreases uris.len(),
{
    if uris.len() > 0 {
        law_roots_ordered(uris.drop_last());
        match root_at(uris.last()) {
            Some(root) => {
                lemma_with_root(roots_at(uris.drop_last()), root);
            },
            None => {},
        }
    }
}

pub open spec fn identities_increase(roots: Seq<RootParts>) -> bool {
    forall|i: int, j: int|
        0 <= i < j < roots.len() ==> text_lt(
            (#[trigger] roots[i]).identity,
            (#[trigger] roots[j]).identity,
        )
}

proof fn lemma_with_root(roots: Seq<RootParts>, root: RootParts)
    requires
        identities_increase(roots),
        roots_named(roots),
        root.namespace == hex_text(utf8(root.identity)),
    ensures
        identities_increase(with_root(roots, root)),
        roots_named(with_root(roots, root)),
        forall|k: int|
            0 <= k < with_root(roots, root).len() ==> (#[trigger] with_root(roots, root)[k]
                == root || roots.contains(with_root(roots, root)[k])),
    decreases roots.len(),
{
    let all = with_root(roots, root);
    if roots.len() == 0 {
    } else if text_lt(roots.last().identity, root.identity) {
        assert forall|i: int, j: int| 0 <= i < j < all.len() implies text_lt(
            (#[trigger] all[i]).identity,
            (#[trigger] all[j]).identity,
        ) by {
            if j == roots.len() && i < roots.len() - 1 {
                assert(text_lt(roots[i].identity, roots[roots.len() - 1].identity));
                lemma_text_lt_transitive(
                    roots[i].identity,
                    roots.last().identity,
                    root.identity,
                );
            }
        }
        assert forall|k: int| 0 <= k < all.len() implies (#[trigger] all[k] == root
            || roots.contains(all[k])) by {
            if k < roots.len() {
                assert(roots[k] == all[k]);
            }
        }
    } else if roots.last().identity == root.identity {
        assert forall|k: int| 0 <= k < all.len() implies (#[trigger] all[k] == root
            || roots.contains(all[k])) by {
            assert(roots[k] == all[k]);
        }
    } else {
        let init = roots.drop_last();
        assert(identities_increase(init)) by {
            assert forall|i: int, j: int| 0 <= i < j < init.len() implies text_lt(
                (#[trigger] init[i]).identity,
                (#[trigger] init[j]).identity,
            ) by {
                assert(roots[i] == init[i] && roots[j] == init[j]);
            }
        }
        lemma_with_root(init, root);
        let front = with_root(init, root);
        lemma_text_lt_total(roots.last().identity, root.identity);
        assert forall|k: int| 0 <= k < front.len() implies text_lt(
            (#[trigger] front[k]).identity,
            roots.last().identity,
        ) by {
            if front[k] != root {
                let m = choose|m: int| 0 <= m < init.len() && init[m] == front[k];
                assert(roots[m] == front[k]);
                assert(text_lt(roots[m].identity, roots[roots.len() - 1].identity));
            }
        }
        assert forall|k: int| 0 <= k < all.len() implies (#[trigger] all[k] == root
            || roots.contains(all[k])) by {
            if k < front.len() {
                assert(all[k] == front[k]);
                if front[k] != root {
                    let m = choose|m: int| 0 <= m < init.len() && init[m] == front[k];
                    assert(roots[m] == front[k]);
                }
            } else {
                assert(all[k] == roots[roots.len() - 1]);
            }
        }
    }
}

/// Whether addresses stand in the order of their texts.
pub open spec fn urls_ordered(urls: Seq<UrlParts>) -> bool {
    forall|i: int, j: int|
        0 <= i < j < urls.len() ==> !text_lt((#[trigger] urls[j]).text, (#[trigger] urls[i]).text)
}

/// Lists of addresses are in the order of their texts and hold exactly the addresses that pass
/// the test.
pub proof fn law_sorted_urls(urls: Seq<UrlParts>, test: spec_fn(UrlParts) -> bool, url: UrlParts)
    ensures
        urls_ordered(sorted_urls(urls, test)),
        sorted_urls(urls, test).contains(url) <==> urls.contains(url) && test(url),
    decreases urls.len(),
{
    if urls.len() > 0 {
        let init = urls.drop_last();
        law_sorted_urls(init, test, url);
        assert(urls.contains(url) <==> init.contains(url) || urls.last() == url) by {
            if urls.contains(url) {
                let i = choose|i: int| 0 <= i < urls.len() && urls[i] == url;
                if i < init.len() {
                    assert(init[i] == url);
                }
            }
            if init.contains(url) {
                let i = choose|i: int| 0 <= i < init.len() && init[i] == url;
                assert(urls[i] == url);
            }
            if urls.last() == url {
                assert(urls[urls.len() - 1] == url);
            }
        }
        if test(urls.last()) {
            lemma_with_url(sorted_urls(init, test), urls.last(), url);
        }
    }
}

/// Whether addresses come strictly in the order of their texts.
pub open spec fn urls_increase(urls: Seq<UrlParts>) -> bool {
    forall|i: int, j: int|
        0 <= i < j < urls.len() ==> text_lt((#[trigger] urls[i]).text, (#[trigger] urls[j]).text)
}

/// Whether the texts of addresses differ.
pub open spec fn urls_differ(urls: Seq<UrlParts>) -> bool {
    forall|i: int, j: int|
        0 <= i < j < urls.len() ==> (#[trigger] urls[i]).text != (#[trigger] urls[j]).text
}

/// Where the texts of addresses differ, their list comes strictly in the order of the texts.
pub proof fn law_urls_listed_once(urls: Seq<UrlParts>, test: spec_fn(UrlParts) -> bool)
    requires
        urls_differ(urls),
    ensures
        urls_increase(sorted_urls(urls, test)),
    decreases urls.len(),
{
    if urls.len() > 0 {
        let init = urls.drop_last();
        let last = urls.last();
        assert(urls_differ(init)) by {
            assert forall|i: int, j: int| 0 <= i < j < init.len() implies (
            #[trigger] init[i]).text != (#[trigger] init[j]).text by {
                assert(urls[i] == init[i] && urls[j] == init[j]);
            }
        }
        law_urls_listed_once(init, test);
        if test(last) {
            let front = sorted_urls(init, test);
            assert forall|k: int| 0 <= k < front.len() implies (#[trigger] front[k]).text
                != last.text by {
                law_sorted_urls(init, test, front[k]);
                assert(front.contains(front[k]));
                let m = choose|m: int| 0 <= m < init.len() && init[m] == front[k];
                assert(urls[m].text != urls[urls.len() - 1].text);
            }
            lemma_url_increases(front, last);
        }
    }
}

proof fn lemma_url_increases(urls: Seq<UrlParts>, added: UrlParts)
    requires
        urls_increase(urls),
        forall|k: int| 0 <= k < urls.len() ==> (#[trigger] urls[k]).text != added.text,
    ensures
        urls_increase(with_url(urls, added)),
        forall|k: int|
            0 <= k < with_url(urls, added).len() ==> (#[trigger] with_url(urls, added)[k] == added
                || urls.contains(with_url(urls, added)[k])),
    decreases urls.len(),
{
    let all = with_url(urls, added);
    if urls.len() > 0 && text_lt(added.text, urls.last().text) {
        let init = urls.drop_last();
        let last = urls.last();
        assert forall|i: int, j: int| 0 <= i < j < init.len() implies text_lt(
            (#[trigger] init[i]).text,
            (#[trigger] init[j]).text,
        ) by {
            assert(urls[i] == init[i] && urls[j] == init[j]);
        }
        assert forall|k: int| 0 <= k < init.len() implies (#[trigger] init[k]).text
            != added.text by {
            assert(urls[k] == init[k]);
        }
        lemma_url_increases(init, added);
        let front = with_url(init, added);
        assert forall|k: int| 0 <= k < all.len() implies (#[trigger] all[k] == added
            || urls.contains(all[k])) by {
            if k < front.len() {
                assert(all[k] == front[k]);
                if front[k] != added {
                    let m = choose|m: int| 0 <= m < init.len() && init[m] == front[k];
                    assert(urls[m] == front[k]);
                }
            } else {
                assert(urls[urls.len() - 1] == all[k]);
            }
        }
        assert forall|i: int, j: int| 0 <= i < j < all.len() implies text_lt(
            (#[trigger] all[i]).text,
            (#[trigger] all[j]).text,
        ) by {
            assert(all[i] == front[i]);
            if j < front.len() {
                assert(all[j] == front[j]);
            } else if front[i] != added {
                let m = choose|m: int| 0 <= m < init.len() && init[m] == front[i];
                assert(text_lt(urls[m].text, urls[urls.len() - 1].text));
            }
        }
    } else {
        assert forall|i: int, j: int| 0 <= i < j < all.len() implies text_lt(
            (#[trigger] all[i]).text,
            (#[trigger] all[j]).text,
        ) by {
            if j == urls.len() {
                let last = urls[urls.len() - 1];
                lemma_text_lt_total(last.text, added.text);
                if i < urls.len() - 1 {
                    assert(text_lt(urls[i].text, last.text));
                    lemma_text_lt_transitive(urls[i].text, last.text, added.text);
                }
            } else {
                assert(text_lt(urls[i].text, urls[j].text));
            }
        }
        assert forall|k: int| 0 <= k < all.len() implies (#[trigger] all[k] == added
            || urls.contains(all[k])) by {
            if k < urls.len() {
                assert(urls[k] == all[k]);
            }
        }
    }
}

/// Whether one of some addresses has a text.
pub open spec fn lists(urls: Seq<UrlParts>, text: Seq<char>) -> bool {
    exists|i: int| 0 <= i < urls.len() && (#[trigger] urls[i]).text == text
}

/// In a well-formed world just the open documents have a text that the client sees. The lists of
/// the open and of the known documents name each document once, in the order of their texts, and
/// every open document is among the known ones.
pub proof fn law_document_lists(world: WorldModel, document: UrlParts)
    requires
        well_formed(world),
    ensures
        open_text(world, document) is Some <==> is_open(world, document),
        urls_increase(sorted_urls(open_urls(world), |u: UrlParts| true)),
        urls_increase(sorted_urls(document_urls(world), |u: UrlParts| true)),
        is_open(world, document) <==> lists(
            sorted_urls(open_urls(world), |u: UrlParts| true),
            document.text,
        ),
        lists(sorted_urls(open_urls(world), |u: UrlParts| true), document.text) ==> lists(
            sorted_urls(document_urls(world), |u: UrlParts| true),
            document.text,
        ),
{
    let test = |u: UrlParts| true;
    let open = open_urls(world);
    let known = document_urls(world);
    assert forall|i: int| 0 <= i < open.len() implies (#[trigger] open[i]).text
        == world.open[i].0 by {
        lemma_lookup_at(world.open, i);
        assert(lookup(world.open, world.open[i].0) is Some);
    }
    assert forall|i: int| 0 <= i < known.len() implies (#[trigger] known[i]).text
        == world.documents[i].0 by {
        lemma_lookup_at(world.documents, i);
        assert(lookup(world.documents, world.documents[i].0) is Some);
    }
    assert(urls_differ(open)) by {
        assert forall|i: int, j: int| 0 <= i < j < open.len() implies (#[trigger] open[i]).text != (
        #[trigger] open[j]).text by {
            assert(world.open[i].0 != world.open[j].0);
        }
    }
    assert(urls_differ(known)) by {
        assert forall|i: int, j: int| 0 <= i < j < known.len() implies (
        #[trigger] known[i]).text != (#[trigger] known[j]).text by {
            assert(world.documents[i].0 != world.documents[j].0);
        }
    }
    law_urls_listed_once(open, test);
    law_urls_listed_once(known, test);
    lemma_index_of(world.open, document.text);
    lemma_index_of(world.documents, document.text);
    lemma_listed(open, document.text);
    lemma_listed(known, document.text);
    if is_open(world, document) {
        let i = index_of(world.open, document.text)->0;
        assert(open[i].text == document.text);
        assert(lookup(world.documents, document.text) is Some);
        let k = index_of(world.documents, document.text)->0;
        assert(known[k].text == document.text);
    }
    if lists(open, document.text) {
        let i = choose|i: int| 0 <= i < open.len() && (#[trigger] open[i]).text == document.text;
        lemma_lookup_at(world.open, i);
    }
}

/// A list of addresses names what the addresses name.
proof fn lemma_listed(urls: Seq<UrlParts>, text: Seq<char>)
    ensures
        lists(sorted_urls(urls, |u: UrlParts| true), text) <==> lists(urls, text),
{
    let test = |u: UrlParts| true;
    let all = sorted_urls(urls, test);
    if lists(all, text) {
        let i = choose|i: int| 0 <= i < all.len() && (#[trigger] all[i]).text == text;
        law_sorted_urls(urls, test, all[i]);
        assert(all.contains(all[i]));
        let k = choose|k: int| 0 <= k < urls.len() && urls[k] == all[i];
        assert(urls[k].text == text);
    }
    if lists(urls, text) {
        let k = choose|k: int| 0 <= k < urls.len() && (#[trigger] urls[k]).text == text;
        law_sorted_urls(urls, test, urls[k]);
        assert(urls.contains(urls[k]));
        assert(test(urls[k]));
        let i = choose|i: int| 0 <= i < all.len() && all[i] == urls[k];
        assert(all[i].text == text);
    }
}

proof fn lemma_with_url(urls: Seq<UrlParts>, added: UrlParts, url: UrlParts)
    requires
        urls_ordered(urls),
    ensures
        urls_ordered(with_url(urls, added)),
        with_url(urls, added).contains(url) <==> urls.contains(url) || url == added,
    decreases urls.len(),
{
    let all = with_url(urls, added);
    if urls.len() > 0 && text_lt(added.text, urls.last().text) {
        let init = urls.drop_last();
        assert(urls_ordered(init)) by {
            assert forall|i: int, j: int| 0 <= i < j < init.len() implies !text_lt(
                (#[trigger] init[j]).text,
                (#[trigger] init[i]).text,
            ) by {
                assert(urls[i] == init[i] && urls[j] == init[j]);
            }
        }
        lemma_with_url(init, added, url);
        let front = with_url(init, added);
        let last = urls.last();
        assert forall|k: int| 0 <= k < front.len() implies !text_lt(
            last.text,
            (#[trigger] front[k]).text,
        ) by {
            lemma_with_url(init, added, front[k]);
            assert(front.contains(front[k]));
            if front[k] == added {
                lemma_text_lt_total(added.text, last.text);
            } else {
                let m = choose|m: int| 0 <= m < init.len() && init[m] == front[k];
                assert(urls[m] == front[k] && urls[urls.len() - 1] == last);
            }
        }
        assert forall|i: int, j: int| 0 <= i < j < all.len() implies !text_lt(
            (#[trigger] all[j]).text,
            (#[trigger] all[i]).text,
        ) by {
            assert(all[i] == front[i]);
            if j < front.len() {
                assert(all[j] == front[j]);
            }
        }
        if all.contains(url) {
            let i = choose|i: int| 0 <= i < all.len() && all[i] == url;
            if i < front.len() {
                assert(front[i] == url);
                assert(front.contains(url));
                if url != added {
                    let m = choose|m: int| 0 <= m < init.len() && init[m] == url;
                    assert(urls[m] == url);
                }
            } else {
                assert(urls[urls.len() - 1] == url);
            }
        }
        if urls.contains(url) {
            let i = choose|i: int| 0 <= i < urls.len() && urls[i] == url;
            if i < init.len() {
                assert(init[i] == url);
                assert(front.contains(url));
                let m = choose|m: int| 0 <= m < front.len() && front[m] == url;
                assert(all[m] == url);
            } else {
                assert(all[all.len() - 1] == url);
            }
        }
        if url == added {
            assert(front.contains(url));
            let m = choose|m: int| 0 <= m < front.len() && front[m] == url;
            assert(all[m] == url);
        }
    } else {
        assert forall|i: int, j: int| 0 <= i < j < all.len() implies !text_lt(
            (#[trigger] all[j]).text,
            (#[trigger] all[i]).text,
        ) by {
            if j < urls.len() {
                assert(all[j] == urls[j] && all[i] == urls[i]);
            } else {
                let last = urls.last();
                assert(urls[urls.len() - 1] == last);
                assert(!text_lt(last.text, urls[i].text) || i == urls.len() - 1);
                lemma_text_lt_total(last.text, urls[i].text);
                lemma_text_lt_total(last.text, added.text);
                if text_lt(added.text, urls[i].text) {
                    if urls[i].text != last.text {
                        lemma_text_lt_transitive(added.text, urls[i].text, last.text);
                    }
                }
            }
        }
        if urls.contains(url) {
            let i = choose|i: int| 0 <= i < urls.len() && urls[i] == url;
            assert(all[i] == url);
        }
        if url == added {
            assert(all[urls.len() as int] == url);
        }
        if all.contains(url) && url != added {
            let i = choose|i: int| 0 <= i < all.len() && all[i] == url;
            assert(urls[i] == url);
        }
    }
}

/// Whether texts come strictly in order.
pub open spec fn texts_increase(texts: Seq<Seq<char>>) -> bool {
    forall|i: int, j: int|
        0 <= i < j < texts.len() ==> text_lt(#[trigger] texts[i], #[trigger] texts[j])
}

/// Texts that come strictly in order are known by what they hold.
proof fn lemma_increasing_texts(a: Seq<Seq<char>>, b: Seq<Seq<char>>)
    requires
        texts_increase(a),
        texts_increase(b),
        forall|text: Seq<char>| #[trigger] a.contains(text) <==> b.contains(text),
    ensures
        a == b,
    decreases a.len(),
{
    if a.len() == 0 {
        if b.len() > 0 {
            assert(b.contains(b[0]));
            assert(a.contains(b[0]));
        }
    } else {
        let x = a.last();
        assert(a.contains(x)) by {
            assert(a[a.len() - 1] == x);
        }
        assert(b.contains(x));
        let y = b.last();
        assert(b.contains(y)) by {
            assert(b[b.len() - 1] == y);
        }
        assert(a.contains(y));
        let i = choose|i: int| 0 <= i < a.len() && a[i] == y;
        let j = choose|j: int| 0 <= j < b.len() && b[j] == x;
        lemma_text_lt_total(x, y);
        assert(i < a.len() - 1 ==> text_lt(a[i], a[a.len() - 1]));
        assert(j < b.len() - 1 ==> text_lt(b[j], b[b.len() - 1]));
        assert(x == y);
        let left = a.drop_last();
        let right = b.drop_last();
        assert forall|text: Seq<char>| #[trigger] left.contains(text) <==> right.contains(text) by {
            lemma_text_lt_irreflexive(text);
            if left.contains(text) {
                let m = choose|m: int| 0 <= m < left.len() && left[m] == text;
                assert(a[m] == text);
                assert(text_lt(a[m], a[a.len() - 1]));
                assert(a.contains(text));
                let n = choose|n: int| 0 <= n < b.len() && b[n] == text;
                assert(right[n] == text);
            }
            if right.contains(text) {
                let n = choose|n: int| 0 <= n < right.len() && right[n] == text;
                assert(b[n] == text);
                assert(text_lt(b[n], b[b.len() - 1]));
                assert(b.contains(text));
                assert(a.contains(text));
                let m = choose|m: int| 0 <= m < a.len() && a[m] == text;
                assert(left[m] == text);
            }
        }
        assert forall|i: int, j: int| 0 <= i < j < left.len() implies text_lt(
            #[trigger] left[i],
            #[trigger] left[j],
        ) by {
            assert(a[i] == left[i] && a[j] == left[j]);
        }
        assert forall|i: int, j: int| 0 <= i < j < right.len() implies text_lt(
            #[trigger] right[i],
            #[trigger] right[j],
        ) by {
            assert(b[i] == right[i] && b[j] == right[j]);
        }
        lemma_increasing_texts(left, right);
        assert(a == left.push(x));
        assert(b == right.push(y));
    }
}

/// Whether a folder of some folders has an identity.
pub open spec fn has_identity(roots: Seq<RootParts>, identity: Seq<char>) -> bool {
    exists|k: int| 0 <= k < roots.len() && (#[trigger] roots[k]).identity == identity
}

/// The identities of the folders at some addresses.
pub open spec fn identity_set(uris: Seq<UrlParts>) -> Set<Seq<char>>
    decreases uris.len(),
{
    if uris.len() == 0 {
        Set::empty()
    } else {
        match root_identity(uris.last()) {
            Some(identity) => identity_set(uris.drop_last()).insert(identity),
            None => identity_set(uris.drop_last()),
        }
    }
}

proof fn lemma_root_kept(roots: Seq<RootParts>, root: RootParts)
    ensures
        forall|x: RootParts| #[trigger]
            roots.contains(x) ==> with_root(roots, root).contains(x),
        has_identity(with_root(roots, root), root.identity),
        !has_identity(roots, root.identity) ==> with_root(roots, root).contains(root),
    decreases roots.len(),
{
    let all = with_root(roots, root);
    if roots.len() == 0 || text_lt(roots.last().identity, root.identity) {
        assert(all[roots.len() as int] == root);
        assert forall|x: RootParts| #[trigger] roots.contains(x) implies all.contains(x) by {
            let k = choose|k: int| 0 <= k < roots.len() && roots[k] == x;
            assert(all[k] == x);
        }
    } else if roots.last().identity == root.identity {
        assert(roots[roots.len() - 1].identity == root.identity);
        assert(has_identity(roots, root.identity));
    } else {
        let init = roots.drop_last();
        lemma_root_kept(init, root);
        let front = with_root(init, root);
        assert(all == front.push(roots.last()));
        assert forall|x: RootParts| #[trigger] roots.contains(x) implies all.contains(x) by {
            let k = choose|k: int| 0 <= k < roots.len() && roots[k] == x;
            if k < init.len() {
                assert(init[k] == x);
                assert(init.contains(x));
                let m = choose|m: int| 0 <= m < front.len() && front[m] == x;
                assert(all[m] == x);
            } else {
                assert(all[front.len() as int] == x);
            }
        }
        let m = choose|m: int| 0 <= m < front.len() && (#[trigger] front[m]).identity
            == root.identity;
        assert(all[m].identity == root.identity);
        if !has_identity(roots, root.identity) {
            assert(!has_identity(init, root.identity)) by {
                if has_identity(init, root.identity) {
                    let k = choose|k: int|
                        0 <= k < init.len() && (#[trigger] init[k]).identity == root.identity;
                    assert(roots[k].identity == root.identity);
                }
            }
            let k = choose|k: int| 0 <= k < front.len() && front[k] == root;
            assert(all[k] == root);
        }
    }
}

/// The folders at some addresses have the identities of the addresses.
proof fn lemma_identities(uris: Seq<UrlParts>)
    ensures
        forall|identity: Seq<char>| #[trigger]
            has_identity(roots_at(uris), identity) <==> identity_set(uris).contains(identity),
        identity_set(uris).finite(),
    decreases uris.len(),
{
    if uris.len() > 0 {
        let init = uris.drop_last();
        lemma_identities(init);
        law_roots_ordered(init);
        match root_at(uris.last()) {
            Some(root) => {
                let before = roots_at(init);
                let all = with_root(before, root);
                lemma_with_root(before, root);
                lemma_root_kept(before, root);
                assert forall|identity: Seq<char>| #[trigger]
                    has_identity(all, identity) <==> identity_set(uris).contains(identity) by {
                    if has_identity(all, identity) {
                        let k = choose|k: int|
                            0 <= k < all.len() && (#[trigger] all[k]).identity == identity;
                        if all[k] != root {
                            let m = choose|m: int| 0 <= m < before.len() && before[m] == all[k];
                            assert(before[m].identity == identity);
                            assert(has_identity(before, identity));
                        }
                    }
                    if has_identity(before, identity) {
                        let m = choose|m: int|
                            0 <= m < before.len() && (#[trigger] before[m]).identity == identity;
                        assert(before.contains(before[m]));
                        assert(all.contains(before[m]));
                        let k = choose|k: int| 0 <= k < all.len() && all[k] == before[m];
                        assert(all[k].identity == identity);
                    }
                }
            },
            None => {},
        }
    }
}

proof fn lemma_root_count(uris: Seq<UrlParts>)
    ensures
        roots_at(uris).len() == identity_set(uris).len(),
        identity_set(uris).finite(),
{
    let roots = roots_at(uris);
    let ids = identities(roots);
    law_roots_ordered(uris);
    lemma_identities(uris);
    assert(ids.no_duplicates()) by {
        assert forall|i: int, j: int| 0 <= i < ids.len() && 0 <= j < ids.len() && i != j implies ids[i]
            != ids[j] by {
            lemma_text_lt_irreflexive(ids[i]);
            if i < j {
                assert(text_lt(roots[i].identity, roots[j].identity));
            } else {
                assert(text_lt(roots[j].identity, roots[i].identity));
            }
        }
    }
    ids.unique_seq_to_set();
    assert forall|identity: Seq<char>| ids.to_set().contains(identity) <==> identity_set(
        uris,
    ).contains(identity) by {
        assert(has_identity(roots, identity) <==> identity_set(uris).contains(identity));
        if ids.to_set().contains(identity) {
            let k = choose|k: int| 0 <= k < ids.len() && ids[k] == identity;
            assert(roots[k].identity == identity);
        }
        if has_identity(roots, identity) {
            let k = choose|k: int|
                0 <= k < roots.len() && (#[trigger] roots[k]).identity == identity;
            assert(ids[k] == identity);
        }
    }
    assert(ids.to_set() =~= identity_set(uris));
}

/// Addresses of the same identities give folders of the same identities, whatever their order.
proof fn lemma_same_identities(a: Seq<UrlParts>, b: Seq<UrlParts>)
    requires
        identity_set(a) == identity_set(b),
    ensures
        identities(roots_at(a)) == identities(roots_at(b)),
{
    let left = identities(roots_at(a));
    let right = identities(roots_at(b));
    law_roots_ordered(a);
    law_roots_ordered(b);
    lemma_identities(a);
    lemma_identities(b);
    assert(texts_increase(left)) by {
        assert forall|i: int, j: int| 0 <= i < j < left.len() implies text_lt(
            #[trigger] left[i],
            #[trigger] left[j],
        ) by {
            assert(text_lt(roots_at(a)[i].identity, roots_at(a)[j].identity));
        }
    }
    assert(texts_increase(right)) by {
        assert forall|i: int, j: int| 0 <= i < j < right.len() implies text_lt(
            #[trigger] right[i],
            #[trigger] right[j],
        ) by {
            assert(text_lt(roots_at(b)[i].identity, roots_at(b)[j].identity));
        }
    }
    assert forall|text: Seq<char>| #[trigger] left.contains(text) <==> right.contains(text) by {
        lemma_has_identity(roots_at(a), text);
        lemma_has_identity(roots_at(b), text);
        assert(has_identity(roots_at(a), text) <==> identity_set(a).contains(text));
        assert(has_identity(roots_at(b), text) <==> identity_set(b).contains(text));
    }
    lemma_increasing_texts(left, right);
}

proof fn lemma_has_identity(roots: Seq<RootParts>, identity: Seq<char>)
    ensures
        identities(roots).contains(identity) <==> has_identity(roots, identity),
{
    let ids = identities(roots);
    if ids.contains(identity) {
        let k = choose|k: int| 0 <= k < ids.len() && ids[k] == identity;
        assert(roots[k].identity == identity);
    }
    if has_identity(roots, identity) {
        let k = choose|k: int| 0 <= k < roots.len() && (#[trigger] roots[k]).identity == identity;
        assert(ids[k] == identity);
    }
}

/// After the workspace folders have been replaced there are as many of them as the addresses
/// have identities. Replacing them again by folders of the same identities, in whatever order,
/// changes nothing.
pub proof fn law_roots_settle(world: WorldModel, uris: Seq<UrlParts>, again: Seq<UrlParts>)
    requires
        identity_set(again) == identity_set(uris),
    ensures
        replaced_roots(world, uris).roots.len() == identity_set(uris).len(),
        identities(replaced_roots(world, uris).roots) == identities(roots_at(uris)),
        replaced_roots(replaced_roots(world, uris), again) == replaced_roots(world, uris),
{
    let roots = roots_at(uris);
    let after = replaced_roots(world, uris);
    lemma_root_count(uris);
    lemma_same_identities(uris, again);
    assert(identities(after.roots) == identities(roots)) by {
        if identities(world.roots) != identities(roots) {
            let named = WorldModel {
                namespaced: world.namespaced || roots.len() > 1 || (roots.len() > 0
                    && detaches_open(world, roots)),
                ..world
            };
            let moved = moved_documents(named, roots, named.documents);
            lemma_placed_roots(WorldModel { roots, ..lifted(named, moved) }, moved);
        }
    }
    assert(identities(after.roots).len() == after.roots.len());
    assert(identities(roots).len() == roots.len());
}

proof fn lemma_placed_roots(world: WorldModel, moved: Seq<MovedParts>)
    ensures
        placed(world, moved).roots == world.roots,
    decreases moved.len(),
{
    if moved.len() > 0 {
        lemma_placed_roots(world, moved.drop_last());
    }
}

/// Replacing the workspace folders adds no document, and each document that stays keeps its
/// address and its text.
pub proof fn law_replaced_roots_add_nothing(
    world: WorldModel,
    uris: Seq<UrlParts>,
    document: UrlParts,
)
    requires
        well_formed(world),
    ensures
        lookup(replaced_roots(world, uris).documents, document.text) is Some ==> lookup(
            replaced_roots(world, uris).documents,
            document.text,
        ) == lookup(world.documents, document.text),
{
    let roots = roots_at(uris);
    if identities(world.roots) != identities(roots) {
        let named = WorldModel {
            namespaced: world.namespaced || roots.len() > 1 || (roots.len() > 0
                && detaches_open(world, roots)),
            ..world
        };
        let moved = moved_documents(named, roots, named.documents);
        lemma_moved(named, roots, named.documents);
        lemma_lifted(named, moved);
        let start = WorldModel { roots, ..lifted(named, moved) };
        assert forall|i: int| 0 <= i < moved.len() implies (#[trigger] moved[i]).open == (lookup(
            start.open,
            moved[i].uri.text,
        ) is Some) by {}
        lemma_placed(start, moved, world);
        let set = placed(start, moved);
        assert(replaced_roots(world, uris).documents == set.documents);
    }
}

/// Whether addresses have identities, no two the same.
pub open spec fn distinct_identities(uris: Seq<UrlParts>) -> bool {
    &&& forall|i: int| 0 <= i < uris.len() ==> root_identity(#[trigger] uris[i]) is Some
    &&& forall|i: int, j: int|
        0 <= i < j < uris.len() ==> root_identity(#[trigger] uris[i]) != root_identity(
            #[trigger] uris[j],
        )
}

/// The folders at addresses of distinct identities are those of the addresses.
proof fn lemma_distinct_roots(uris: Seq<UrlParts>)
    requires
        distinct_identities(uris),
    ensures
        forall|root: RootParts| #[trigger]
            roots_at(uris).contains(root) <==> uris.contains(root.uri) && root_at(root.uri) == Some(
                root,
            ),
        roots_at(uris).len() == uris.len(),
    decreases uris.len(),
{
    if uris.len() > 0 {
        let init = uris.drop_last();
        let last = uris.last();
        assert forall|i: int| 0 <= i < init.len() implies root_identity(
            #[trigger] init[i],
        ) is Some by {
            assert(uris[i] == init[i]);
        }
        assert forall|i: int, j: int| 0 <= i < j < init.len() implies root_identity(
            #[trigger] init[i],
        ) != root_identity(#[trigger] init[j]) by {
            assert(uris[i] == init[i] && uris[j] == init[j]);
        }
        lemma_distinct_roots(init);
        assert(root_identity(uris[uris.len() - 1]) is Some);
        let root = root_at(last)->0;
        let before = roots_at(init);
        let all = with_root(before, root);
        law_roots_ordered(init);
        lemma_with_root(before, root);
        lemma_root_kept(before, root);
        assert(!has_identity(before, root.identity)) by {
            if has_identity(before, root.identity) {
                let k = choose|k: int|
                    0 <= k < before.len() && (#[trigger] before[k]).identity == root.identity;
                assert(before.contains(before[k]));
                let m = choose|m: int| 0 <= m < init.len() && init[m] == before[k].uri;
                assert(uris[m] == before[k].uri);
                assert(root_identity(uris[m]) != root_identity(uris[uris.len() - 1]));
            }
        }
        lemma_root_added(before, root);
        assert forall|x: RootParts| #[trigger]
            all.contains(x) <==> uris.contains(x.uri) && root_at(x.uri) == Some(x) by {
            if all.contains(x) {
                let k = choose|k: int| 0 <= k < all.len() && all[k] == x;
                if x != root {
                    assert(before.contains(all[k]));
                    let m = choose|m: int| 0 <= m < init.len() && init[m] == x.uri;
                    assert(uris[m] == x.uri);
                } else {
                    assert(uris[uris.len() - 1] == x.uri);
                }
            }
            if uris.contains(x.uri) && root_at(x.uri) == Some(x) {
                let m = choose|m: int| 0 <= m < uris.len() && uris[m] == x.uri;
                if m < init.len() {
                    assert(init[m] == x.uri);
                    assert(before.contains(x));
                }
            }
        }
    }
}

proof fn lemma_root_added(roots: Seq<RootParts>, root: RootParts)
    requires
        !has_identity(roots, root.identity),
    ensures
        with_root(roots, root).len() == roots.len() + 1,
    decreases roots.len(),
{
    if roots.len() > 0 {
        assert(roots[roots.len() - 1].identity != root.identity);
        let init = roots.drop_last();
        assert(!has_identity(init, root.identity)) by {
            if has_identity(init, root.identity) {
                let k = choose|k: int|
                    0 <= k < init.len() && (#[trigger] init[k]).identity == root.identity;
                assert(roots[k].identity == root.identity);
            }
        }
        lemma_root_added(init, root);
    }
}

/// Folders in the order of their identities are known by what they hold.
proof fn lemma_increasing_roots(a: Seq<RootParts>, b: Seq<RootParts>)
    requires
        identities_increase(a),
        identities_increase(b),
        forall|root: RootParts| #[trigger] a.contains(root) <==> b.contains(root),
    ensures
        a == b,
{
    let left = identities(a);
    let right = identities(b);
    assert forall|i: int, j: int| 0 <= i < j < left.len() implies text_lt(
        #[trigger] left[i],
        #[trigger] left[j],
    ) by {
        assert(text_lt(a[i].identity, a[j].identity));
    }
    assert forall|i: int, j: int| 0 <= i < j < right.len() implies text_lt(
        #[trigger] right[i],
        #[trigger] right[j],
    ) by {
        assert(text_lt(b[i].identity, b[j].identity));
    }
    assert forall|text: Seq<char>| #[trigger] left.contains(text) <==> right.contains(text) by {
        if left.contains(text) {
            let i = choose|i: int| 0 <= i < left.len() && left[i] == text;
            assert(a.contains(a[i]));
            assert(b.contains(a[i]));
            let j = choose|j: int| 0 <= j < b.len() && b[j] == a[i];
            assert(right[j] == text);
        }
        if right.contains(text) {
            let j = choose|j: int| 0 <= j < right.len() && right[j] == text;
            assert(b.contains(b[j]));
            assert(a.contains(b[j]));
            let i = choose|i: int| 0 <= i < a.len() && a[i] == b[j];
            assert(left[i] == text);
        }
    }
    lemma_increasing_texts(left, right);
    assert(left.len() == a.len() && right.len() == b.len());
    assert forall|i: int| 0 <= i < a.len() implies a[i] == b[i] by {
        assert(a.contains(a[i]));
        let j = choose|j: int| 0 <= j < b.len() && b[j] == a[i];
        assert(left[i] == a[i].identity && right[i] == b[i].identity);
        lemma_text_lt_irreflexive(a[i].identity);
        if i < j {
            assert(text_lt(b[i].identity, b[j].identity));
        } else if j < i {
            assert(text_lt(b[j].identity, b[i].identity));
        }
    }
}

/// The texts of the addresses of some files.
pub open spec fn file_texts(files: Seq<(UrlParts, Seq<char>)>) -> Set<Seq<char>>
    decreases files.len(),
{
    if files.len() == 0 {
        Set::empty()
    } else {
        file_texts(files.drop_last()).insert(files.last().0.text)
    }
}

proof fn lemma_file_texts(files: Seq<(UrlParts, Seq<char>)>)
    ensures
        file_texts(files).finite(),
        forall|text: Seq<char>| #[trigger]
            file_texts(files).contains(text) <==> names_file(files, text),
    decreases files.len(),
{
    if files.len() > 0 {
        let init = files.drop_last();
        lemma_file_texts(init);
        assert forall|text: Seq<char>| #[trigger]
            file_texts(files).contains(text) <==> names_file(files, text) by {
            if names_file(files, text) {
                let k = choose|k: int| 0 <= k < files.len() && (#[trigger] files[k]).0.text == text;
                if k < init.len() {
                    assert(init[k].0.text == text);
                    assert(names_file(init, text));
                }
            }
            if names_file(init, text) {
                let k = choose|k: int| 0 <= k < init.len() && (#[trigger] init[k]).0.text == text;
                assert(files[k].0.text == text);
            }
            if files.last().0.text == text {
                assert(files[files.len() - 1].0.text == text);
            }
        }
    }
}

/// Whether a file is below one of some folders, and its path below each folder that it is below
/// can be cleaned.
pub open spec fn is_below(uris: Seq<UrlParts>, uri: UrlParts) -> bool {
    &&& exists|g: int| 0 <= g < uris.len() && path_below(#[trigger] uris[g], uri) is Some
    &&& forall|g: int|
        0 <= g < uris.len() ==> (path_below(#[trigger] uris[g], uri) matches Some(path)
            ==> relative_path(path) is Some)
}

/// Whether all files of some folders are below the folders, and files of one text are one file.
pub open spec fn files_below(folders: Seq<(UrlParts, Seq<(UrlParts, Seq<char>)>)>) -> bool {
    let files = all_files(folders);
    &&& forall|i: int| 0 <= i < files.len() ==> is_below(folder_uris(folders), (#[trigger] files[i]).0)
    &&& forall|i: int, j: int|
        0 <= i < files.len() && 0 <= j < files.len() && (#[trigger] files[i]).0.text == (
        #[trigger] files[j]).0.text ==> files[i].0 == files[j].0
}

/// Whether the places of some files have addresses. All paths have one that are short enough.
pub open spec fn places_addressed(world: WorldModel, files: Seq<(UrlParts, Seq<char>)>) -> bool {
    forall|i: int|
        0 <= i < files.len() ==> (folder_path(world, (#[trigger] files[i]).0) matches Some(path)
            ==> vfs_key(path) is Some)
}

/// The folder that a file belongs to is one that it is below, and there is one where it is below
/// any.
proof fn lemma_owner_below(roots: Seq<RootParts>, uri: UrlParts)
    ensures
        owning_root(roots, uri) matches Some(i) ==> 0 <= i < roots.len() && path_below(
            roots[i].uri,
            uri,
        ) is Some,
        below_any(roots, uri) ==> owning_root(roots, uri) is Some,
    decreases roots.len(),
{
    if roots.len() > 0 {
        let init = roots.drop_last();
        lemma_owner_below(init, uri);
        if below_any(roots, uri) && path_below(roots.last().uri, uri) is None {
            let i = choose|i: int|
                0 <= i < roots.len() && path_below((#[trigger] roots[i]).uri, uri) is Some;
            assert(init[i] == roots[i]);
            assert(below_any(init, uri));
        }
    }
}

/// A file that is below one of some folders has a place below them.
proof fn lemma_below_placed(uris: Seq<UrlParts>, uri: UrlParts)
    requires
        distinct_identities(uris),
        uris.len() > 1,
        is_below(uris, uri),
    ensures
        folder_path(replaced_roots(empty_world(), uris), uri) is Some,
{
    let roots = roots_at(uris);
    lemma_first_roots(uris);
    lemma_distinct_roots(uris);
    let g = choose|g: int| 0 <= g < uris.len() && path_below(#[trigger] uris[g], uri) is Some;
    assert(root_identity(uris[g]) is Some);
    let root = root_at(uris[g])->0;
    assert(uris.contains(uris[g]));
    assert(roots.contains(root));
    let k = choose|k: int| 0 <= k < roots.len() && roots[k] == root;
    assert(path_below(roots[k].uri, uri) is Some);
    lemma_owner_below(roots, uri);
    let i = owning_root(roots, uri)->0;
    assert(roots.contains(roots[i]));
    let h = choose|h: int| 0 <= h < uris.len() && uris[h] == roots[i].uri;
    assert(path_below(uris[h], uri) is Some);
}

/// Whether a file has a place below one of the folders of a world, with an address.
pub open spec fn has_place(world: WorldModel, uri: UrlParts) -> bool {
    match folder_path(world, uri) {
        Some(path) => vfs_key(path) is Some,
        None => false,
    }
}

/// Whether all of some files have a place below the folders of a world, and files of one text
/// are one file.
pub open spec fn files_placed(world: WorldModel, files: Seq<(UrlParts, Seq<char>)>) -> bool {
    &&& forall|i: int|
        0 <= i < files.len() ==> has_place(world, (#[trigger] files[i]).0)
    &&& forall|i: int, j: int|
        0 <= i < files.len() && 0 <= j < files.len() && (#[trigger] files[i]).0.text == (
        #[trigger] files[j]).0.text ==> files[i].0 == files[j].0
}

/// Files that are loaded into a world without documents get the places that its folders give
/// them, and each is counted once.
proof fn lemma_loaded_paths(world: WorldModel, files: Seq<(UrlParts, Seq<char>)>)
    requires
        world.roots.len() > 0,
        world.open.len() == 0,
        world.client_to_vfs.len() == 0,
        files_placed(world, files),
    ensures
        ({
            let (after, count) = loaded(world, files);
            &&& count == file_texts(files).len()
            &&& after.roots == world.roots
            &&& after.namespaced == world.namespaced
            &&& after.open == world.open
            &&& forall|i: int|
                0 <= i < files.len() ==> lookup(
                    after.client_to_vfs,
                    (#[trigger] files[i]).0.text,
                ) == folder_path(world, files[i].0)
            &&& forall|text: Seq<char>|
                !names_file(files, text) ==> #[trigger] lookup(after.client_to_vfs, text) is None
        }),
    decreases files.len(),
{
    if files.len() > 0 {
        let init = files.drop_last();
        let (uri, text) = files.last();
        assert forall|i: int| 0 <= i < init.len() implies has_place(
            world,
            (#[trigger] init[i]).0,
        ) by {
            assert(files[i] == init[i]);
        }
        assert forall|i: int, j: int|
            0 <= i < init.len() && 0 <= j < init.len() && (#[trigger] init[i]).0.text == (
            #[trigger] init[j]).0.text implies init[i].0 == init[j].0 by {
            assert(files[i] == init[i] && files[j] == init[j]);
        }
        lemma_loaded_paths(world, init);
        lemma_file_texts(init);
        let (before, count) = loaded(world, init);
        let (after, all) = loaded(world, files);
        assert(files[files.len() - 1] == (uri, text));
        assert(folder_path(before, uri) == folder_path(world, uri));
        assert(file_texts(init).contains(uri.text) <==> names_file(init, uri.text));
        if names_file(init, uri.text) {
            let k = choose|k: int| 0 <= k < init.len() && (#[trigger] init[k]).0.text == uri.text;
            assert(files[k] == init[k]);
            assert(init[k].0 == uri);
            assert(file_texts(files) =~= file_texts(init));
            assert(all == count);
        } else {
            assert(lookup(before.client_to_vfs, uri.text) is None);
            lemma_put(before.client_to_vfs, uri.text, folder_path(world, uri)->0);
            assert(all == count + 1);
        }
        assert forall|i: int| 0 <= i < files.len() implies lookup(
            after.client_to_vfs,
            (#[trigger] files[i]).0.text,
        ) == folder_path(world, files[i].0) by {
            if i < init.len() {
                assert(files[i] == init[i]);
            }
        }
        assert forall|other: Seq<char>| !names_file(files, other) implies #[trigger] lookup(
            after.client_to_vfs,
            other,
        ) is None by {
            assert(!names_file(init, other)) by {
                if names_file(init, other) {
                    let k = choose|k: int|
                        0 <= k < init.len() && (#[trigger] init[k]).0.text == other;
                    assert(files[k].0.text == other);
                }
            }
            assert(files[files.len() - 1].0.text != other);
        }
    }
}

/// The files of several folders are those of each of them.
proof fn lemma_all_files(
    folders: Seq<(UrlParts, Seq<(UrlParts, Seq<char>)>)>,
    file: (UrlParts, Seq<char>),
)
    ensures
        all_files(folders).contains(file) <==> exists|i: int|
            0 <= i < folders.len() && (#[trigger] folders[i]).1.contains(file),
    decreases folders.len(),
{
    if folders.len() > 0 {
        let init = folders.drop_last();
        lemma_all_files(init, file);
        let front = all_files(init);
        let last = folders.last().1;
        let all = all_files(folders);
        if all.contains(file) {
            let k = choose|k: int| 0 <= k < all.len() && all[k] == file;
            if k < front.len() {
                assert(front[k] == file);
                let i = choose|i: int|
                    0 <= i < init.len() && (#[trigger] init[i]).1.contains(file);
                assert(folders[i].1.contains(file));
            } else {
                assert(last[k - front.len()] == file);
                assert(folders[folders.len() - 1].1.contains(file));
            }
        }
        if exists|i: int| 0 <= i < folders.len() && (#[trigger] folders[i]).1.contains(file) {
            let i = choose|i: int|
                0 <= i < folders.len() && (#[trigger] folders[i]).1.contains(file);
            if i < init.len() {
                assert(init[i].1.contains(file));
                let k = choose|k: int| 0 <= k < front.len() && front[k] == file;
                assert(all[k] == file);
            } else {
                let k = choose|k: int| 0 <= k < last.len() && last[k] == file;
                assert(all[front.len() + k] == file);
            }
        }
    }
}

/// The world that has loaded some folders first of all.
pub open spec fn first_loaded(folders: Seq<(UrlParts, Seq<(UrlParts, Seq<char>)>)>) -> (
    WorldModel,
    nat,
) {
    loaded(replaced_roots(empty_world(), folder_uris(folders)), all_files(folders))
}

/// A world that loads several folders first of all has just these folders.
proof fn lemma_first_roots(uris: Seq<UrlParts>)
    requires
        distinct_identities(uris),
        uris.len() > 1,
    ensures
        replaced_roots(empty_world(), uris) == (WorldModel {
            roots: roots_at(uris),
            namespaced: true,
            ..empty_world()
        }),
{
    let world = empty_world();
    let roots = roots_at(uris);
    lemma_distinct_roots(uris);
    assert(identities(world.roots).len() == 0);
    assert(identities(roots).len() == roots.len());
    let named = WorldModel { namespaced: true, ..world };
    assert(moved_documents(named, roots, named.documents) == Seq::<MovedParts>::empty());
}

/// Folders of distinct identities that are loaded first of all, in whatever order, give each file
/// the same place, below a name of its folder, and count each file once. Files of different
/// folders never share a place.
pub proof fn law_folders_in_any_order(
    folders: Seq<(UrlParts, Seq<(UrlParts, Seq<char>)>)>,
    others: Seq<(UrlParts, Seq<(UrlParts, Seq<char>)>)>,
    i: int,
    j: int,
)
    requires
        folders.len() > 1,
        distinct_identities(folder_uris(folders)),
        distinct_identities(folder_uris(others)),
        forall|folder: (UrlParts, Seq<(UrlParts, Seq<char>)>)| #[trigger]
            folders.contains(folder) <==> others.contains(folder),
        files_below(folders),
        places_addressed(replaced_roots(empty_world(), folder_uris(folders)), all_files(folders)),
        0 <= i < all_files(folders).len(),
        0 <= j < all_files(folders).len(),
    ensures
        ({
            let (world, count) = first_loaded(folders);
            let (other, again) = first_loaded(others);
            let a = all_files(folders)[i].0;
            let b = all_files(folders)[j].0;
            &&& count == again
            &&& count == file_texts(all_files(folders)).len()
            &&& world.roots == other.roots
            &&& known_path(world, a) is Some
            &&& known_path(world, a) == known_path(other, a)
            &&& has_prefix(known_path(world, a)->0, "/main/__solcore_workspace__/"@)
            &&& known_path(world, a) == known_path(world, b) ==> owning_root(world.roots, a)
                == owning_root(world.roots, b) && owned_path(world.roots, a) == owned_path(
                world.roots,
                b,
            )
        }),
{
    let start = replaced_roots(empty_world(), folder_uris(folders));
    let files = all_files(folders);
    let mixed = all_files(others);
    assert(files_placed(start, files)) by {
        assert forall|k: int| 0 <= k < files.len() implies has_place(
            start,
            (#[trigger] files[k]).0,
        ) by {
            lemma_below_placed(folder_uris(folders), files[k].0);
        }
    }
    lemma_same_start(folders, others);
    lemma_same_folder_uris(folders, others);
    lemma_first_roots(folder_uris(folders));
    assert forall|file: (UrlParts, Seq<char>)| #[trigger] files.contains(file) <==> mixed.contains(
        file,
    ) by {
        lemma_same_files(folders, others, file);
        lemma_same_files(others, folders, file);
    }
    lemma_files_placed(start, files, mixed);
    lemma_distinct_roots(folder_uris(folders));
    lemma_loaded_paths(start, files);
    lemma_loaded_paths(start, mixed);
    lemma_same_texts(files, mixed);
    let world = first_loaded(folders).0;
    let other = first_loaded(others).0;
    let a = files[i].0;
    let b = files[j].0;
    assert(files.contains(files[i]));
    let m = choose|m: int| 0 <= m < mixed.len() && mixed[m] == files[i];
    assert(lookup(other.client_to_vfs, mixed[m].0.text) == folder_path(start, a));
    assert(lookup(world.client_to_vfs, files[i].0.text) == folder_path(start, a));
    assert(lookup(world.client_to_vfs, files[j].0.text) == folder_path(start, b));
    assert(has_place(start, files[i].0));
    assert(has_place(start, files[j].0));
    law_roots_ordered(folder_uris(folders));
    lemma_places_apart(start, a, b);
}

/// A file below one of several folders has a place below a name of its folder, which no file of
/// another folder has.
proof fn lemma_places_apart(world: WorldModel, a: UrlParts, b: UrlParts)
    requires
        world.namespaced,
        roots_named(world.roots),
        identities_increase(world.roots),
        folder_path(world, a) is Some,
        folder_path(world, b) is Some,
    ensures
        has_prefix(folder_path(world, a)->0, "/main/__solcore_workspace__/"@),
        folder_path(world, a) == folder_path(world, b) ==> owning_root(world.roots, a)
            == owning_root(world.roots, b) && owned_path(world.roots, a) == owned_path(
            world.roots,
            b,
        ),
{
    let head = "/main/__solcore_workspace__/"@;
    assert(folder_path(world, a)->0.take(head.len() as int) == head);
    if folder_path(world, a) == folder_path(world, b) {
        law_folders_isolated(world, a, b);
        lemma_owner(world.roots, a);
        lemma_owner(world.roots, b);
        let x = owning_root(world.roots, a)->0;
        let y = owning_root(world.roots, b)->0;
        lemma_text_lt_irreflexive(world.roots[x].identity);
        if x < y {
            assert(text_lt(world.roots[x].identity, world.roots[y].identity));
        } else if y < x {
            assert(text_lt(world.roots[y].identity, world.roots[x].identity));
        }
    }
}

proof fn lemma_files_placed(
    world: WorldModel,
    files: Seq<(UrlParts, Seq<char>)>,
    mixed: Seq<(UrlParts, Seq<char>)>,
)
    requires
        files_placed(world, files),
        forall|file: (UrlParts, Seq<char>)| #[trigger]
            files.contains(file) <==> mixed.contains(file),
    ensures
        files_placed(world, mixed),
{
    assert forall|k: int| 0 <= k < mixed.len() implies has_place(
        world,
        (#[trigger] mixed[k]).0,
    ) by {
        assert(mixed.contains(mixed[k]));
        assert(files.contains(mixed[k]));
        let m = choose|m: int| 0 <= m < files.len() && files[m] == mixed[k];
        assert(has_place(world, files[m].0));
    }
    assert forall|k: int, n: int|
        0 <= k < mixed.len() && 0 <= n < mixed.len() && (#[trigger] mixed[k]).0.text == (
        #[trigger] mixed[n]).0.text implies mixed[k].0 == mixed[n].0 by {
        assert(mixed.contains(mixed[k]) && mixed.contains(mixed[n]));
        assert(files.contains(mixed[k]) && files.contains(mixed[n]));
        let x = choose|x: int| 0 <= x < files.len() && files[x] == mixed[k];
        let y = choose|y: int| 0 <= y < files.len() && files[y] == mixed[n];
        assert(files[x].0.text == files[y].0.text);
    }
}

/// Folders that are loaded first of all give the same world whatever their order.
proof fn lemma_same_start(
    folders: Seq<(UrlParts, Seq<(UrlParts, Seq<char>)>)>,
    others: Seq<(UrlParts, Seq<(UrlParts, Seq<char>)>)>,
)
    requires
        folders.len() > 1,
        distinct_identities(folder_uris(folders)),
        distinct_identities(folder_uris(others)),
        forall|folder: (UrlParts, Seq<(UrlParts, Seq<char>)>)| #[trigger]
            folders.contains(folder) <==> others.contains(folder),
    ensures
        replaced_roots(empty_world(), folder_uris(folders)) == replaced_roots(
            empty_world(),
            folder_uris(others),
        ),
{
    let uris = folder_uris(folders);
    let alias = folder_uris(others);
    lemma_distinct_roots(uris);
    lemma_distinct_roots(alias);
    law_roots_ordered(uris);
    law_roots_ordered(alias);
    lemma_same_folder_uris(folders, others);
    assert forall|root: RootParts| #[trigger] roots_at(uris).contains(root) <==> roots_at(
        alias,
    ).contains(root) by {
        assert(uris.contains(root.uri) <==> alias.contains(root.uri));
    }
    lemma_increasing_roots(roots_at(uris), roots_at(alias));
    lemma_first_roots(uris);
    lemma_first_roots(alias);
}

proof fn lemma_same_folder_uris(
    folders: Seq<(UrlParts, Seq<(UrlParts, Seq<char>)>)>,
    others: Seq<(UrlParts, Seq<(UrlParts, Seq<char>)>)>,
)
    requires
        distinct_identities(folder_uris(folders)),
        distinct_identities(folder_uris(others)),
        forall|folder: (UrlParts, Seq<(UrlParts, Seq<char>)>)| #[trigger]
            folders.contains(folder) <==> others.contains(folder),
    ensures
        forall|uri: UrlParts| #[trigger]
            folder_uris(folders).contains(uri) <==> folder_uris(others).contains(uri),
        folders.len() > 1 ==> others.len() > 1,
{
    let uris = folder_uris(folders);
    let alias = folder_uris(others);
    assert forall|uri: UrlParts| #[trigger] uris.contains(uri) <==> alias.contains(uri) by {
        if uris.contains(uri) {
            let k = choose|k: int| 0 <= k < uris.len() && uris[k] == uri;
            assert(folders.contains(folders[k]));
            let m = choose|m: int| 0 <= m < others.len() && others[m] == folders[k];
            assert(alias[m] == uri);
        }
        if alias.contains(uri) {
            let k = choose|k: int| 0 <= k < alias.len() && alias[k] == uri;
            assert(others.contains(others[k]));
            assert(folders.contains(others[k]));
            let m = choose|m: int| 0 <= m < folders.len() && folders[m] == others[k];
            assert(uris[m] == uri);
        }
    }
    if folders.len() > 1 {
        assert(folders.contains(folders[0]) && folders.contains(folders[1]));
        let x = choose|x: int| 0 <= x < others.len() && others[x] == folders[0];
        let y = choose|y: int| 0 <= y < others.len() && others[y] == folders[1];
        assert(root_identity(uris[0]) != root_identity(uris[1]));
        assert(x != y);
    }
}

proof fn lemma_same_files(
    folders: Seq<(UrlParts, Seq<(UrlParts, Seq<char>)>)>,
    others: Seq<(UrlParts, Seq<(UrlParts, Seq<char>)>)>,
    file: (UrlParts, Seq<char>),
)
    requires
        forall|folder: (UrlParts, Seq<(UrlParts, Seq<char>)>)| #[trigger]
            folders.contains(folder) <==> others.contains(folder),
    ensures
        all_files(folders).contains(file) ==> all_files(others).contains(file),
{
    lemma_all_files(folders, file);
    lemma_all_files(others, file);
    if all_files(folders).contains(file) {
        let i = choose|i: int| 0 <= i < folders.len() && (#[trigger] folders[i]).1.contains(file);
        assert(folders.contains(folders[i]));
        let k = choose|k: int| 0 <= k < others.len() && others[k] == folders[i];
        assert(others[k].1.contains(file));
    }
}

proof fn lemma_same_texts(a: Seq<(UrlParts, Seq<char>)>, b: Seq<(UrlParts, Seq<char>)>)
    requires
        forall|file: (UrlParts, Seq<char>)| #[trigger] a.contains(file) <==> b.contains(file),
    ensures
        file_texts(a) == file_texts(b),
{
    lemma_file_texts(a);
    lemma_file_texts(b);
    assert forall|text: Seq<char>| file_texts(a).contains(text) <==> file_texts(b).contains(
        text,
    ) by {
        if names_file(a, text) {
            let k = choose|k: int| 0 <= k < a.len() && (#[trigger] a[k]).0.text == text;
            assert(a.contains(a[k]));
            let m = choose|m: int| 0 <= m < b.len() && b[m] == a[k];
            assert(b[m].0.text == text);
        }
        if names_file(b, text) {
            let k = choose|k: int| 0 <= k < b.len() && (#[trigger] b[k]).0.text == text;
            assert(b.contains(b[k]));
            assert(a.contains(b[k]));
            let m = choose|m: int| 0 <= m < a.len() && a[m] == b[k];
            assert(a[m].0.text == text);
        }
    }
    assert(file_texts(a) =~= file_texts(b));
}

/// A document belongs to the innermost folder that holds it: no folder that holds it has a longer
/// path. It belongs to none only where none holds it.
pub proof fn law_innermost_folder(roots: Seq<RootParts>, uri: UrlParts)
    ensures
        owning_root(roots, uri) is None <==> forall|i: int|
            0 <= i < roots.len() ==> path_below((#[trigger] roots[i]).uri, uri) is None,
        owning_root(roots, uri) matches Some(at) ==> 0 <= at < roots.len() && path_below(
            roots[at].uri,
            uri,
        ) is Some && forall|i: int|
            0 <= i < roots.len() && path_below((#[trigger] roots[i]).uri, uri) is Some
                ==> root_path_len(roots[i].uri) <= root_path_len(roots[at].uri),
    decreases roots.len(),
{
    if roots.len() > 0 {
        let front = roots.drop_last();
        law_innermost_folder(front, uri);
        assert forall|i: int| 0 <= i < front.len() implies #[trigger] roots[i] == front[i] by {}
        assert(roots[roots.len() - 1] == roots.last());
        if owning_root(roots, uri) is None {
            assert forall|i: int| 0 <= i < roots.len() implies path_below(
                (#[trigger] roots[i]).uri,
                uri,
            ) is None by {
                if i < front.len() {
                    assert(path_below(front[i].uri, uri) is None);
                }
            }
        } else {
            let at = owning_root(roots, uri)->0;
            assert forall|i: int|
                0 <= i < roots.len() && path_below((#[trigger] roots[i]).uri, uri) is Some implies root_path_len(
            roots[i].uri) <= root_path_len(roots[at].uri) by {
                if i < front.len() {
                    assert(path_below(front[i].uri, uri) is Some);
                }
            }
        }
    }
}

/// The document that takes the place of the entry is an open one that passes the test, and none
/// that does has an address that comes before its own. There is none only where none passes.
pub proof fn law_next_entry(open: Seq<(Seq<char>, UrlParts)>, test: spec_fn(UrlParts) -> bool)
    ensures
        least_open(open, test) is None <==> forall|i: int|
            0 <= i < open.len() ==> !test((#[trigger] open[i]).1),
        least_open(open, test) matches Some(uri) ==> test(uri) && (exists|i: int|
            0 <= i < open.len() && (#[trigger] open[i]).1 == uri) && forall|i: int|
            0 <= i < open.len() && test((#[trigger] open[i]).1) ==> !text_lt(
                open[i].1.text,
                uri.text,
            ),
    decreases open.len(),
{
    if open.len() > 0 {
        let front = open.drop_last();
        let last = open.last().1;
        law_next_entry(front, test);
        assert forall|i: int| 0 <= i < front.len() implies #[trigger] open[i] == front[i] by {}
        assert(open[open.len() - 1].1 == last);
        lemma_text_lt_irreflexive(last.text);
        if least_open(open, test) is None {
            assert forall|i: int| 0 <= i < open.len() implies !test((#[trigger] open[i]).1) by {
                if i < front.len() {
                    assert(!test(front[i].1));
                }
            }
        } else {
            let uri = least_open(open, test)->0;
            if uri == last && test(last) {
                assert(open[open.len() - 1].1 == uri);
            } else {
                let k = choose|k: int| 0 <= k < front.len() && (#[trigger] front[k]).1 == uri;
                assert(open[k].1 == uri);
            }
            assert forall|i: int| 0 <= i < open.len() && test((#[trigger] open[i]).1) implies !text_lt(
                open[i].1.text,
                uri.text,
            ) by {
                if i < front.len() {
                    assert(test(front[i].1));
                    let earlier = least_open(front, test)->0;
                    assert(!text_lt(front[i].1.text, earlier.text));
                    if uri == last && uri != earlier {
                        if text_lt(front[i].1.text, last.text) {
                            lemma_text_lt_transitive(front[i].1.text, last.text, earlier.text);
                        }
                    }
                }
            }
        }
    }
}

/// A change of a range puts its text in the place of the bytes between the two positions and keeps
/// all others. It does not apply where a position is not in the text, where the range ends before
/// it starts, or where the replaced text has not the stated length. A change without a range
/// replaces the whole text.
pub proof fn law_text_changed(text: Seq<char>, change: TextDocumentContentChangeEvent)
    requires
        utf8(text).len() < u32::MAX,
    ensures
        change.range is None ==> changed_text(text, change) == Some(change.text@),
        change.range matches Some(range) ==> {
            &&& byte_at(text, range.start) is None || byte_at(text, range.end) is None
                ==> changed_text(text, change) is None
            &&& byte_at(text, range.start) matches Some(start) ==> (byte_at(
                text,
                range.end,
            ) matches Some(end) ==> (start > end ==> changed_text(text, change) is None) && (start
                <= end && change.range_length is None ==> changed_text(text, change) is Some) && (
            changed_text(text, change) matches Some(after) ==> start <= end && utf8(after) == utf8(
                text,
            ).take(start as int) + utf8(change.text@) + utf8(text).skip(end as int)))
        },
{
    if change.range is Some {
        let range = change.range->0;
        if byte_at(text, range.start) is Some && byte_at(text, range.end) is Some {
            let start = byte_at(text, range.start)->0;
            let end = byte_at(text, range.end)->0;
            law_offset_round_trip(text, range.start);
            law_offset_round_trip(text, range.end);
            lemma_cut(text, start as int);
            lemma_cut(text, end as int);
            let from = char_index(text, start as int);
            let to = char_index(text, end as int);
            lemma_utf8_concat(text.take(from), change.text@);
            lemma_utf8_concat(text.take(from) + change.text@, text.skip(to));
        }
    }
}

/// Changes apply one after the other: each to the text that the ones before it left.
pub proof fn law_changes_in_order(
    text: Seq<char>,
    changes: Seq<TextDocumentContentChangeEvent>,
    change: TextDocumentContentChangeEvent,
)
    ensures
        edited_text(text, Seq::empty()) == Some(text),
        edited_text(text, changes) matches Some(before) ==> edited_text(text, changes.push(change))
            == changed_text(before, change),
        edited_text(text, changes) is None ==> edited_text(text, changes.push(change)) is None,
{
    assert(changes.push(change).drop_last() == changes);
}

} // verus!
