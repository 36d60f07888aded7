//! Paths of documents in the compiler's virtual file system.
//!
//! The virtual file system keeps user files below `/main/`. Real workspace files are mapped to
//! virtual paths by the address of the workspace folder that they belong to.
use vstd::prelude::*;
use vstd::slice::slice_subrange;
use vstd::string::*;

use crate::text::{
    decimal, decimal_text, from_chars, has_prefix, starts_with, str_eq, str_starts_with, to_chars,
    utf8,
};
use crate::url::{
    encoded_len, parsed_url, parts_of, percent_decode, percent_decoded_text, set_url_path, text_of,
    url_text_with_path, Url, UrlParts,
};

verus! {

/// The virtual path of a `file:///main/<path>` address.
pub open spec fn main_path(uri: UrlParts) -> Option<Seq<char>> {
    if uri.scheme == "file"@ {
        match percent_decoded_text(uri.path) {
            Some(path) => if has_prefix(path, "/main/"@) {
                Some(path)
            } else {
                None
            },
            None => None,
        }
    } else {
        None
    }
}

/// Maps a client `file:///main/<path>` address to a virtual path.
pub fn uri_to_vfs_path(uri: &Url) -> (path: Option<String>)
    ensures
        text_of(path) == main_path(uri@),
{
    if !str_eq(uri.scheme(), "file") {
        return None;
    }
    match percent_decode(uri.path()) {
        Some(path) => if str_starts_with(path.as_str(), "/main/") {
            Some(path)
        } else {
            None
        },
        None => None,
    }
}

/// Maps the address of a virtual source file to the client address.
pub fn vfs_url_to_client_uri(vfs_url: &str) -> (uri: Option<Url>)
    ensures
        parts_of(uri) == parsed_url(vfs_url@),
{
    Url::parse(vfs_url)
}

pub open spec fn is_ascii_letter(c: char) -> bool {
    'a' <= c <= 'z' || 'A' <= c <= 'Z'
}

/// An ASCII letter in upper case, any other character as it is.
pub open spec fn ascii_upper(c: char) -> char {
    if 'a' <= c <= 'z' {
        (c as u8 - 32) as char
    } else {
        c
    }
}

fn ascii_uppercase(c: char) -> (upper: char)
    ensures
        upper == ascii_upper(c),
{
    if 'a' <= c && c <= 'z' {
        (c as u8 - 32) as char
    } else {
        c
    }
}

/// Whether a path begins with a slash, a drive letter and a colon.
pub open spec fn has_drive(path: Seq<char>) -> bool {
    path.len() >= 3 && path[0] == '/' && is_ascii_letter(path[1]) && path[2] == ':'
}

/// The decoded path of an address, with the drive letter of a file address in upper case.
pub open spec fn normal_path(uri: UrlParts) -> Option<Seq<char>> {
    match percent_decoded_text(uri.path) {
        Some(path) => if uri.scheme == "file"@ && has_drive(path) {
            Some(path.update(1, ascii_upper(path[1])))
        } else {
            Some(path)
        },
        None => None,
    }
}

pub fn normalized_url_path(uri: &Url) -> (path: Option<String>)
    ensures
        text_of(path) == normal_path(uri@),
{
    let path = match percent_decode(uri.path()) {
        Some(path) => path,
        None => return None,
    };
    let mut chars = to_chars(path.as_str());
    if str_eq(uri.scheme(), "file") && chars.len() >= 3 && chars[0] == '/' && (('a' <= chars[1]
        && chars[1] <= 'z') || ('A' <= chars[1] && chars[1] <= 'Z')) && chars[2] == ':' {
        let drive = ascii_uppercase(chars[1]);
        chars[1] = drive;
        let len = chars.len();
        let normal = from_chars(chars.as_slice(), 0, len);
        assert(normal@ == path@.update(1, ascii_upper(path@[1])));
        Some(normal)
    } else {
        Some(path)
    }
}

/// A path without the slashes at its end.
pub open spec fn trimmed(path: Seq<char>) -> Seq<char>
    decreases path.len(),
{
    if path.len() > 0 && path.last() == '/' {
        trimmed(path.drop_last())
    } else {
        path
    }
}

fn trimmed_len(path: &[char]) -> (len: usize)
    ensures
        len <= path@.len(),
        path@.take(len as int) == trimmed(path@),
{
    let mut len: usize = path.len();
    assert(path@.take(len as int) == path@);
    while len > 0 && path[len - 1] == '/'
        invariant
            len <= path@.len(),
            trimmed(path@.take(len as int)) == trimmed(path@),
        decreases len,
    {
        assert(path@.take(len as int).drop_last() == path@.take(len - 1));
        len -= 1;
    }
    len
}

pub open spec fn host_text(host: Option<Seq<char>>) -> Seq<char> {
    match host {
        Some(host) => host,
        None => Seq::empty(),
    }
}

pub open spec fn port_text(port: Option<u16>) -> Seq<char> {
    match port {
        Some(port) => decimal(port as nat),
        None => Seq::empty(),
    }
}

/// What tells one workspace folder from another: scheme, host, port and normal path, parted by
/// null characters. A folder with and without a slash at its end is the same folder.
pub open spec fn root_identity(uri: UrlParts) -> Option<Seq<char>> {
    match normal_path(uri) {
        Some(path) => Some(
            uri.scheme + seq!['\0'] + host_text(uri.host) + seq!['\0'] + port_text(uri.port)
                + seq!['\0'] + (if path == seq!['/'] {
                path
            } else {
                trimmed(path)
            }),
        ),
        None => None,
    }
}

pub fn workspace_root_identity(uri: &Url) -> (identity: Option<String>)
    ensures
        text_of(identity) == root_identity(uri@),
{
    let path = match normalized_url_path(uri) {
        Some(path) => path,
        None => return None,
    };
    let mut identity = String::new();
    identity.append(uri.scheme());
    identity.push('\0');
    if let Some(host) = uri.host_str() {
        identity.append(host);
    }
    identity.push('\0');
    if let Some(port) = uri.port() {
        identity.append(decimal_text(port as u64).as_str());
    }
    identity.push('\0');
    let ghost head = identity@;
    assert(head == uri@.scheme + seq!['\0'] + host_text(uri@.host) + seq!['\0'] + port_text(uri@.port)
        + seq!['\0']);
    let chars = to_chars(path.as_str());
    let len: usize = if chars.len() == 1 && chars[0] == '/' {
        assert(path@ == seq!['/']);
        assert(path@.take(1) == path@);
        1
    } else {
        trimmed_len(chars.as_slice())
    };
    identity.append(from_chars(chars.as_slice(), 0, len).as_str());
    Some(identity)
}

pub open spec fn same_origin(a: UrlParts, b: UrlParts) -> bool {
    a.scheme == b.scheme && a.host == b.host && a.port == b.port
}

/// The path of a file below a workspace folder, none for a file that is not below it.
pub open spec fn path_below(root: UrlParts, uri: UrlParts) -> Option<Seq<char>> {
    if !same_origin(root, uri) {
        None
    } else {
        match (normal_path(root), normal_path(uri)) {
            (Some(root_path), Some(file_path)) => {
                let folder = trimmed(root_path).push('/');
                if has_prefix(file_path, folder) && (trimmed(root_path).len() == 0 ==> file_path.len()
                    > 1) {
                    Some(file_path.skip(folder.len() as int))
                } else {
                    None
                }
            },
            _ => None,
        }
    }
}

fn same_text(a: Option<&str>, b: Option<&str>) -> (same: bool)
    ensures
        same == match (a, b) {
            (Some(a), Some(b)) => a@ == b@,
            (None, None) => true,
            _ => false,
        },
{
    match (a, b) {
        (Some(a), Some(b)) => str_eq(a, b),
        (None, None) => true,
        _ => false,
    }
}

fn same_port(a: Option<u16>, b: Option<u16>) -> (same: bool)
    ensures
        same == (a == b),
{
    match (a, b) {
        (Some(a), Some(b)) => a == b,
        (None, None) => true,
        _ => false,
    }
}

pub fn workspace_relative_path(root: &Url, uri: &Url) -> (relative: Option<String>)
    ensures
        text_of(relative) == path_below(root@, uri@),
{
    if !str_eq(uri.scheme(), root.scheme()) || !same_text(uri.host_str(), root.host_str())
        || !same_port(uri.port(), root.port()) {
        return None;
    }
    assert(same_origin(root@, uri@));
    let root_path = match normalized_url_path(root) {
        Some(path) => path,
        None => return None,
    };
    let file_path = match normalized_url_path(uri) {
        Some(path) => path,
        None => return None,
    };
    let mut folder = to_chars(root_path.as_str());
    let len = trimmed_len(folder.as_slice());
    folder.truncate(len);
    folder.push('/');
    assert(folder@ == trimmed(root_path@).push('/'));
    let file = to_chars(file_path.as_str());
    if !starts_with(file.as_slice(), folder.as_slice()) || (len == 0 && file.len() == 1) {
        return None;
    }
    assert(file@.subrange(folder@.len() as int, file@.len() as int) == file@.skip(
        folder@.len() as int,
    ));
    Some(from_chars(file.as_slice(), folder.len(), file.len()))
}

/// The bytes of the path of a workspace folder, without slashes at its end.
pub open spec fn root_path_len(root: UrlParts) -> nat {
    match normal_path(root) {
        Some(path) => utf8(trimmed(path)).len(),
        None => 0,
    }
}

pub fn workspace_root_path_len(root: &Url) -> (len: usize)
    ensures
        len == root_path_len(root@),
{
    match normalized_url_path(root) {
        Some(path) => {
            let chars = to_chars(path.as_str());
            let len = trimmed_len(chars.as_slice());
            let trimmed_path = from_chars(chars.as_slice(), 0, len);
            let bytes = trimmed_path.as_str().as_bytes();
            bytes.len()
        },
        None => 0,
    }
}

/// The parts of a text between slashes.
pub open spec fn segments(path: Seq<char>) -> Seq<Seq<char>>
    decreases path.len(),
{
    if path.len() == 0 {
        seq![Seq::empty()]
    } else {
        let before = segments(path.drop_last());
        if path.last() == '/' {
            before.push(Seq::empty())
        } else {
            before.drop_last().push(before.last().push(path.last()))
        }
    }
}

/// Whether a segment names something: neither empty nor the current folder.
pub open spec fn is_proper(segment: Seq<char>) -> bool {
    segment.len() > 0 && segment != seq!['.']
}

pub open spec fn proper_segments(all: Seq<Seq<char>>) -> Seq<Seq<char>>
    decreases all.len(),
{
    if all.len() == 0 {
        all
    } else if is_proper(all.last()) {
        proper_segments(all.drop_last()).push(all.last())
    } else {
        proper_segments(all.drop_last())
    }
}

/// Texts with a slash between each two.
pub open spec fn joined(parts: Seq<Seq<char>>) -> Seq<char>
    decreases parts.len(),
{
    if parts.len() == 0 {
        Seq::empty()
    } else if parts.len() == 1 {
        parts[0]
    } else {
        joined(parts.drop_last()).push('/') + parts.last()
    }
}

/// A relative path without empty and current-folder segments. A path that climbs to a parent
/// folder has none, nor has one that names nothing.
pub open spec fn relative_path(path: Seq<char>) -> Option<Seq<char>> {
    let all = segments(path);
    if all.contains(seq!['.', '.']) || proper_segments(all).len() == 0 {
        None
    } else {
        Some(joined(proper_segments(all)))
    }
}

/// Takes one more segment into a relative path; false for a segment that climbs.
fn take_segment(segment: &[char], kept: &mut Vec<char>, any: &mut bool, Ghost(all): Ghost<
    Seq<Seq<char>>,
>) -> (fine: bool)
    requires
        old(kept)@ == joined(proper_segments(all)),
        *old(any) == (proper_segments(all).len() > 0),
    ensures
        fine == (segment@ != seq!['.', '.']),
        fine ==> final(kept)@ == joined(proper_segments(all.push(segment@))),
        fine ==> *final(any) == (proper_segments(all.push(segment@)).len() > 0),
{
    proof {
        assert(all.push(segment@).drop_last() == all);
    }
    if segment.len() == 0 {
        return true;
    }
    if segment.len() == 1 && segment[0] == '.' {
        assert(segment@ == seq!['.']);
        return true;
    }
    if segment.len() == 2 && segment[0] == '.' && segment[1] == '.' {
        assert(segment@ == seq!['.', '.']);
        return false;
    }
    assert(segment@ != seq!['.', '.']) by {
        assert(seq!['.', '.'][0] == '.' && seq!['.', '.'][1] == '.');
    }
    assert(is_proper(segment@)) by {
        assert(seq!['.'][0] == '.');
    }
    let ghost before = proper_segments(all);
    let ghost after = proper_segments(all.push(segment@));
    assert(after == before.push(segment@));
    assert(after.drop_last() == before);
    if *any {
        kept.push('/');
    } else {
        assert(kept@ == Seq::<char>::empty());
    }
    let ghost head = kept@;
    let mut i: usize = 0;
    while i < segment.len()
        invariant
            i <= segment@.len(),
            kept@ == head + segment@.take(i as int),
        decreases segment@.len() - i,
    {
        kept.push(segment[i]);
        assert(segment@.take(i + 1) == segment@.take(i as int).push(segment@[i as int]));
        i += 1;
    }
    assert(segment@.take(i as int) == segment@);
    *any = true;
    true
}

pub fn relative_url_path(path: &str) -> (relative: Option<String>)
    ensures
        text_of(relative) == relative_path(path@),
{
    let chars = to_chars(path);
    let mut kept: Vec<char> = Vec::new();
    let mut any = false;
    let mut current: Vec<char> = Vec::new();
    let ghost mut done: Seq<Seq<char>> = Seq::empty();
    let mut i: usize = 0;
    assert(chars@.take(0) == Seq::<char>::empty());
    assert(segments(Seq::<char>::empty()) == done.push(current@));
    while i < chars.len()
        invariant
            chars@ == path@,
            i <= chars@.len(),
            segments(chars@.take(i as int)) == done.push(current@),
            !done.contains(seq!['.', '.']),
            kept@ == joined(proper_segments(done)),
            any == (proper_segments(done).len() > 0),
        decreases chars@.len() - i,
    {
        assert(chars@.take(i + 1).drop_last() == chars@.take(i as int));
        if chars[i] == '/' {
            if !take_segment(current.as_slice(), &mut kept, &mut any, Ghost(done)) {
                proof {
                    lemma_segments_prefix(path@, i as int, done.len() as int);
                    assert(segments(path@)[done.len() as int] == seq!['.', '.']);
                }
                return None;
            }
            proof {
                let grown = done.push(current@);
                assert(!grown.contains(seq!['.', '.'])) by {
                    assert forall|k: int| 0 <= k < grown.len() implies grown[k] != seq!['.', '.'] by {
                        if k < done.len() {
                            assert(grown[k] == done[k]);
                        }
                    }
                }
                done = grown;
            }
            current = Vec::new();
            assert(segments(chars@.take(i + 1)) == done.push(current@));
        } else {
            let ghost earlier = current@;
            current.push(chars[i]);
            assert(done.push(earlier).drop_last() == done);
            assert(segments(chars@.take(i + 1)) == done.push(current@));
        }
        i += 1;
    }
    assert(chars@.take(i as int) == path@);
    assert(segments(path@).drop_last() == done);
    if !take_segment(current.as_slice(), &mut kept, &mut any, Ghost(done)) {
        assert(segments(path@)[done.len() as int] == seq!['.', '.']);
        return None;
    }
    proof {
        let all = segments(path@);
        assert(!all.contains(seq!['.', '.'])) by {
            assert forall|k: int| 0 <= k < all.len() implies all[k] != seq!['.', '.'] by {
                if k < done.len() {
                    assert(all[k] == done[k]);
                }
            }
        }
    }
    if !any {
        return None;
    }
    assert(kept@.subrange(0, kept@.len() as int) == kept@);
    Some(from_chars(kept.as_slice(), 0, kept.len()))
}

/// A segment that is complete in a prefix of a path stays the same in the whole path.
proof fn lemma_segments_prefix(path: Seq<char>, end: int, k: int)
    requires
        0 <= end < path.len(),
        path[end] == '/',
        0 <= k < segments(path.take(end)).len(),
    ensures
        k < segments(path).len() - 1,
        segments(path)[k] == segments(path.take(end))[k],
    decreases path.len(),
{
    let shorter = path.drop_last();
    if end == path.len() - 1 {
        assert(shorter == path.take(end));
    } else {
        assert(shorter.take(end) == path.take(end));
        lemma_segments_prefix(shorter, end, k);
    }
}

/// The lower-case hexadecimal digit of a value below sixteen.
pub open spec fn hex_digit(value: int) -> char {
    if value < 10 {
        (0x30 + value) as u8 as char
    } else {
        (0x61 + value - 10) as u8 as char
    }
}

/// Two hexadecimal digits for each byte.
pub open spec fn hex_text(bytes: Seq<u8>) -> Seq<char>
    decreases bytes.len(),
{
    if bytes.len() == 0 {
        Seq::empty()
    } else {
        hex_text(bytes.drop_last()).push(hex_digit(bytes.last() as int / 16)).push(
            hex_digit(bytes.last() as int % 16),
        )
    }
}

fn hex_char(value: u8) -> (c: char)
    requires
        value < 16,
    ensures
        c == hex_digit(value as int),
{
    if value < 10 {
        (0x30 + value) as char
    } else {
        (0x61 + (value - 10)) as char
    }
}

pub fn hex_encode(bytes: &[u8]) -> (encoded: String)
    ensures
        encoded@ == hex_text(bytes@),
{
    let mut encoded = String::new();
    let mut i: usize = 0;
    assert(bytes@.take(0) == Seq::<u8>::empty());
    while i < bytes.len()
        invariant
            i <= bytes@.len(),
            encoded@ == hex_text(bytes@.take(i as int)),
        decreases bytes@.len() - i,
    {
        assert(bytes@.take(i + 1).drop_last() == bytes@.take(i as int));
        encoded.push(hex_char(bytes[i] / 16));
        encoded.push(hex_char(bytes[i] % 16));
        i += 1;
    }
    assert(bytes@.take(i as int) == bytes@);
    encoded
}

proof fn lemma_hex_digit(value: int)
    requires
        0 <= value < 16,
    ensures
        hex_digit(value) as int == if value < 10 {
            0x30 + value
        } else {
            0x57 + value
        },
{
}

/// Different byte sequences have different hexadecimal texts.
pub proof fn law_hex_encode_injective(a: Seq<u8>, b: Seq<u8>)
    requires
        hex_text(a) == hex_text(b),
    ensures
        a == b,
    decreases a.len(),
{
    if a.len() > 0 && b.len() > 0 {
        let left = hex_text(a.drop_last());
        let right = hex_text(b.drop_last());
        let x = a.last() as int;
        let y = b.last() as int;
        let la = hex_text(a);
        let lb = hex_text(b);
        assert(la[la.len() - 1] == hex_digit(x % 16) && la[la.len() - 2] == hex_digit(x / 16));
        assert(lb[lb.len() - 1] == hex_digit(y % 16) && lb[lb.len() - 2] == hex_digit(y / 16));
        assert(left == la.take(la.len() - 2));
        assert(right == lb.take(lb.len() - 2));
        law_hex_encode_injective(a.drop_last(), b.drop_last());
        lemma_hex_digit(x / 16);
        lemma_hex_digit(x % 16);
        lemma_hex_digit(y / 16);
        lemma_hex_digit(y % 16);
        assert(a == a.drop_last().push(a.last()));
        assert(b == b.drop_last().push(b.last()));
    } else {
        assert(hex_text(a).len() == 0 <==> a.len() == 0);
        assert(hex_text(b).len() == 0 <==> b.len() == 0);
        assert(a == b);
    }
}

/// Whether a path is short enough for an address behind `file:///`.
pub open spec fn short_path(path: Seq<char>) -> bool {
    8 + encoded_len(utf8(path)) <= u32::MAX
}

proof fn lemma_encoded_len(bytes: Seq<u8>, i: int)
    requires
        0 <= i <= bytes.len(),
    ensures
        encoded_len(bytes.take(i)) <= encoded_len(bytes),
    decreases bytes.len(),
{
    if i == bytes.len() {
        assert(bytes.take(i) == bytes);
    } else {
        assert(bytes.drop_last().take(i) == bytes.take(i));
        lemma_encoded_len(bytes.drop_last(), i);
    }
}

fn is_short(path: &str) -> (short: bool)
    ensures
        short == short_path(path@),
{
    let bytes = path.as_bytes();
    let ghost all = bytes@;
    let mut count: u64 = 0;
    let mut i: usize = 0;
    assert(all.take(0) == Seq::<u8>::empty());
    while i < bytes.len()
        invariant
            i <= all.len(),
            all == bytes@,
            all == utf8(path@),
            count == encoded_len(all.take(i as int)),
            8 + count <= u32::MAX,
        decreases all.len() - i,
    {
        assert(all.take(i + 1).drop_last() == all.take(i as int));
        let byte: u8 = bytes[i];
        if byte <= 0x20 || byte >= 0x7f || byte == 0x22 || byte == 0x23 || byte == 0x3c || byte
            == 0x3e || byte == 0x3f || byte == 0x60 || byte == 0x7b || byte == 0x7d {
            count += 3;
        } else {
            count += 1;
        }
        i += 1;
        if count > 0xffff_fff7 {
            proof {
                lemma_encoded_len(all, i as int);
            }
            return false;
        }
    }
    assert(all.take(i as int) == all);
    true
}

/// The address under which the virtual file system keeps a path.
pub open spec fn vfs_url(path: Seq<char>) -> Option<Seq<char>> {
    if short_path(path) {
        url_text_with_path("file:///"@, path)
    } else {
        None
    }
}

/// The text under which the document of a virtual path is found again: that of the address which
/// the address of the path is read as.
pub open spec fn vfs_key(path: Seq<char>) -> Option<Seq<char>> {
    match vfs_url(path) {
        Some(text) => match parsed_url(text) {
            Some(url) => Some(url.text),
            None => None,
        },
        None => None,
    }
}

/// The text under which the document of a virtual path is found again.
pub fn vfs_key_for_path(path: &str) -> (key: Option<String>)
    ensures
        text_of(key) == vfs_key(path@),
        key is Some <==> short_path(path@),
{
    let text = match vfs_url_for_path(path) {
        Some(text) => text,
        None => return None,
    };
    match Url::parse(text.as_str()) {
        Some(url) => Some(url.as_str().to_owned()),
        None => None,
    }
}

/// The address of a virtual path. A path too long for an address has none.
pub fn vfs_url_for_path(path: &str) -> (url: Option<String>)
    ensures
        text_of(url) == vfs_url(path@),
        url is Some <==> short_path(path@),
        url is Some ==> parsed_url(url->0@) is Some,
{
    if !is_short(path) {
        return None;
    }
    proof {
        reveal_strlit("file:///");
        assert(vstd::utf8::is_ascii_chars("file:///"@));
        vstd::utf8::is_ascii_chars_encode_utf8("file:///"@);
    }
    set_url_path("file:///", path)
}

/// The last segment of a path that names something, none where it is the parent folder.
pub open spec fn file_name(path: Seq<char>) -> Option<Seq<char>> {
    let proper = proper_segments(segments(path));
    if proper.len() == 0 || proper.last() == seq!['.', '.'] {
        None
    } else {
        Some(proper.last())
    }
}

/// The part of a file name behind its last dot, none where the only dot is its first character.
pub open spec fn name_extension(name: Seq<char>) -> Option<Seq<char>>
    decreases name.len(),
{
    if name.len() <= 1 {
        None
    } else if name.last() == '.' {
        Some(Seq::empty())
    } else {
        match name_extension(name.drop_last()) {
            Some(extension) => Some(extension.push(name.last())),
            None => None,
        }
    }
}

/// The extension of the file that a path names, `solc` where it has none.
pub open spec fn extension_or_default(path: Seq<char>) -> Seq<char> {
    match file_name(path) {
        Some(name) => match name_extension(name) {
            Some(extension) => if extension.len() > 0 {
                extension
            } else {
                "solc"@
            },
            None => "solc"@,
        },
        None => "solc"@,
    }
}

/// The file name of a path, `document.solc` where it has none.
pub open spec fn file_name_or_default(path: Seq<char>) -> Seq<char> {
    match file_name(path) {
        Some(name) => name,
        None => "document.solc"@,
    }
}

fn is_parent_or_improper(segment: &[char]) -> (kind: (bool, bool))
    ensures
        kind.0 == is_proper(segment@),
        kind.1 == (segment@ == seq!['.', '.']),
{
    proof {
        assert(seq!['.', '.'][0] == '.' && seq!['.', '.'][1] == '.');
        assert(seq!['.'][0] == '.');
        if segment@.len() == 1 && segment@[0] == '.' {
            assert(segment@ == seq!['.']);
        }
        if segment@.len() == 2 && segment@[0] == '.' && segment@[1] == '.' {
            assert(segment@ == seq!['.', '.']);
        }
    }
    let empty = segment.len() == 0;
    let current = segment.len() == 1 && segment[0] == '.';
    let parent = segment.len() == 2 && segment[0] == '.' && segment[1] == '.';
    (!empty && !current, parent)
}

/// Finds the file name of a path.
pub fn path_file_name(path: &str) -> (name: Option<String>)
    ensures
        text_of(name) == file_name(path@),
{
    let chars = to_chars(path);
    let mut found: Option<(usize, usize)> = None;
    let mut start: usize = 0;
    let ghost mut done: Seq<Seq<char>> = Seq::empty();
    let mut i: usize = 0;
    assert(chars@.take(0) == Seq::<char>::empty());
    assert(chars@.subrange(0, 0) == Seq::<char>::empty());
    assert(segments(Seq::<char>::empty()) == done.push(chars@.subrange(0, 0)));
    while i < chars.len()
        invariant
            chars@ == path@,
            start <= i <= chars@.len(),
            segments(chars@.take(i as int)) == done.push(chars@.subrange(start as int, i as int)),
            match found {
                Some((s, e)) => s <= e <= chars@.len() && proper_segments(done).len() > 0
                    && proper_segments(done).last() == chars@.subrange(s as int, e as int),
                None => proper_segments(done).len() == 0,
            },
        decreases chars@.len() - i,
    {
        assert(chars@.take(i + 1).drop_last() == chars@.take(i as int));
        let ghost current = chars@.subrange(start as int, i as int);
        if chars[i] == '/' {
            let kind = is_parent_or_improper(slice_subrange(chars.as_slice(), start, i));
            proof {
                assert(done.push(current).drop_last() == done);
                done = done.push(current);
                assert(chars@.subrange(i + 1, i + 1) == Seq::<char>::empty());
            }
            if kind.0 {
                found = Some((start, i));
            }
            start = i + 1;
        } else {
            assert(done.push(current).drop_last() == done);
            assert(chars@.subrange(start as int, i + 1) == current.push(chars@[i as int]));
        }
        i += 1;
    }
    assert(chars@.take(i as int) == path@);
    assert(segments(path@).drop_last() == done);
    let kind = is_parent_or_improper(slice_subrange(chars.as_slice(), start, i));
    if kind.0 {
        found = Some((start, i));
    }
    match found {
        Some((s, e)) => {
            if is_parent_or_improper(slice_subrange(chars.as_slice(), s, e)).1 {
                None
            } else {
                Some(from_chars(chars.as_slice(), s, e))
            }
        },
        None => None,
    }
}

/// Finds the extension of a file name.
fn extension_start(name: &[char]) -> (start: Option<usize>)
    ensures
        match start {
            Some(start) => start <= name@.len() && name_extension(name@) == Some(
                name@.skip(start as int),
            ),
            None => name_extension(name@) is None,
        },
    decreases name@.len(),
{
    if name.len() <= 1 {
        return None;
    }
    let len = name.len();
    if name[len - 1] == '.' {
        assert(name@.skip(len as int) == Seq::<char>::empty());
        return Some(len);
    }
    let shorter = slice_subrange(name, 0, len - 1);
    assert(shorter@ == name@.drop_last());
    match extension_start(shorter) {
        Some(start) => {
            assert(name@.skip(start as int) == shorter@.skip(start as int).push(name@.last()));
            Some(start)
        },
        None => None,
    }
}

pub fn path_extension(path: &str) -> (extension: String)
    ensures
        extension@ == extension_or_default(path@),
{
    if let Some(name) = path_file_name(path) {
        let chars = to_chars(name.as_str());
        if let Some(start) = extension_start(chars.as_slice()) {
            assert(chars@.subrange(start as int, chars@.len() as int) == chars@.skip(start as int));
            if start < chars.len() {
                return from_chars(chars.as_slice(), start, chars.len());
            }
        }
    }
    "solc".to_owned()
}

/// The parts of a text between slashes hold no slash.
proof fn lemma_segments_plain(path: Seq<char>)
    ensures
        segments(path).len() > 0,
        forall|k: int| 0 <= k < segments(path).len() ==> !(#[trigger] segments(path)[k]).contains('/'),
    decreases path.len(),
{
    if path.len() > 0 {
        let init = path.drop_last();
        lemma_segments_plain(init);
        let before = segments(init);
        let all = segments(path);
        assert forall|k: int| 0 <= k < all.len() implies !(#[trigger] all[k]).contains('/') by {
            if k < all.len() - 1 {
                assert(all[k] == before[k]);
            } else if path.last() != '/' {
                let last = before[before.len() - 1];
                assert(all[k] == last.push(path.last()));
                if all[k].contains('/') {
                    let c = choose|c: int| 0 <= c < all[k].len() && all[k][c] == '/';
                    assert(last[c] == '/');
                }
            }
        }
    }
}

/// A text without slashes goes on with the last part of what it stands behind.
proof fn lemma_segments_longer(path: Seq<char>, more: Seq<char>)
    requires
        !more.contains('/'),
    ensures
        segments(path + more) == segments(path).drop_last().push(segments(path).last() + more),
    decreases more.len(),
{
    lemma_segments_plain(path);
    if more.len() == 0 {
        assert(path + more == path);
        assert(segments(path).last() + more == segments(path).last());
        assert(segments(path).drop_last().push(segments(path).last()) == segments(path));
    } else {
        let front = more.drop_last();
        let last = more.last();
        assert(more[more.len() - 1] == last);
        assert(!front.contains('/')) by {
            if front.contains('/') {
                let k = choose|k: int| 0 <= k < front.len() && front[k] == '/';
                assert(more[k] == '/');
            }
        }
        lemma_segments_longer(path, front);
        let whole = path + more;
        assert(whole.drop_last() == path + front);
        assert(whole.last() == last);
        let before = segments(path + front);
        assert(before.drop_last() == segments(path).drop_last());
        assert((segments(path).last() + front).push(last) == segments(path).last() + more);
    }
}

/// Parts without slashes that are joined by slashes are parted again.
proof fn lemma_segments_joined(parts: Seq<Seq<char>>)
    requires
        parts.len() > 0,
        forall|k: int| 0 <= k < parts.len() ==> !(#[trigger] parts[k]).contains('/'),
    ensures
        segments(joined(parts)) == parts,
    decreases parts.len(),
{
    let nothing = Seq::<char>::empty();
    if parts.len() == 1 {
        lemma_segments_longer(nothing, parts[0]);
        assert(nothing + parts[0] == parts[0]);
        assert(segments(nothing) == seq![nothing]);
        assert(segments(joined(parts)) == parts);
    } else {
        let init = parts.drop_last();
        assert forall|k: int| 0 <= k < init.len() implies !(#[trigger] init[k]).contains('/') by {
            assert(parts[k] == init[k]);
        }
        lemma_segments_joined(init);
        let head = joined(init).push('/');
        assert(head.drop_last() == joined(init));
        assert(segments(head) == init.push(nothing));
        assert(parts[parts.len() - 1] == parts.last());
        lemma_segments_longer(head, parts.last());
        assert(segments(head).drop_last() == init);
        assert(nothing + parts.last() == parts.last());
        assert(init.push(parts.last()) == parts);
    }
}

proof fn lemma_proper_segments(all: Seq<Seq<char>>)
    ensures
        forall|k: int|
            0 <= k < proper_segments(all).len() ==> is_proper(#[trigger] proper_segments(all)[k])
                && all.contains(proper_segments(all)[k]),
        (forall|k: int| 0 <= k < all.len() ==> is_proper(#[trigger] all[k])) ==> proper_segments(all)
            == all,
    decreases all.len(),
{
    if all.len() > 0 {
        let init = all.drop_last();
        lemma_proper_segments(init);
        assert(all[all.len() - 1] == all.last());
        let kept = proper_segments(all);
        assert forall|k: int| 0 <= k < kept.len() implies is_proper(#[trigger] kept[k])
            && all.contains(kept[k]) by {
            if k < proper_segments(init).len() {
                assert(kept[k] == proper_segments(init)[k]);
                let m = choose|m: int| 0 <= m < init.len() && init[m] == kept[k];
                assert(all[m] == kept[k]);
            }
        }
        if forall|k: int| 0 <= k < all.len() ==> is_proper(#[trigger] all[k]) {
            assert forall|k: int| 0 <= k < init.len() implies is_proper(#[trigger] init[k]) by {
                assert(all[k] == init[k]);
            }
            assert(kept == init.push(all.last()));
            assert(kept == all);
        }
    }
}

/// A relative path is not empty and has none but proper segments, none of which climbs. Cleaning
/// it again changes nothing.
pub proof fn law_relative_path(path: Seq<char>)
    ensures
        relative_path(path) matches Some(clean) ==> {
            &&& clean.len() > 0
            &&& relative_path(clean) == Some(clean)
            &&& forall|k: int|
                0 <= k < segments(clean).len() ==> is_proper(#[trigger] segments(clean)[k])
                    && segments(clean)[k] != seq!['.', '.']
        },
{
    if let Some(clean) = relative_path(path) {
        let all = segments(path);
        let kept = proper_segments(all);
        lemma_segments_plain(path);
        lemma_proper_segments(all);
        assert forall|k: int| 0 <= k < kept.len() implies !(#[trigger] kept[k]).contains('/')
            && kept[k] != seq!['.', '.'] by {
            let m = choose|m: int| 0 <= m < all.len() && all[m] == kept[k];
            assert(!all[m].contains('/'));
        }
        lemma_segments_joined(kept);
        lemma_proper_segments(kept);
        assert(!kept.contains(seq!['.', '.']));
        assert(segments(clean) == kept);
        if clean.len() == 0 {
            assert(segments(clean)[0].len() == 0);
        }
    }
}

} // verus!
