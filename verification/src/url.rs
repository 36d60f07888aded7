//! Document addresses.
//!
//! A [`Url`] keeps the parts of an address that the server reads as plain text. Parsing and
//! normalisation are those of the `url` crate.
use vstd::prelude::*;
use vstd::utf8::{decode_utf8, valid_utf8};

use crate::text::utf8;

verus! {

/// The parts of an address.
pub struct UrlParts {
    pub text: Seq<char>,
    pub scheme: Seq<char>,
    pub host: Option<Seq<char>>,
    pub port: Option<u16>,
    pub path: Seq<char>,
}

/// A parsed address. Two addresses are the same when their texts are.
#[derive(Debug)]
pub struct Url {
    text: String,
    scheme: String,
    host: Option<String>,
    port: Option<u16>,
    path: String,
}

pub open spec fn text_of(text: Option<String>) -> Option<Seq<char>> {
    match text {
        Some(text) => Some(text@),
        None => None,
    }
}

pub open spec fn parts_of(url: Option<Url>) -> Option<UrlParts> {
    match url {
        Some(url) => Some(url@),
        None => None,
    }
}

impl View for Url {
    type V = UrlParts;

    closed spec fn view(&self) -> UrlParts {
        UrlParts {
            text: self.text@,
            scheme: self.scheme@,
            host: text_of(self.host),
            port: self.port,
            path: self.path@,
        }
    }
}

/// The parts of the address that `Url::parse` of the `url` crate reads in a text, none where it
/// rejects the text.
pub uninterp spec fn parsed_url(input: Seq<char>) -> Option<UrlParts>;

/// The parts of the address that `Url::join` of the `url` crate gives for a base address and a
/// reference, none where it rejects them.
pub uninterp spec fn joined_url(base: Seq<char>, reference: Seq<char>) -> Option<UrlParts>;

/// The text of the address that `Url::set_path` of the `url` crate gives for a base address and
/// a path, none where the base is no address.
pub uninterp spec fn url_text_with_path(base: Seq<char>, path: Seq<char>) -> Option<Seq<char>>;

/// Calls `Url::parse` of the `url` crate, which `lsp_types` re-exports, and copies the parts of
/// its result out.
#[verifier::external_body]
fn parse_url(input: &str) -> (url: Option<Url>)
    ensures
        parts_of(url) == parsed_url(input@),
{
    let url = lsp_types::Url::parse(input).ok()?;
    Some(Url {
        text: url.as_str().to_owned(),
        scheme: url.scheme().to_owned(),
        host: url.host_str().map(str::to_owned),
        port: url.port(),
        path: url.path().to_owned(),
    })
}

/// Calls `Url::join` of the `url` crate on a base address given by its text, and copies the
/// parts of its result out.
#[verifier::external_body]
fn join_url(base: &str, reference: &str) -> (url: Option<Url>)
    ensures
        parts_of(url) == joined_url(base@, reference@),
{
    let url = lsp_types::Url::parse(base).ok()?.join(reference).ok()?;
    Some(Url {
        text: url.as_str().to_owned(),
        scheme: url.scheme().to_owned(),
        host: url.host_str().map(str::to_owned),
        port: url.port(),
        path: url.path().to_owned(),
    })
}

/// Whether a byte of a path is percent-encoded: controls, all that is not ASCII, and the space,
/// the quote and the characters `#`, `<`, `>`, `?`, `` ` ``, `{` and `}`.
pub open spec fn is_encoded(byte: u8) -> bool {
    byte <= 0x20 || byte >= 0x7f || byte == 0x22 || byte == 0x23 || byte == 0x3c || byte == 0x3e
        || byte == 0x3f || byte == 0x60 || byte == 0x7b || byte == 0x7d
}

/// The number of bytes of a path with its bytes percent-encoded, each by three.
pub open spec fn encoded_len(bytes: Seq<u8>) -> nat
    decreases bytes.len(),
{
    if bytes.len() == 0 {
        0
    } else {
        encoded_len(bytes.drop_last()) + if is_encoded(bytes.last()) {
            3nat
        } else {
            1nat
        }
    }
}

/// Calls `Url::set_path` of the `url` crate on a base address given by its text. The crate
/// panics where the text of the result has more than `u32::MAX` bytes. The text is not longer
/// than the base with the path behind it, the bytes of its percent-encode set encoded: all else
/// that it does to a path shortens it or puts a slash for something that it drops. The base is an address, so there is a text. It begins with
/// `file:///`, so that the crate reads it as an address again; which one is left unsaid: of a path
/// with a tab or a line break in it, it need not be one of the same text.
#[verifier::external_body]
pub(crate) fn set_url_path(base: &str, path: &str) -> (text: Option<String>)
    requires
        base@ == "file:///"@,
        utf8(base@).len() + encoded_len(utf8(path@)) <= u32::MAX,
    ensures
        text_of(text) == url_text_with_path(base@, path@),
        text is Some && parsed_url(text->0@) is Some,
{
    let mut url = lsp_types::Url::parse(base).ok()?;
    url.set_path(path);
    Some(url.into())
}

/// The value of a hexadecimal digit.
pub open spec fn hex_value(byte: u8) -> Option<int> {
    if 0x30 <= byte <= 0x39 {
        Some(byte - 0x30)
    } else if 0x41 <= byte <= 0x46 {
        Some(byte - 0x41 + 10)
    } else if 0x61 <= byte <= 0x66 {
        Some(byte - 0x61 + 10)
    } else {
        None
    }
}

/// Bytes with each percent sign that two hexadecimal digits follow replaced by the byte that
/// they write.
pub open spec fn percent_decoded(bytes: Seq<u8>) -> Seq<u8>
    decreases bytes.len(),
{
    if bytes.len() == 0 {
        bytes
    } else if bytes[0] == 0x25 && bytes.len() >= 3 && hex_value(bytes[1]) is Some && hex_value(
        bytes[2],
    ) is Some {
        seq![(hex_value(bytes[1])->0 * 16 + hex_value(bytes[2])->0) as u8] + percent_decoded(
            bytes.skip(3),
        )
    } else {
        seq![bytes[0]] + percent_decoded(bytes.skip(1))
    }
}

/// A text with its percent-encoded bytes decoded, none where the decoded bytes are not UTF-8.
pub open spec fn percent_decoded_text(text: Seq<char>) -> Option<Seq<char>> {
    if valid_utf8(percent_decoded(utf8(text))) {
        Some(decode_utf8(percent_decoded(utf8(text))))
    } else {
        None
    }
}

/// Calls `percent_encoding::percent_decode_str` and `PercentDecode::decode_utf8`: the text with
/// its percent-encoded bytes decoded, none where the decoded bytes are not UTF-8.
#[verifier::external_body]
pub(crate) fn percent_decode(text: &str) -> (decoded: Option<String>)
    ensures
        text_of(decoded) == percent_decoded_text(text@),
{
    percent_encoding::percent_decode_str(text).decode_utf8().ok().map(|text| text.into_owned())
}

impl Url {
    /// Parses an address.
    pub fn parse(input: &str) -> (url: Option<Url>)
        ensures
            parts_of(url) == parsed_url(input@),
    {
        parse_url(input)
    }

    pub fn as_str(&self) -> (text: &str)
        ensures
            text@ == self@.text,
    {
        self.text.as_str()
    }

    pub fn scheme(&self) -> (scheme: &str)
        ensures
            scheme@ == self@.scheme,
    {
        self.scheme.as_str()
    }

    pub fn host_str(&self) -> (host: Option<&str>)
        ensures
            match host {
                Some(host) => self@.host == Some(host@),
                None => self@.host is None,
            },
    {
        match &self.host {
            Some(host) => Some(host.as_str()),
            None => None,
        }
    }

    pub fn port(&self) -> (port: Option<u16>)
        ensures
            port == self@.port,
    {
        self.port
    }

    pub fn path(&self) -> (path: &str)
        ensures
            path@ == self@.path,
    {
        self.path.as_str()
    }

    /// The address of a reference that stands in the document at this address.
    pub fn join(&self, reference: &str) -> (url: Option<Url>)
        ensures
            parts_of(url) == joined_url(self@.text, reference@),
    {
        join_url(self.text.as_str(), reference)
    }

    /// Whether both are the same address.
    pub fn same(&self, other: &Url) -> (same: bool)
        ensures
            same == (self@.text == other@.text),
    {
        self.text == other.text
    }
}

impl Clone for Url {
    fn clone(&self) -> (copy: Url)
        ensures
            copy@ == self@,
    {
        Url {
            text: self.text.clone(),
            scheme: self.scheme.clone(),
            host: match &self.host {
                Some(host) => Some(host.clone()),
                None => None,
            },
            port: self.port,
            path: self.path.clone(),
        }
    }
}

impl PartialEq for Url {
    fn eq(&self, other: &Url) -> (same: bool) {
        self.text == other.text
    }
}

impl vstd::std_specs::cmp::PartialEqSpecImpl for Url {
    open spec fn obeys_eq_spec() -> bool {
        true
    }

    open spec fn eq_spec(&self, other: &Url) -> bool {
        self@.text == other@.text
    }
}

impl Eq for Url {

}

} // verus!
