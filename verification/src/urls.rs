//! URL resolution and the file names derived from URLs.

use crate::hexstring::{hex, hex_chars};
use crate::text::{chars_to_string, push_str, str_chars};
use sha1::{Digest, Sha1};
use url::Url;
use vstd::prelude::*;

verus! {

/// The absolute URL that `reference` denotes when it stands in the document
/// at `base`; `None` where `base` is no absolute URL or `reference` cannot be
/// resolved against it.
pub uninterp spec fn url_join(base: Seq<char>, reference: Seq<char>) -> Option<Seq<char>>;

/// The last segment of the path of the absolute URL `url`; `None` where `url`
/// is no absolute URL or has no hierarchical path.
pub uninterp spec fn url_last_path_segment(url: Seq<char>) -> Option<Seq<char>>;

/// The SHA-1 digest of `data`.
pub uninterp spec fn sha1(data: Seq<u8>) -> Seq<u8>;

/// Parses `base` with `url::Url::parse` and resolves `reference` against it
/// with `url::Url::join`. The result is the serialization of the URL that
/// `join` returns, and `None` where either call reports an error. Not proved:
/// that this is `url_join` of the two texts.
#[verifier::external_body]
pub(crate) fn join_url(base: &str, reference: &str) -> (r: Option<String>)
    ensures
        r.deep_view() == url_join(base@, reference@),
{
    match Url::parse(base) {
        Ok(base) => match base.join(reference) {
            Ok(joined) => Some(joined.into()),
            Err(_) => None,
        },
        Err(_) => None,
    }
}

/// Parses `url` with `url::Url::parse` and takes the last item of
/// `url::Url::path_segments`. `None` where the text does not parse or the URL
/// cannot be a base. Not proved: that this is `url_last_path_segment` of the
/// text.
#[verifier::external_body]
pub(crate) fn last_path_segment(url: &str) -> (r: Option<String>)
    ensures
        r.deep_view() == url_last_path_segment(url@),
{
    match Url::parse(url) {
        Ok(parsed) => match parsed.path_segments() {
            Some(mut segments) => match segments.next_back() {
                Some(segment) => Some(segment.to_owned()),
                None => None,
            },
            None => None,
        },
        Err(_) => None,
    }
}

/// Hashes `data` with `sha1::Sha1::digest`. Not proved: that the twenty bytes
/// it returns are `sha1` of the data.
#[verifier::external_body]
pub(crate) fn sha1_digest(data: &[u8]) -> (r: Vec<u8>)
    ensures
        r@ == sha1(data@),
        r@.len() == 20,
{
    Sha1::digest(data).to_vec()
}

/// The position of the last `.` in `name`, if it has one.
pub open spec fn last_dot(name: Seq<char>) -> Option<int>
    decreases name.len(),
{
    if name.len() == 0 {
        None
    } else if name.last() == '.' {
        Some(name.len() - 1)
    } else {
        last_dot(name.drop_last())
    }
}

/// The extension of a file name: what follows its last `.`. A name without a
/// `.`, a name whose only `.` is its first character, and the name `..` have
/// none.
pub open spec fn file_extension(name: Seq<char>) -> Option<Seq<char>> {
    if name == seq!['.', '.'] {
        None
    } else {
        match last_dot(name) {
            None => None,
            Some(dot) => if dot == 0 {
                None
            } else {
                Some(name.skip(dot + 1))
            },
        }
    }
}

/// The extension of the file that the path of `url` names.
pub open spec fn url_extension(url: Seq<char>) -> Option<Seq<char>> {
    match url_last_path_segment(url) {
        Some(name) => file_extension(name),
        None => None,
    }
}

/// `last_dot` of a name is the one position that holds a `.` with none
/// after it.
pub proof fn lemma_last_dot(name: Seq<char>, k: int)
    requires
        0 <= k <= name.len(),
        forall|i: int| k <= i < name.len() ==> name[i] != '.',
    ensures
        last_dot(name) == last_dot(name.take(k)),
    decreases name.len() - k,
{
    if k < name.len() {
        lemma_last_dot(name.drop_last(), k);
        assert(name.drop_last().take(k) == name.take(k));
    } else {
        assert(name.take(k) == name);
    }
}

/// The extension of a file name, by [`file_extension`].
pub fn file_extension_of(name: &str) -> (r: Option<String>)
    ensures
        r.deep_view() == file_extension(name@),
{
    let chars = str_chars(name);
    if chars.len() == 2 && chars[0] == '.' && chars[1] == '.' {
        assert(chars@ == seq!['.', '.']);
        return None;
    }
    assert(chars@ != seq!['.', '.']) by {
        if chars@ == seq!['.', '.'] {
            assert(seq!['.', '.'].len() == 2);
            assert(seq!['.', '.'][0] == '.');
            assert(seq!['.', '.'][1] == '.');
        }
    }
    let mut i: usize = chars.len();
    while i > 0 && chars[i - 1] != '.'
        invariant
            i <= chars.len(),
            forall|j: int| i <= j < chars.len() ==> chars@[j] != '.',
        decreases i,
    {
        i -= 1;
    }
    proof {
        lemma_last_dot(chars@, i as int);
    }
    if i == 0 {
        return None;
    }
    assert(chars@.take(i as int).last() == '.');
    if i == 1 {
        return None;
    }
    let ext = chars_to_string(&chars, i, chars.len());
    assert(chars@.skip(i as int) == chars@.subrange(i as int, chars.len() as int));
    Some(ext)
}

/// The extension of the file that the path of `url` names: `None` where
/// `url` is no absolute URL, has no hierarchical path, or the last segment of
/// its path has no extension.
pub fn url_file_extension(url: &str) -> (r: Option<String>)
    ensures
        r.deep_view() == url_extension(url@),
{
    match last_path_segment(url) {
        Some(name) => file_extension_of(name.as_str()),
        None => None,
    }
}

/// A file name that depends on `url` alone: `prefix`, the SHA-1 digest of the
/// URL's UTF-8 bytes in hexadecimal, a `.` and `ext`.
pub open spec fn hashed_name(prefix: Seq<char>, url: Seq<char>, ext: Seq<char>) -> Seq<char> {
    prefix + hex_chars(sha1(vstd::utf8::encode_utf8(url))) + seq!['.'] + ext
}

/// Builds [`hashed_name`].
pub fn hashed_file_name(prefix: &str, url: &str, ext: &str) -> (r: String)
    ensures
        r@ == hashed_name(prefix@, url@, ext@),
{
    let digest = hex(sha1_digest(url.as_bytes()));
    let mut out = prefix.to_owned();
    let hex_text = digest.to_string();
    push_str(&mut out, hex_text.as_str());
    out.push('.');
    push_str(&mut out, ext);
    out
}

} // verus!
