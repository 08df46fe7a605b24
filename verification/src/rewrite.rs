//! Rewriting of media playlists: every resource gets a stable local name,
//! the URL it came from is kept in a tag of its own, byte ranges are spelled
//! out, and low-latency tags are dropped.

use crate::byte_range::ByteRange;
use crate::playlist::{
    Attribute, AttributeModel, ExtTag, ExtTagModel, InitMap, InitMapModel, Key, KeyMethod,
    KeyMethodModel, KeyModel, M3u8ByteRange, MediaPlaylist, MediaPlaylistModel, MediaSegment,
    MediaSegmentModel, QuotedOrUnquoted, QuotedOrUnquotedModel,
};
use crate::record::RecordError;
use crate::text::{concat_str, decimal, push_decimal, push_str, starts_with, str_chars, str_eq};
use crate::urls::{
    hashed_file_name, hashed_name, join_url, url_extension, url_file_extension, url_join,
};
use vstd::prelude::*;

verus! {

pub const ORIGINAL_URI: &'static str = "X-ORIGINAL-URI";

pub const ORIGINAL_MAP_URI: &'static str = "X-ORIGINAL-MAP-URI";

pub const ORIGINAL_KEY_URI: &'static str = "X-ORIGINAL-KEY-URI";

pub const ORIGINAL_BYTE_RANGE: &'static str = "X-ORIGINAL-BYTE-RANGE";

pub const ORIGINAL_SERVER_CONTROL: &'static str = "X-ORIGINAL-SERVER-CONTROL";

pub const ORIGINAL_PRELOAD_HINT: &'static str = "X-ORIGINAL-PRELOAD-HINT";

pub const ORIGINAL_RENDITION_REPORT: &'static str = "X-ORIGINAL-RENDITION-REPORT";

/// The tag `name` with the value `rest`.
pub open spec fn tag_with(name: Seq<char>, rest: Seq<char>) -> ExtTagModel {
    ExtTagModel { tag: name, rest: Some(rest) }
}

/// Holds of the tags whose name is none of `names`.
pub open spec fn not_named(names: Seq<Seq<char>>) -> spec_fn(ExtTagModel) -> bool {
    |t: ExtTagModel| !names.contains(t.tag)
}

/// `tags` without those whose name is one of `names`, the others in order.
pub open spec fn without_tags(tags: Seq<ExtTagModel>, names: Seq<Seq<char>>) -> Seq<ExtTagModel> {
    tags.filter(not_named(names))
}

/// The names of the low-latency tags, which recording does not support.
pub open spec fn unsupported_tag_names() -> Seq<Seq<char>> {
    seq![
        "X-PART"@,
        "X-PART-INF"@,
        "X-PRELOAD-HINT"@,
        "X-RENDITION-REPORT"@,
        "X-SERVER-CONTROL"@,
    ]
}

/// `tags` without the low-latency tags.
pub open spec fn supported_tags(tags: Seq<ExtTagModel>) -> Seq<ExtTagModel> {
    without_tags(tags, unsupported_tag_names())
}

/// Holds of the attributes whose name is not `name`.
pub open spec fn not_attribute(name: Seq<char>) -> spec_fn(AttributeModel) -> bool {
    |a: AttributeModel| a.name != name
}

/// `attributes` with `name` set to `value`: earlier values of `name` are
/// gone, and the new one stands last.
pub open spec fn with_attribute(
    attributes: Seq<AttributeModel>,
    name: Seq<char>,
    value: QuotedOrUnquotedModel,
) -> Seq<AttributeModel> {
    attributes.filter(not_attribute(name)).push(AttributeModel { name, value })
}

fn new_tag(name: &str, rest: String) -> (r: ExtTag)
    ensures
        r.deep_view() == tag_with(name@, rest@),
{
    ExtTag { tag: name.to_owned(), rest: Some(rest) }
}

fn name_is_among(name: &str, names: &Vec<&'static str>) -> (r: bool)
    ensures
        r == names.deep_view().contains(name@),
{
    let mut i: usize = 0;
    while i < names.len()
        invariant
            i <= names.len(),
            forall|j: int| 0 <= j < i ==> names.deep_view()[j] != name@,
        decreases names.len() - i,
    {
        if str_eq(names[i], name) {
            assert(names.deep_view()[i as int] == name@);
            return true;
        }
        i += 1;
    }
    false
}

/// Removes from `tags` those whose name is one of `names`.
pub fn remove_tags_named(tags: &mut Vec<ExtTag>, names: &Vec<&'static str>)
    ensures
        final(tags).deep_view() == without_tags(old(tags).deep_view(), names.deep_view()),
{
    let mut taken: Vec<ExtTag> = Vec::new();
    std::mem::swap(tags, &mut taken);
    let ghost all = taken.deep_view();
    let ghost keep = not_named(names.deep_view());
    proof {
        reveal(Seq::filter);
        assert(all.take(0).filter(keep) =~= Seq::<ExtTagModel>::empty());
        assert(tags.deep_view() =~= Seq::<ExtTagModel>::empty());
    }
    for t in it: taken
        invariant
            it.seq() == taken@,
            all == taken.deep_view(),
            keep == not_named(names.deep_view()),
            tags.deep_view() == all.take(it.index() as int).filter(keep),
    {
        let ghost before = tags.deep_view();
        let ghost i = it.index() as int;
        proof {
            assert(all.take(i + 1) =~= all.take(i).push(t.deep_view()));
            all.take(i).lemma_filter_push(t.deep_view(), keep);
        }
        if !name_is_among(t.tag.as_str(), names) {
            tags.push(t);
            assert(tags.deep_view() =~= before.push(t.deep_view()));
        }
    }
    assert(all.take(taken@.len() as int) =~= all);
}

/// Sets the attribute `name` to `value`.
pub fn set_attribute(attributes: &mut Vec<Attribute>, name: &str, value: QuotedOrUnquoted)
    ensures
        final(attributes).deep_view() == with_attribute(
            old(attributes).deep_view(),
            name@,
            value.deep_view(),
        ),
{
    let mut taken: Vec<Attribute> = Vec::new();
    std::mem::swap(attributes, &mut taken);
    let ghost all = taken.deep_view();
    let ghost keep = not_attribute(name@);
    proof {
        reveal(Seq::filter);
        assert(all.take(0).filter(keep) =~= Seq::<AttributeModel>::empty());
        assert(attributes.deep_view() =~= Seq::<AttributeModel>::empty());
    }
    for a in it: taken
        invariant
            it.seq() == taken@,
            all == taken.deep_view(),
            keep == not_attribute(name@),
            attributes.deep_view() == all.take(it.index() as int).filter(keep),
    {
        let ghost before = attributes.deep_view();
        let ghost i = it.index() as int;
        proof {
            assert(all.take(i + 1) =~= all.take(i).push(a.deep_view()));
            all.take(i).lemma_filter_push(a.deep_view(), keep);
        }
        if !str_eq(a.name.as_str(), name) {
            attributes.push(a);
            assert(attributes.deep_view() =~= before.push(a.deep_view()));
        }
    }
    assert(all.take(taken@.len() as int) =~= all);
    let ghost before = attributes.deep_view();
    let added = Attribute { name: name.to_owned(), value };
    attributes.push(added);
    assert(attributes.deep_view() =~= before.push(added.deep_view()));
}

fn unsupported_names() -> (r: Vec<&'static str>)
    ensures
        r.deep_view() == unsupported_tag_names(),
{
    let r = vec!["X-PART", "X-PART-INF", "X-PRELOAD-HINT", "X-RENDITION-REPORT", "X-SERVER-CONTROL"];
    assert(r.deep_view() =~= unsupported_tag_names());
    r
}

/// Removes the low-latency tags from `ext_tags`.
pub fn remove_unsupported_tags(ext_tags: &mut Vec<ExtTag>)
    ensures
        final(ext_tags).deep_view() == supported_tags(old(ext_tags).deep_view()),
{
    let names = unsupported_names();
    remove_tags_named(ext_tags, &names);
}

/// Where rewriting stands between two segments.
pub ghost struct Cursor {
    /// The extension of the last segment URL that had one.
    pub last_ext: Option<Seq<char>>,
    /// The byte after the last byte range of a segment or a map, or 0 after
    /// a segment without one. A map without a byte range leaves it as it
    /// is.
    pub next_byte: u64,
}

/// The byte range that `range` denotes when the range before it ended at
/// `next_byte`, and where the next one starts: at the end of this one, or at
/// 0 where there is none. `None` where the end does not fit in 64 bits.
pub open spec fn advance(range: Option<M3u8ByteRange>, next_byte: u64) -> Option<
    (Option<ByteRange>, u64),
> {
    match range {
        None => Some((None, 0u64)),
        Some(r) => {
            let resolved = ByteRange::resolve(r, next_byte);
            if resolved.end() <= u64::MAX {
                Some((Some(resolved), resolved.end() as u64))
            } else {
                None
            }
        },
    }
}

/// The byte range that the byte range of a map denotes when the range before
/// it ended at `next_byte`, and where the next one starts: at the end of the
/// map's range, or, where the map has none, still at `next_byte`. `None`
/// where the end does not fit in 64 bits.
pub open spec fn advance_map(range: Option<M3u8ByteRange>, next_byte: u64) -> Option<
    (Option<ByteRange>, u64),
> {
    match range {
        None => Some((None, next_byte)),
        Some(_) => advance(range, next_byte),
    }
}

/// Whether `url`, an absolute URL, has the scheme `http` or `https`.
pub open spec fn is_http_url(url: Seq<char>) -> bool {
    starts_with(url, "http:"@) || starts_with(url, "https:"@)
}

/// The URL that the key is fetched from, where the key is one that recording
/// stores: an AES-128 key with a URI that resolves against `base` to an
/// `http` or `https` URL. The outer `None` says that the URI does not
/// resolve.
pub open spec fn key_source(key: KeyModel, base: Seq<char>) -> Option<Option<Seq<char>>> {
    if key.method == KeyMethodModel::AES128 && key.uri is Some {
        match url_join(base, key.uri->0) {
            None => None,
            Some(url) => if is_http_url(url) {
                Some(Some(url))
            } else {
                Some(None)
            },
        }
    } else {
        Some(None)
    }
}

/// The local name of the key fetched from `url`.
pub open spec fn key_file_name(url: Seq<char>) -> Seq<char> {
    hashed_name("key-"@, url, "bin"@)
}

/// The key as the rewritten playlist holds it.
pub open spec fn rewritten_key(key: KeyModel, source: Option<Seq<char>>) -> KeyModel {
    match source {
        Some(url) => KeyModel { uri: Some(key_file_name(url)), ..key },
        None => key,
    }
}

/// The extension of the map fetched from `url`: that of the URL, else `mp4`.
pub open spec fn map_extension(url: Seq<char>) -> Seq<char> {
    match url_extension(url) {
        Some(ext) => ext,
        None => "mp4"@,
    }
}

/// The local name of the map fetched from `url`.
pub open spec fn map_file_name(url: Seq<char>) -> Seq<char> {
    hashed_name("init-"@, url, map_extension(url))
}

/// The map as the rewritten playlist holds it.
pub open spec fn rewritten_map(map: InitMapModel, url: Seq<char>, range: Option<ByteRange>)
    -> InitMapModel {
    InitMapModel {
        uri: map_file_name(url),
        byte_range: None,
        other_attributes: match range {
            Some(r) => with_attribute(
                map.other_attributes,
                ORIGINAL_BYTE_RANGE@,
                QuotedOrUnquotedModel::Quoted(r.text()),
            ),
            None => map.other_attributes,
        },
    }
}

/// The extension of the segment fetched from `url`: that of the URL, else
/// the last one seen, else `ts`.
pub open spec fn segment_extension(url: Seq<char>, last_ext: Option<Seq<char>>) -> Seq<char> {
    match url_extension(url) {
        Some(ext) => ext,
        None => match last_ext {
            Some(ext) => ext,
            None => "ts"@,
        },
    }
}

/// The last extension seen once the segment at `url` has been named.
pub open spec fn extension_after(url: Seq<char>, last_ext: Option<Seq<char>>) -> Option<
    Seq<char>,
> {
    match url_extension(url) {
        Some(ext) => Some(ext),
        None => last_ext,
    }
}

/// The local name of the segment with the sequence number `number`.
pub open spec fn segment_file_name(number: u64, ext: Seq<char>) -> Seq<char> {
    "segment-"@ + decimal(number as nat) + seq!['.'] + ext
}

/// The tags that keep where a segment's resources came from, in the order
/// in which rewriting adds them.
pub open spec fn origin_tags(
    url: Seq<char>,
    range: Option<ByteRange>,
    key_url: Option<Seq<char>>,
    map_url: Option<Seq<char>>,
) -> Seq<ExtTagModel> {
    seq![tag_with(ORIGINAL_URI@, url)] + (match range {
        Some(r) => seq![tag_with(ORIGINAL_BYTE_RANGE@, r.text())],
        None => Seq::empty(),
    }) + (match key_url {
        Some(u) => seq![tag_with(ORIGINAL_KEY_URI@, u)],
        None => Seq::empty(),
    }) + (match map_url {
        Some(u) => seq![tag_with(ORIGINAL_MAP_URI@, u)],
        None => Seq::empty(),
    })
}

/// What rewriting makes of one segment, and where it stands afterwards.
/// `None` where a URI of the segment does not resolve against `base` or a
/// byte range ends beyond 64 bits.
pub open spec fn rewrite_segment_spec(
    segment: MediaSegmentModel,
    number: u64,
    base: Seq<char>,
    cursor: Cursor,
) -> Option<(MediaSegmentModel, Cursor)> {
    match url_join(base, segment.uri) {
        None => None,
        Some(url) => match advance(segment.byte_range, cursor.next_byte) {
            None => None,
            Some((range, after_segment)) => match (match segment.key {
                Some(key) => key_source(key, base),
                None => Some(None),
            }) {
                None => None,
                Some(key_url) => match segment.map {
                    None => Some(
                        (
                            MediaSegmentModel {
                                uri: segment_file_name(
                                    number,
                                    segment_extension(url, cursor.last_ext),
                                ),
                                duration: segment.duration,
                                byte_range: None,
                                key: match segment.key {
                                    Some(key) => Some(rewritten_key(key, key_url)),
                                    None => None,
                                },
                                map: None,
                                unknown_tags: supported_tags(
                                    segment.unknown_tags + origin_tags(url, range, key_url, None),
                                ),
                            },
                            Cursor {
                                last_ext: extension_after(url, cursor.last_ext),
                                next_byte: after_segment,
                            },
                        ),
                    ),
                    Some(map) => match url_join(base, map.uri) {
                        None => None,
                        Some(map_url) => match advance_map(map.byte_range, after_segment) {
                            None => None,
                            Some((map_range, after_map)) => Some(
                                (
                                    MediaSegmentModel {
                                        uri: segment_file_name(
                                            number,
                                            segment_extension(url, cursor.last_ext),
                                        ),
                                        duration: segment.duration,
                                        byte_range: None,
                                        key: match segment.key {
                                            Some(key) => Some(rewritten_key(key, key_url)),
                                            None => None,
                                        },
                                        map: Some(rewritten_map(map, map_url, map_range)),
                                        unknown_tags: supported_tags(
                                            segment.unknown_tags + origin_tags(
                                                url,
                                                range,
                                                key_url,
                                                Some(map_url),
                                            ),
                                        ),
                                    },
                                    Cursor {
                                        last_ext: extension_after(url, cursor.last_ext),
                                        next_byte: after_map,
                                    },
                                ),
                            ),
                        },
                    },
                },
            },
        },
    }
}

/// The parse error for a URI of a media playlist that does not resolve: its
/// message names the URI.
fn bad_url(reference: &str) -> (r: RecordError)
    ensures
        r is Parse,
        r->Parse_0@ == "invalid URL: "@ + reference@,
{
    RecordError::Parse(concat_str("invalid URL: ", reference))
}

/// The parse error for a byte range whose end does not fit in 64 bits.
fn bad_byte_range() -> (r: RecordError)
    ensures
        r is Parse,
        r->Parse_0@ == "byte range ends beyond 64 bits"@,
{
    RecordError::Parse("byte range ends beyond 64 bits".to_owned())
}

/// Resolves a byte range against the running start and moves the start on,
/// by [`advance`].
pub fn advance_byte_range(range: Option<M3u8ByteRange>, next_byte_range_start: &mut u64) -> (r:
    Result<Option<ByteRange>, RecordError>)
    ensures
        match advance(range, *old(next_byte_range_start)) {
            Some((resolved, next)) => r == Ok::<Option<ByteRange>, RecordError>(resolved)
                && *final(next_byte_range_start) == next,
            None => r is Err && r->Err_0 is Parse,
        },
{
    match range {
        None => {
            *next_byte_range_start = 0;
            Ok(None)
        },
        Some(range) => {
            let resolved = ByteRange::from_m3u8(&range, *next_byte_range_start);
            match resolved.offset.checked_add(resolved.length) {
                Some(end) => {
                    *next_byte_range_start = end;
                    Ok(Some(resolved))
                },
                None => Err(bad_byte_range()),
            }
        },
    }
}

/// Whether `url` has the scheme `http` or `https`.
pub fn is_http(url: &str) -> (r: bool)
    ensures
        r == is_http_url(url@),
{
    let chars = str_chars(url);
    proof {
        reveal_strlit("http:");
        reveal_strlit("https:");
    }
    if chars.len() >= 5 && chars[0] == 'h' && chars[1] == 't' && chars[2] == 't' && chars[3] == 'p'
        && chars[4] == ':' {
        assert(chars@.subrange(0, 5) =~= "http:"@);
        return true;
    }
    if chars.len() >= 6 && chars[0] == 'h' && chars[1] == 't' && chars[2] == 't' && chars[3] == 'p'
        && chars[4] == 's' && chars[5] == ':' {
        assert(chars@.subrange(0, 6) =~= "https:"@);
        return true;
    }
    proof {
        if starts_with(url@, "http:"@) {
            let p = chars@.subrange(0, 5);
            assert(p[0] == 'h' && p[1] == 't' && p[2] == 't' && p[3] == 'p' && p[4] == ':');
        }
        if starts_with(url@, "https:"@) {
            let p = chars@.subrange(0, 6);
            assert(p[0] == 'h' && p[1] == 't' && p[2] == 't' && p[3] == 'p' && p[4] == 's' && p[5]
                == ':');
        }
    }
    false
}

/// Gives an AES-128 key with an `http` or `https` URI its local name and
/// keeps the URL it came from in a tag. Other keys stay as they are.
pub fn rewrite_key(key: &mut Key, playlist_url: &str, unknown_tags: &mut Vec<ExtTag>) -> (r:
    Result<(), RecordError>)
    ensures
        match key_source(old(key).deep_view(), playlist_url@) {
            Some(source) => r is Ok && final(key).deep_view() == rewritten_key(
                old(key).deep_view(),
                source,
            ) && final(unknown_tags).deep_view() == old(unknown_tags).deep_view() + (match source {
                Some(u) => seq![tag_with(ORIGINAL_KEY_URI@, u)],
                None => Seq::empty(),
            }),
            None => r is Err && r->Err_0 is Parse,
        },
{
    let ghost tags_before = unknown_tags.deep_view();
    assert(tags_before + Seq::<ExtTagModel>::empty() =~= tags_before);
    match key.method {
        KeyMethod::AES128 => {},
        _ => {
            return Ok(());
        },
    }
    let key_url = match &key.uri {
        None => {
            return Ok(());
        },
        Some(key_uri) => match join_url(playlist_url, key_uri.as_str()) {
            Some(key_url) => key_url,
            None => {
                return Err(bad_url(key_uri.as_str()));
            },
        },
    };
    if !is_http(key_url.as_str()) {
        return Ok(());
    }
    let file_name = hashed_file_name("key-", key_url.as_str(), "bin");
    let added = new_tag(ORIGINAL_KEY_URI, key_url);
    unknown_tags.push(added);
    assert(unknown_tags.deep_view() =~= tags_before + seq![added.deep_view()]);
    key.uri = Some(file_name);
    Ok(())
}

/// Spells out the map's byte range in an attribute and moves the running
/// start on, by [`advance_map`]. Without a byte range the attributes and the
/// running start stay as they are.
pub fn rewrite_byte_range_in_attribute(
    byte_range: &mut Option<M3u8ByteRange>,
    other_attributes: &mut Vec<Attribute>,
    next_byte_range_start: &mut u64,
) -> (r: Result<(), RecordError>)
    ensures
        match advance_map(*old(byte_range), *old(next_byte_range_start)) {
            Some((resolved, next)) => r is Ok && *final(byte_range) == None::<M3u8ByteRange>
                && *final(next_byte_range_start) == next && final(other_attributes).deep_view()
                == (match resolved {
                Some(range) => with_attribute(
                    old(other_attributes).deep_view(),
                    ORIGINAL_BYTE_RANGE@,
                    QuotedOrUnquotedModel::Quoted(range.text()),
                ),
                None => old(other_attributes).deep_view(),
            }),
            None => r is Err && r->Err_0 is Parse,
        },
        *old(byte_range) is None ==> *final(next_byte_range_start) == *old(next_byte_range_start),
{
    let taken = match byte_range.take() {
        Some(taken) => taken,
        None => {
            return Ok(());
        },
    };
    match advance_byte_range(Some(taken), next_byte_range_start) {
        Err(e) => Err(e),
        Ok(None) => Ok(()),
        Ok(Some(range)) => {
            set_attribute(
                other_attributes,
                ORIGINAL_BYTE_RANGE,
                QuotedOrUnquoted::Quoted(range.to_string()),
            );
            Ok(())
        },
    }
}

/// Gives a map its local name, keeps the URL it came from in a tag, and
/// spells out its byte range. A map without a byte range leaves the running
/// start as it is.
pub fn rewrite_map(
    map: &mut InitMap,
    playlist_url: &str,
    next_byte_range_start: &mut u64,
    unknown_tags: &mut Vec<ExtTag>,
) -> (r: Result<(), RecordError>)
    ensures
        match url_join(playlist_url@, old(map).deep_view().uri) {
            None => r is Err && r->Err_0 is Parse,
            Some(url) => match advance_map(old(map).byte_range, *old(next_byte_range_start)) {
                None => r is Err && r->Err_0 is Parse,
                Some((range, next)) => r is Ok && final(map).deep_view() == rewritten_map(
                    old(map).deep_view(),
                    url,
                    range,
                ) && *final(next_byte_range_start) == next && final(unknown_tags).deep_view()
                    == old(unknown_tags).deep_view().push(tag_with(ORIGINAL_MAP_URI@, url)),
            },
        },
        r is Ok && old(map).byte_range is None ==> *final(next_byte_range_start) == *old(
            next_byte_range_start,
        ),
{
    let ghost tags_before = unknown_tags.deep_view();
    let map_url = match join_url(playlist_url, map.uri.as_str()) {
        Some(map_url) => map_url,
        None => {
            return Err(bad_url(map.uri.as_str()));
        },
    };
    let ext = match url_file_extension(map_url.as_str()) {
        Some(ext) => ext,
        None => "mp4".to_owned(),
    };
    let file_name = hashed_file_name("init-", map_url.as_str(), ext.as_str());
    let added = new_tag(ORIGINAL_MAP_URI, map_url);
    unknown_tags.push(added);
    assert(unknown_tags.deep_view() =~= tags_before.push(added.deep_view()));
    let mut byte_range = map.byte_range;
    let mut attributes: Vec<Attribute> = Vec::new();
    std::mem::swap(&mut map.other_attributes, &mut attributes);
    match rewrite_byte_range_in_attribute(&mut byte_range, &mut attributes, next_byte_range_start) {
        Err(e) => {
            return Err(e);
        },
        Ok(()) => {},
    }
    map.byte_range = byte_range;
    map.other_attributes = attributes;
    map.uri = file_name;
    Ok(())
}

/// The extension for the segment at `url`, by [`segment_extension`]; an
/// extension that the URL has is remembered for the segments after it.
pub fn get_or_update_file_ext(url: &str, last_segment_ext: &mut Option<String>) -> (r: String)
    ensures
        r@ == segment_extension(url@, old(last_segment_ext).deep_view()),
        final(last_segment_ext).deep_view() == extension_after(
            url@,
            old(last_segment_ext).deep_view(),
        ),
{
    match url_file_extension(url) {
        Some(ext) => {
            *last_segment_ext = Some(ext.clone());
            ext
        },
        None => match last_segment_ext {
            Some(last_ext) => last_ext.clone(),
            None => "ts".to_owned(),
        },
    }
}

/// Rewrites one segment, by [`rewrite_segment_spec`]: the segment gets the
/// name `segment-<number>.<ext>`, its key and map get names that depend on
/// their URLs alone, the URLs and byte ranges that it had are kept in tags,
/// and low-latency tags are dropped.
pub fn rewrite_segment(
    media_segment: &mut MediaSegment,
    media_sequence_number: u64,
    playlist_url: &str,
    last_segment_ext: &mut Option<String>,
    next_byte_range_start: &mut u64,
) -> (r: Result<(), RecordError>)
    ensures
        match rewrite_segment_spec(
            old(media_segment).deep_view(),
            media_sequence_number,
            playlist_url@,
            Cursor {
                last_ext: old(last_segment_ext).deep_view(),
                next_byte: *old(next_byte_range_start),
            },
        ) {
            Some((segment, cursor)) => r is Ok && final(media_segment).deep_view() == segment
                && final(last_segment_ext).deep_view() == cursor.last_ext
                && *final(next_byte_range_start) == cursor.next_byte,
            None => r is Err && r->Err_0 is Parse,
        },
{
    let ghost before = media_segment.deep_view();
    let ghost cursor = Cursor {
        last_ext: last_segment_ext.deep_view(),
        next_byte: *next_byte_range_start,
    };
    let segment_url = match join_url(playlist_url, media_segment.uri.as_str()) {
        Some(url) => url,
        None => {
            return Err(bad_url(media_segment.uri.as_str()));
        },
    };
    let ghost url = segment_url@;
    let file_ext = get_or_update_file_ext(segment_url.as_str(), last_segment_ext);
    let mut file_name = "segment-".to_owned();
    push_decimal(&mut file_name, media_sequence_number);
    file_name.push('.');
    push_str(&mut file_name, file_ext.as_str());
    assert(file_name@ == segment_file_name(
        media_sequence_number,
        segment_extension(url, cursor.last_ext),
    ));
    let mut tags: Vec<ExtTag> = Vec::new();
    std::mem::swap(&mut media_segment.unknown_tags, &mut tags);
    let uri_tag = new_tag(ORIGINAL_URI, segment_url);
    tags.push(uri_tag);
    assert(tags.deep_view() =~= before.unknown_tags + seq![tag_with(ORIGINAL_URI@, url)]);
    media_segment.uri = file_name;
    let taken = media_segment.byte_range.take();
    let range = match advance_byte_range(taken, next_byte_range_start) {
        Ok(range) => range,
        Err(e) => {
            return Err(e);
        },
    };
    let ghost tags_1 = tags.deep_view();
    match range {
        Some(byte_range) => {
            let range_tag = new_tag(ORIGINAL_BYTE_RANGE, byte_range.to_string());
            tags.push(range_tag);
            assert(tags.deep_view() =~= tags_1 + seq![
                tag_with(ORIGINAL_BYTE_RANGE@, byte_range.text()),
            ]);
        },
        None => {
            assert(tags.deep_view() =~= tags_1 + Seq::<ExtTagModel>::empty());
        },
    }
    let ghost tags_2 = tags.deep_view();
    let ghost key_url: Option<Seq<char>> = None;
    let key = media_segment.key.take();
    match key {
        Some(mut key) => {
            match rewrite_key(&mut key, playlist_url, &mut tags) {
                Ok(()) => {},
                Err(e) => {
                    return Err(e);
                },
            }
            proof {
                key_url = key_source(before.key->0, playlist_url@)->0;
            }
            media_segment.key = Some(key);
        },
        None => {
            assert(tags.deep_view() =~= tags_2 + Seq::<ExtTagModel>::empty());
        },
    }
    let ghost tags_3 = tags.deep_view();
    let ghost map_url: Option<Seq<char>> = None;
    let map = media_segment.map.take();
    match map {
        Some(mut map) => {
            match rewrite_map(&mut map, playlist_url, next_byte_range_start, &mut tags) {
                Ok(()) => {},
                Err(e) => {
                    return Err(e);
                },
            }
            proof {
                map_url = url_join(playlist_url@, before.map->0.uri);
                assert(tags.deep_view() =~= tags_3 + seq![tag_with(ORIGINAL_MAP_URI@, map_url->0)]);
            }
            media_segment.map = Some(map);
        },
        None => {
            assert(tags.deep_view() =~= tags_3 + Seq::<ExtTagModel>::empty());
        },
    }
    assert(tags.deep_view() =~= before.unknown_tags + origin_tags(url, range, key_url, map_url));
    remove_unsupported_tags(&mut tags);
    media_segment.unknown_tags = tags;
    Ok(())
}

/// What rewriting makes of the first `n` segments, the first of which has
/// the sequence number `first`, and where it stands afterwards. `None` where
/// one of them cannot be rewritten or its sequence number does not fit in 64
/// bits.
pub open spec fn rewrite_segments_spec(
    segments: Seq<MediaSegmentModel>,
    n: int,
    first: u64,
    base: Seq<char>,
    start: Cursor,
) -> Option<(Seq<MediaSegmentModel>, Cursor)>
    decreases n,
{
    if n <= 0 {
        Some((Seq::empty(), start))
    } else {
        match rewrite_segments_spec(segments, n - 1, first, base, start) {
            None => None,
            Some((done, cursor)) => if first + n - 1 > u64::MAX {
                None
            } else {
                match rewrite_segment_spec(
                    segments[n - 1],
                    (first + n - 1) as u64,
                    base,
                    cursor,
                ) {
                    None => None,
                    Some((segment, next)) => Some((done.push(segment), next)),
                }
            },
        }
    }
}

/// What rewriting makes of a playlist fetched from `base`, and the last
/// segment extension seen afterwards.
pub open spec fn rewrite_playlist_spec(
    playlist: MediaPlaylistModel,
    base: Seq<char>,
    last_ext: Option<Seq<char>>,
) -> Option<(MediaPlaylistModel, Option<Seq<char>>)> {
    match rewrite_segments_spec(
        playlist.segments,
        playlist.segments.len() as int,
        playlist.media_sequence,
        base,
        Cursor { last_ext, next_byte: 0 },
    ) {
        None => None,
        Some((segments, cursor)) => Some(
            (
                MediaPlaylistModel {
                    segments,
                    unknown_tags: supported_tags(playlist.unknown_tags),
                    ..playlist
                },
                cursor.last_ext,
            ),
        ),
    }
}

/// Rewrites a media playlist fetched from `url`, by
/// [`rewrite_playlist_spec`]. Fails with a parse error, and only then, where
/// a URI of the playlist does not resolve against `url`, a byte range ends
/// beyond 64 bits or a sequence number does not fit in 64 bits.
pub fn rewrite_media_playlist(
    url: &str,
    media_playlist: &mut MediaPlaylist,
    last_segment_ext: &mut Option<String>,
) -> (r: Result<(), RecordError>)
    ensures
        match rewrite_playlist_spec(
            old(media_playlist).deep_view(),
            url@,
            old(last_segment_ext).deep_view(),
        ) {
            Some((playlist, last_ext)) => r is Ok && final(media_playlist).deep_view() == playlist
                && final(last_segment_ext).deep_view() == last_ext,
            None => r is Err && r->Err_0 is Parse,
        },
{
    let ghost before = media_playlist.deep_view();
    let ghost start = Cursor { last_ext: last_segment_ext.deep_view(), next_byte: 0 };
    let first = media_playlist.media_sequence;
    let mut next_byte_range_start: u64 = 0;
    let mut segments: Vec<MediaSegment> = Vec::new();
    std::mem::swap(&mut media_playlist.segments, &mut segments);
    assert(media_playlist.segments.deep_view() =~= Seq::<MediaSegmentModel>::empty());
    let mut number: u64 = first;
    let mut overflowed = false;
    for segment in it: segments
        invariant
            it.seq() == segments@,
            segments.deep_view() == before.segments,
            !overflowed ==> number == first + it.index(),
            overflowed ==> first + it.index() > u64::MAX,
            rewrite_segments_spec(before.segments, it.index() as int, first, url@, start) == Some(
                (
                    media_playlist.segments.deep_view(),
                    Cursor {
                        last_ext: last_segment_ext.deep_view(),
                        next_byte: next_byte_range_start,
                    },
                ),
            ),
            media_playlist.media_sequence == before.media_sequence,
            media_playlist.end_list == before.end_list,
            media_playlist.target_duration == before.target_duration,
            media_playlist.unknown_tags.deep_view() == before.unknown_tags,
            before == old(media_playlist).deep_view(),
            start == (Cursor { last_ext: old(last_segment_ext).deep_view(), next_byte: 0 }),
            first == before.media_sequence,
    {
        let ghost i = it.index() as int;
        let ghost done = media_playlist.segments.deep_view();
        assert(segment.deep_view() == before.segments[i]);
        if overflowed {
            proof {
                lemma_rewrite_segments_none(before.segments, i + 1, segments@.len() as int, first, url@, start);
            }
            return Err(RecordError::Parse("media sequence number beyond 64 bits".to_owned()));
        }
        let mut segment = segment;
        match rewrite_segment(
            &mut segment,
            number,
            url,
            last_segment_ext,
            &mut next_byte_range_start,
        ) {
            Ok(()) => {},
            Err(e) => {
                proof {
                    lemma_rewrite_segments_none(before.segments, i + 1, segments@.len() as int, first, url@, start);
                }
                return Err(e);
            },
        }
        media_playlist.segments.push(segment);
        assert(media_playlist.segments.deep_view() =~= done.push(segment.deep_view()));
        match number.checked_add(1) {
            Some(next) => {
                number = next;
            },
            None => {
                overflowed = true;
            },
        }
    }
    remove_unsupported_tags(&mut media_playlist.unknown_tags);
    Ok(())
}

/// Once the first `n` segments cannot be rewritten, no longer run of them
/// can.
pub proof fn lemma_rewrite_segments_none(
    segments: Seq<MediaSegmentModel>,
    n: int,
    m: int,
    first: u64,
    base: Seq<char>,
    start: Cursor,
)
    requires
        n <= m,
        rewrite_segments_spec(segments, n, first, base, start) is None,
    ensures
        rewrite_segments_spec(segments, m, first, base, start) is None,
    decreases m - n,
{
    if n < m {
        lemma_rewrite_segments_none(segments, n, m - 1, first, base, start);
    }
}

/// The key of the last of the first `n` segments that has one.
pub open spec fn last_key(segments: Seq<MediaSegmentModel>, n: int) -> Option<KeyModel>
    decreases n,
{
    if n <= 0 {
        None
    } else {
        match segments[n - 1].key {
            Some(key) => Some(key),
            None => last_key(segments, n - 1),
        }
    }
}

/// The map of the last of the first `n` segments that has one.
pub open spec fn last_map(segments: Seq<MediaSegmentModel>, n: int) -> Option<InitMapModel>
    decreases n,
{
    if n <= 0 {
        None
    } else {
        match segments[n - 1].map {
            Some(map) => Some(map),
            None => last_map(segments, n - 1),
        }
    }
}

/// How many segments leave a playlist that is clipped to start at the
/// sequence number `lowest`: those with a lower number.
pub open spec fn removed_from_start(playlist: MediaPlaylistModel, lowest: u64) -> int {
    if lowest <= playlist.media_sequence {
        0
    } else if lowest - playlist.media_sequence < playlist.segments.len() {
        lowest - playlist.media_sequence
    } else {
        playlist.segments.len() as int
    }
}

/// `segment` with the key and the map that are in effect for it: its own,
/// or else the given ones.
pub open spec fn inheriting(
    segment: MediaSegmentModel,
    key: Option<KeyModel>,
    map: Option<InitMapModel>,
) -> MediaSegmentModel {
    MediaSegmentModel {
        key: match segment.key {
            Some(own) => Some(own),
            None => key,
        },
        map: match segment.map {
            Some(own) => Some(own),
            None => map,
        },
        ..segment
    }
}

/// The playlist clipped to start at the sequence number `lowest`. A playlist
/// that starts there or later stays as it is. Otherwise the segments with a
/// lower number leave, the playlist starts at `lowest`, and the first
/// segment that stays has the key and the map in effect for it: its own, or
/// else the last ones among the segments that left.
pub open spec fn clip_start_spec(playlist: MediaPlaylistModel, lowest: u64) -> MediaPlaylistModel {
    if playlist.media_sequence >= lowest {
        playlist
    } else {
        let count = removed_from_start(playlist, lowest);
        let rest = playlist.segments.skip(count);
        MediaPlaylistModel {
            media_sequence: lowest,
            segments: if rest.len() == 0 {
                rest
            } else {
                rest.update(
                    0,
                    inheriting(
                        rest[0],
                        last_key(playlist.segments, count),
                        last_map(playlist.segments, count),
                    ),
                )
            },
            ..playlist
        }
    }
}

/// Clips the playlist to start at `lowest_media_sequence`, by
/// [`clip_start_spec`].
pub fn remove_segments_from_start(media_playlist: &mut MediaPlaylist, lowest_media_sequence: u64)
    ensures
        final(media_playlist).deep_view() == clip_start_spec(
            old(media_playlist).deep_view(),
            lowest_media_sequence,
        ),
{
    if media_playlist.media_sequence >= lowest_media_sequence {
        return ;
    }
    let ghost before = media_playlist.deep_view();
    let ghost target = clip_start_spec(before, lowest_media_sequence).segments;
    let gap: u64 = lowest_media_sequence - media_playlist.media_sequence;
    let len: usize = media_playlist.segments.len();
    let remove_count: usize = if gap < len as u64 {
        gap as usize
    } else {
        len
    };
    assert(remove_count == removed_from_start(before, lowest_media_sequence));
    let mut segments: Vec<MediaSegment> = Vec::new();
    std::mem::swap(&mut media_playlist.segments, &mut segments);
    assert(media_playlist.segments.deep_view() =~= Seq::<MediaSegmentModel>::empty());
    let mut last_key: Option<Key> = None;
    let mut last_map: Option<InitMap> = None;
    let mut i: usize = 0;
    for segment in it: segments
        invariant
            it.seq() == segments@,
            segments.deep_view() == before.segments,
            segments@.len() == len,
            i == it.index(),
            remove_count <= len,
            remove_count == removed_from_start(before, lowest_media_sequence),
            target == clip_start_spec(before, lowest_media_sequence).segments,
            before.media_sequence < lowest_media_sequence,
            i <= remove_count ==> last_key.deep_view() == self::last_key(before.segments, i as int),
            i <= remove_count ==> last_map.deep_view() == self::last_map(before.segments, i as int),
            media_playlist.segments.deep_view() == (if i <= remove_count {
                Seq::<MediaSegmentModel>::empty()
            } else {
                target.take(i - remove_count)
            }),
            media_playlist.media_sequence == before.media_sequence,
            media_playlist.end_list == before.end_list,
            media_playlist.target_duration == before.target_duration,
            media_playlist.unknown_tags.deep_view() == before.unknown_tags,
    {
        let ghost done = media_playlist.segments.deep_view();
        assert(segment.deep_view() == before.segments[i as int]);
        let mut segment = segment;
        if i < remove_count {
            match segment.key.take() {
                Some(key) => {
                    last_key = Some(key);
                },
                None => {},
            }
            match segment.map.take() {
                Some(map) => {
                    last_map = Some(map);
                },
                None => {},
            }
        } else if i == remove_count {
            let own_key = segment.key.take();
            segment.key = match own_key {
                Some(key) => Some(key),
                None => last_key.take(),
            };
            let own_map = segment.map.take();
            segment.map = match own_map {
                Some(map) => Some(map),
                None => last_map.take(),
            };
            assert(segment.deep_view() == target[0]);
            media_playlist.segments.push(segment);
            assert(media_playlist.segments.deep_view() =~= done.push(segment.deep_view()));
            assert(done.push(segment.deep_view()) =~= target.take(1));
        } else {
            assert(segment.deep_view() == target[i - remove_count]);
            media_playlist.segments.push(segment);
            assert(media_playlist.segments.deep_view() =~= done.push(segment.deep_view()));
            assert(done.push(segment.deep_view()) =~= target.take(i - remove_count + 1));
        }
        i += 1;
    }
    media_playlist.media_sequence = lowest_media_sequence;
    assert(media_playlist.segments.deep_view() =~= target);
}

/// How many segments stay in a playlist that is clipped to end with the
/// sequence number `highest`: those with that number or a lower one.
pub open spec fn kept_at_end(playlist: MediaPlaylistModel, highest: u64) -> int {
    let keep = highest - playlist.media_sequence + 1;
    if keep <= 0 {
        0
    } else if keep < playlist.segments.len() {
        keep
    } else {
        playlist.segments.len() as int
    }
}

/// The playlist clipped to end with the sequence number `highest`: the
/// segments with a higher number leave, and the playlist is marked as
/// ended.
pub open spec fn clip_end_spec(playlist: MediaPlaylistModel, highest: u64) -> MediaPlaylistModel {
    MediaPlaylistModel {
        segments: playlist.segments.take(kept_at_end(playlist, highest)),
        end_list: true,
        ..playlist
    }
}

/// Clips the playlist to end with `highest_media_sequence`, by
/// [`clip_end_spec`], so that it is not refreshed again.
pub fn remove_segments_from_end(media_playlist: &mut MediaPlaylist, highest_media_sequence: u64)
    ensures
        final(media_playlist).deep_view() == clip_end_spec(
            old(media_playlist).deep_view(),
            highest_media_sequence,
        ),
        final(media_playlist).end_list,
{
    let ghost before = media_playlist.deep_view();
    let len: usize = media_playlist.segments.len();
    if highest_media_sequence < media_playlist.media_sequence {
        media_playlist.segments.truncate(0);
        assert(media_playlist.segments.deep_view() =~= before.segments.take(0));
    } else {
        let above: u64 = highest_media_sequence - media_playlist.media_sequence;
        if above < len as u64 {
            let keep: usize = above as usize + 1;
            media_playlist.segments.truncate(keep);
            assert(media_playlist.segments.deep_view() =~= before.segments.take(keep as int));
        } else {
            assert(before.segments.take(len as int) =~= before.segments);
        }
    }
    media_playlist.end_list = true;
}

/// The names of the tags that stand for low-latency tags in a recorded
/// playlist.
pub open spec fn playlist_bookkeeping_names() -> Seq<Seq<char>> {
    seq![ORIGINAL_SERVER_CONTROL@, ORIGINAL_PRELOAD_HINT@, ORIGINAL_RENDITION_REPORT@]
}

/// The names of the tags that tell the recorder where a segment came from.
pub open spec fn segment_bookkeeping_names() -> Seq<Seq<char>> {
    seq![ORIGINAL_URI@, ORIGINAL_BYTE_RANGE@]
}

/// A recorded segment as replay serves it: without the tags that say where
/// the segment came from. The tags for the key's and the map's URL stay.
pub open spec fn strip_segment_spec(segment: MediaSegmentModel) -> MediaSegmentModel {
    MediaSegmentModel {
        unknown_tags: without_tags(segment.unknown_tags, segment_bookkeeping_names()),
        ..segment
    }
}

/// A recorded playlist as replay serves it.
pub open spec fn strip_playlist_spec(playlist: MediaPlaylistModel) -> MediaPlaylistModel {
    MediaPlaylistModel {
        unknown_tags: without_tags(playlist.unknown_tags, playlist_bookkeeping_names()),
        segments: Seq::new(
            playlist.segments.len(),
            |i: int| strip_segment_spec(playlist.segments[i]),
        ),
        ..playlist
    }
}

/// Removes from a recorded segment the tags that say where it came from.
pub fn strip_segment(media_segment: &mut MediaSegment)
    ensures
        final(media_segment).deep_view() == strip_segment_spec(old(media_segment).deep_view()),
{
    let names = vec![ORIGINAL_URI, ORIGINAL_BYTE_RANGE];
    assert(names.deep_view() =~= segment_bookkeeping_names());
    remove_tags_named(&mut media_segment.unknown_tags, &names);
}

/// Removes the recorder's bookkeeping from a recorded playlist, by
/// [`strip_playlist_spec`].
pub fn strip_media_playlist(media_playlist: &mut MediaPlaylist)
    ensures
        final(media_playlist).deep_view() == strip_playlist_spec(old(media_playlist).deep_view()),
{
    let ghost before = media_playlist.deep_view();
    let names = vec![ORIGINAL_SERVER_CONTROL, ORIGINAL_PRELOAD_HINT, ORIGINAL_RENDITION_REPORT];
    assert(names.deep_view() =~= playlist_bookkeeping_names());
    remove_tags_named(&mut media_playlist.unknown_tags, &names);
    let mut segments: Vec<MediaSegment> = Vec::new();
    std::mem::swap(&mut media_playlist.segments, &mut segments);
    assert(media_playlist.segments.deep_view() =~= Seq::<MediaSegmentModel>::empty());
    for segment in it: segments
        invariant
            it.seq() == segments@,
            segments.deep_view() == before.segments,
            media_playlist.segments.deep_view() == strip_playlist_spec(before).segments.take(
                it.index() as int,
            ),
            media_playlist.media_sequence == before.media_sequence,
            media_playlist.end_list == before.end_list,
            media_playlist.target_duration == before.target_duration,
            media_playlist.unknown_tags.deep_view() == strip_playlist_spec(before).unknown_tags,
    {
        let ghost done = media_playlist.segments.deep_view();
        assert(segment.deep_view() == before.segments[it.index() as int]);
        let mut segment = segment;
        strip_segment(&mut segment);
        media_playlist.segments.push(segment);
        assert(media_playlist.segments.deep_view() =~= done.push(segment.deep_view()));
        assert(done.push(segment.deep_view()) =~= strip_playlist_spec(before).segments.take(
            it.index() + 1,
        ));
    }
    assert(media_playlist.segments.deep_view() =~= strip_playlist_spec(before).segments);
}

} // verus!
