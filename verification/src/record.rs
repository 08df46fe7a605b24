//! Recording: what to fetch, under which names, and when to stop.

use crate::byte_range::{parse_byte_range, ByteRange};
use crate::playlist::{
    AlternativeMedia, AlternativeMediaModel, AlternativeMediaType, AlternativeMediaTypeModel,
    Attribute, AttributeModel, ClosedCaptionGroupId, ClosedCaptionGroupIdModel, ExtTag,
    ExtTagModel, InitMap, InitMapModel, Key, KeyModel, MediaSegment, MediaSegmentModel,
    QuotedOrUnquoted, QuotedOrUnquotedModel, VariantStream, VariantStreamModel,
};
use crate::rewrite::{
    ORIGINAL_BYTE_RANGE, ORIGINAL_KEY_URI, ORIGINAL_MAP_URI, ORIGINAL_URI,
};
use crate::select::{MediaSelect, VariantSelectOptions};
use crate::seqs::{first_where, lemma_first_where_unique};
use crate::text::{concat_str, decimal, push_decimal, str_eq};
use vstd::prelude::*;

verus! {

/// Why a recording stopped.
#[derive(Debug, Clone, PartialEq, Eq)]
pub enum RecordError {
    /// What the user selected leaves nothing to record.
    Config(String),
    /// A playlist, a URL or a byte range is malformed.
    Parse(String),
    /// Reading or writing failed.
    Io(String),
    /// The recording was cancelled.
    Cancelled,
}

impl RecordError {
    /// The message of the error.
    pub fn to_string(&self) -> (r: String)
        ensures
            self is Config ==> r@ == "configuration error: "@ + self->Config_0@,
            self is Parse ==> r@ == "parse error: "@ + self->Parse_0@,
            self is Io ==> r@ == "I/O error: "@ + self->Io_0@,
            self is Cancelled ==> r@ == "cancelled"@,
    {
        match self {
            RecordError::Config(message) => concat_str("configuration error: ", message.as_str()),
            RecordError::Parse(message) => concat_str("parse error: ", message.as_str()),
            RecordError::Io(message) => concat_str("I/O error: ", message.as_str()),
            RecordError::Cancelled => "cancelled".to_owned(),
        }
    }
}

/// How many downloads of one media playlist run at the same time.
pub const MAX_CONCURRENT_DOWNLOADS: usize = 4;

/// What to record of a stream.
#[derive(Debug, Copy, Clone)]
pub struct RecordOptions {
    pub variant_select: VariantSelectOptions,
    pub audio: MediaSelect,
    pub video: MediaSelect,
    pub subtitle: MediaSelect,
    /// Where recording starts, in milliseconds from the start of the first
    /// media playlist, or from its end where negative.
    pub start: Option<i64>,
    /// Where recording ends, in milliseconds from the start of the first
    /// media playlist, or from its end where negative.
    pub end: Option<i64>,
}

/// The playing time of the first `n` segments, in milliseconds.
pub open spec fn elapsed(segments: Seq<MediaSegmentModel>, n: int) -> int
    decreases n,
{
    if n <= 0 {
        0
    } else {
        elapsed(segments, n - 1) + segments[n - 1].duration
    }
}

/// The playing time of the segments from index `n` on, in milliseconds.
pub open spec fn remaining(segments: Seq<MediaSegmentModel>, n: int) -> int
    decreases segments.len() - n,
{
    if n >= segments.len() {
        0
    } else {
        remaining(segments, n + 1) + segments[n].duration
    }
}

/// Whether the segment at index `i` plays at `offset` milliseconds: from
/// the start of the playlist where `offset` is not negative, and else from
/// its end. A segment plays from its start up to, not including, its end.
pub open spec fn plays_at(segments: Seq<MediaSegmentModel>, i: int, offset: int) -> bool {
    if offset >= 0 {
        elapsed(segments, i) <= offset < elapsed(segments, i + 1)
    } else {
        remaining(segments, i + 1) <= -offset < remaining(segments, i)
    }
}

/// The playing time never falls as segments are added.
pub proof fn lemma_elapsed_monotone(segments: Seq<MediaSegmentModel>, i: int, j: int)
    requires
        0 <= i <= j,
    ensures
        0 <= elapsed(segments, i) <= elapsed(segments, j),
    decreases j,
{
    if i < j {
        lemma_elapsed_monotone(segments, i, j - 1);
    } else if i > 0 {
        lemma_elapsed_monotone(segments, i - 1, i - 1);
    }
}

/// The playing time that remains never rises as segments pass.
pub proof fn lemma_remaining_monotone(segments: Seq<MediaSegmentModel>, i: int, j: int)
    requires
        0 <= i <= j,
    ensures
        remaining(segments, i) >= remaining(segments, j) >= 0,
    decreases segments.len() - i,
{
    if i < j && i < segments.len() {
        lemma_remaining_monotone(segments, i + 1, j);
    } else if i < j {
    } else if j < segments.len() {
        lemma_remaining_monotone(segments, j + 1, j + 1);
    }
}

/// At most one segment plays at any offset.
pub proof fn lemma_plays_at_unique(segments: Seq<MediaSegmentModel>, i: int, j: int, offset: int)
    requires
        0 <= i < segments.len(),
        0 <= j < segments.len(),
        plays_at(segments, i, offset),
        plays_at(segments, j, offset),
    ensures
        i == j,
{
    if i < j {
        lemma_elapsed_monotone(segments, i + 1, j);
        lemma_remaining_monotone(segments, i + 1, j);
    } else if j < i {
        lemma_elapsed_monotone(segments, j + 1, i);
        lemma_remaining_monotone(segments, j + 1, i);
    }
}

/// The index of the segment that plays at `offset`, if one does.
pub open spec fn index_at_offset(segments: Seq<MediaSegmentModel>, offset: int) -> Option<int> {
    if exists|i: int| 0 <= i < segments.len() && plays_at(segments, i, offset) {
        Some(choose|i: int| 0 <= i < segments.len() && plays_at(segments, i, offset))
    } else {
        None
    }
}

/// `index_at_offset` names the one segment that plays at `offset`.
pub proof fn lemma_index_at_offset(segments: Seq<MediaSegmentModel>, offset: int, i: int)
    requires
        0 <= i < segments.len(),
        plays_at(segments, i, offset),
    ensures
        index_at_offset(segments, offset) == Some(i),
{
    let j = choose|j: int| 0 <= j < segments.len() && plays_at(segments, j, offset);
    lemma_plays_at_unique(segments, i, j, offset);
}

/// The index of the segment that plays at `offset` milliseconds, counted
/// from the start of the playlist, or from its end where `offset` is
/// negative; `None` where the playlist does not reach that far.
pub fn find_segment_index_by_offset(segments: &[MediaSegment], offset: i64) -> (r: Option<usize>)
    ensures
        match r {
            Some(i) => i < segments@.len() && plays_at(
                segments.deep_view(),
                i as int,
                offset as int,
            ) && index_at_offset(segments.deep_view(), offset as int) == Some(i as int),
            None => index_at_offset(segments.deep_view(), offset as int) is None && forall|i: int|
                0 <= i < segments@.len() ==> !plays_at(segments.deep_view(), i, offset as int),
        },
{
    let r = find_index_by_offset(segments, offset);
    proof {
        if let Some(i) = r {
            lemma_index_at_offset(segments.deep_view(), offset as int, i as int);
        }
    }
    r
}

fn find_index_by_offset(segments: &[MediaSegment], offset: i64) -> (r: Option<usize>)
    ensures
        match r {
            Some(i) => i < segments@.len() && plays_at(
                segments.deep_view(),
                i as int,
                offset as int,
            ),
            None => forall|i: int|
                0 <= i < segments@.len() ==> !plays_at(segments.deep_view(), i, offset as int),
        },
{
    let ghost model = segments.deep_view();
    let len = segments.len();
    if offset >= 0 {
        let target: u64 = offset as u64;
        let mut start: u64 = 0;
        let mut i: usize = 0;
        while i < len
            invariant
                i <= len,
                len == segments@.len(),
                model == segments.deep_view(),
                target == offset,
                offset >= 0,
                start == elapsed(model, i as int),
                start <= target,
                forall|j: int| 0 < j <= i ==> #[trigger] elapsed(model, j) <= target,
            decreases len - i,
        {
            assert(model[i as int].duration == segments@[i as int].duration);
            match start.checked_add(segments[i].duration) {
                None => {
                    return Some(i);
                },
                Some(end) => {
                    if target < end {
                        return Some(i);
                    }
                    start = end;
                },
            }
            i += 1;
        }
        None
    } else {
        let target: u64 = (-(offset + 1)) as u64 + 1;
        let mut start: u64 = 0;
        let mut i: usize = len;
        while i > 0
            invariant
                i <= len,
                len == segments@.len(),
                model == segments.deep_view(),
                target == -offset,
                offset < 0,
                start == remaining(model, i as int),
                start <= target,
                forall|j: int| i <= j < len ==> #[trigger] remaining(model, j) <= target,
            decreases i,
        {
            i -= 1;
            assert(model[i as int].duration == segments@[i as int].duration);
            match start.checked_add(segments[i].duration) {
                None => {
                    return Some(i);
                },
                Some(end) => {
                    if target < end {
                        return Some(i);
                    }
                    start = end;
                },
            }
        }
        None
    }
}

fn text_is(text: &Option<String>, expected: &str) -> (r: bool)
    ensures
        r == (text.deep_view() == Some(expected@)),
{
    match text {
        Some(text) => str_eq(text.as_str(), expected),
        None => false,
    }
}

/// Whether the rendition belongs to a group that the variant names for the
/// rendition's kind. A rendition of another kind belongs to none.
pub open spec fn applies_to(media: AlternativeMediaModel, variant: VariantStreamModel) -> bool {
    match media.media_type {
        AlternativeMediaTypeModel::Audio => variant.audio == Some(media.group_id),
        AlternativeMediaTypeModel::Video => variant.video == Some(media.group_id),
        AlternativeMediaTypeModel::Subtitles => variant.subtitles == Some(media.group_id),
        AlternativeMediaTypeModel::ClosedCaptions => variant.closed_captions == Some(
            ClosedCaptionGroupIdModel::GroupId(media.group_id),
        ),
        AlternativeMediaTypeModel::Other(_) => false,
    }
}

/// Decides [`applies_to`].
pub fn media_applies_to_variant(media: &AlternativeMedia, variant_stream: &VariantStream) -> (r:
    bool)
    ensures
        r == applies_to(media.deep_view(), variant_stream.deep_view()),
{
    match &media.media_type {
        AlternativeMediaType::Audio => text_is(&variant_stream.audio, media.group_id.as_str()),
        AlternativeMediaType::Video => text_is(&variant_stream.video, media.group_id.as_str()),
        AlternativeMediaType::Subtitles => text_is(
            &variant_stream.subtitles,
            media.group_id.as_str(),
        ),
        AlternativeMediaType::ClosedCaptions => match &variant_stream.closed_captions {
            Some(ClosedCaptionGroupId::GroupId(group_id)) => str_eq(
                group_id.as_str(),
                media.group_id.as_str(),
            ),
            _ => false,
        },
        AlternativeMediaType::Other(_) => false,
    }
}

/// One file to fetch: from where, which part of it, and under which name
/// to store it.
#[derive(Debug, Clone, PartialEq, Eq)]
pub struct Download {
    pub url: String,
    pub byte_range: Option<ByteRange>,
    pub file_name: String,
}

/// Model of [`Download`].
pub ghost struct DownloadModel {
    pub url: Seq<char>,
    pub byte_range: Option<ByteRange>,
    pub file_name: Seq<char>,
}

impl DeepView for Download {
    type V = DownloadModel;

    open spec fn deep_view(&self) -> DownloadModel {
        DownloadModel { url: self.url@, byte_range: self.byte_range, file_name: self.file_name@ }
    }
}

/// Holds of the tags with the name `name`.
pub open spec fn tag_named(name: Seq<char>) -> spec_fn(ExtTagModel) -> bool {
    |t: ExtTagModel| t.tag == name
}

/// Holds of the attributes with the name `name`.
pub open spec fn attribute_named(name: Seq<char>) -> spec_fn(AttributeModel) -> bool {
    |a: AttributeModel| a.name == name
}

/// The first tag with the name `name`, if there is one.
pub open spec fn first_tag(tags: Seq<ExtTagModel>, name: Seq<char>) -> Option<ExtTagModel> {
    if first_where(tags, tag_named(name)) < tags.len() {
        Some(tags[first_where(tags, tag_named(name))])
    } else {
        None
    }
}

/// The value of the first attribute with the name `name`, if there is one.
pub open spec fn first_attribute(attributes: Seq<AttributeModel>, name: Seq<char>) -> Option<
    QuotedOrUnquotedModel,
> {
    if first_where(attributes, attribute_named(name)) < attributes.len() {
        Some(attributes[first_where(attributes, attribute_named(name))].value)
    } else {
        None
    }
}

/// The first tag with the name `name`, by [`first_tag`].
pub fn find_tag<'a>(tags: &'a Vec<ExtTag>, name: &str) -> (r: Option<&'a ExtTag>)
    ensures
        r.deep_view() == first_tag(tags.deep_view(), name@),
{
    let ghost model = tags.deep_view();
    let mut i: usize = 0;
    while i < tags.len()
        invariant
            i <= tags.len(),
            model == tags.deep_view(),
            forall|j: int| 0 <= j < i ==> (#[trigger] model[j]).tag != name@,
        decreases tags.len() - i,
    {
        assert(model[i as int] == tags@[i as int].deep_view());
        if str_eq(tags[i].tag.as_str(), name) {
            proof {
                lemma_first_where_unique(model, tag_named(name@), i as int);
            }
            return Some(&tags[i]);
        }
        i += 1;
    }
    proof {
        lemma_first_where_unique(model, tag_named(name@), model.len() as int);
    }
    None
}

/// The value of the first attribute with the name `name`, by
/// [`first_attribute`].
pub fn find_attribute<'a>(attributes: &'a Vec<Attribute>, name: &str) -> (r: Option<
    &'a QuotedOrUnquoted,
>)
    ensures
        r.deep_view() == first_attribute(attributes.deep_view(), name@),
{
    let ghost model = attributes.deep_view();
    let mut i: usize = 0;
    while i < attributes.len()
        invariant
            i <= attributes.len(),
            model == attributes.deep_view(),
            forall|j: int| 0 <= j < i ==> (#[trigger] model[j]).name != name@,
        decreases attributes.len() - i,
    {
        assert(model[i as int] == attributes@[i as int].deep_view());
        if str_eq(attributes[i].name.as_str(), name) {
            proof {
                lemma_first_where_unique(model, attribute_named(name@), i as int);
            }
            return Some(&attributes[i].value);
        }
        i += 1;
    }
    proof {
        lemma_first_where_unique(model, attribute_named(name@), model.len() as int);
    }
    None
}

/// The byte range that an optional text denotes: none for no text, and
/// the outer `None` for a text that denotes no byte range.
pub open spec fn optional_range(text: Option<Seq<char>>) -> Option<Option<ByteRange>> {
    match text {
        None => Some(None),
        Some(text) => match parse_byte_range(text) {
            Ok(range) => Some(Some(range)),
            Err(_) => None,
        },
    }
}

/// The download of a rewritten segment: from the URL in its first
/// `X-ORIGINAL-URI` tag, the part that its first `X-ORIGINAL-BYTE-RANGE` tag
/// names, if it has one, into the file that its URI names. `None` where the
/// first tag is missing, either tag has no value, or the byte range is
/// malformed.
pub open spec fn segment_download(segment: MediaSegmentModel) -> Option<DownloadModel> {
    match first_tag(segment.unknown_tags, ORIGINAL_URI@) {
        Some(ExtTagModel { rest: Some(url), .. }) => match first_tag(
            segment.unknown_tags,
            ORIGINAL_BYTE_RANGE@,
        ) {
            None => Some(DownloadModel { url, byte_range: None, file_name: segment.uri }),
            Some(ExtTagModel { rest: Some(text), .. }) => match parse_byte_range(text) {
                Ok(range) => Some(
                    DownloadModel { url, byte_range: Some(range), file_name: segment.uri },
                ),
                Err(_) => None,
            },
            Some(_) => None,
        },
        _ => None,
    }
}

/// The download of the key of a rewritten segment, if the key is one that
/// is stored: from the URL in the segment's first `X-ORIGINAL-KEY-URI` tag
/// into the file that the key's URI names. The outer `None` says that the
/// tag has no value or the key no URI.
pub open spec fn key_download(key: KeyModel, segment: MediaSegmentModel) -> Option<
    Option<DownloadModel>,
> {
    match first_tag(segment.unknown_tags, ORIGINAL_KEY_URI@) {
        None => Some(None),
        Some(tag) => match (tag.rest, key.uri) {
            (Some(url), Some(file_name)) => Some(
                Some(DownloadModel { url, byte_range: None, file_name }),
            ),
            _ => None,
        },
    }
}

/// The download of the map of a rewritten segment, if the segment says
/// where it came from: from the URL in the segment's first
/// `X-ORIGINAL-MAP-URI` tag, the part that the map's `X-ORIGINAL-BYTE-RANGE`
/// attribute names, if it has one, into the file that the map's URI names.
/// The outer `None` says that the tag has no value or the byte range is
/// malformed.
pub open spec fn map_download(map: InitMapModel, segment: MediaSegmentModel) -> Option<
    Option<DownloadModel>,
> {
    match first_tag(segment.unknown_tags, ORIGINAL_MAP_URI@) {
        None => Some(None),
        Some(ExtTagModel { rest: Some(url), .. }) => match first_attribute(
            map.other_attributes,
            ORIGINAL_BYTE_RANGE@,
        ) {
            None => Some(Some(DownloadModel { url, byte_range: None, file_name: map.uri })),
            Some(value) => match parse_byte_range(value.text()) {
                Ok(range) => Some(
                    Some(DownloadModel { url, byte_range: Some(range), file_name: map.uri }),
                ),
                Err(_) => None,
            },
        },
        Some(_) => None,
    }
}

/// The downloads of one rewritten segment: the segment, then its key, then
/// its map. `None` where one of them cannot be told.
pub open spec fn segment_downloads(segment: MediaSegmentModel) -> Option<Seq<DownloadModel>> {
    match segment_download(segment) {
        None => None,
        Some(own) => match (match segment.key {
            Some(key) => key_download(key, segment),
            None => Some(None),
        }) {
            None => None,
            Some(key) => match (match segment.map {
                Some(map) => map_download(map, segment),
                None => Some(None),
            }) {
                None => None,
                Some(map) => Some(
                    seq![own] + (match key {
                        Some(d) => seq![d],
                        None => Seq::empty(),
                    }) + (match map {
                        Some(d) => seq![d],
                        None => Seq::empty(),
                    }),
                ),
            },
        },
    }
}

/// The downloads of the first `n` rewritten segments, in their order.
pub open spec fn playlist_downloads(segments: Seq<MediaSegmentModel>, n: int) -> Option<
    Seq<DownloadModel>,
>
    decreases n,
{
    if n <= 0 {
        Some(Seq::empty())
    } else {
        match (playlist_downloads(segments, n - 1), segment_downloads(segments[n - 1])) {
            (Some(before), Some(own)) => Some(before + own),
            _ => None,
        }
    }
}

/// The parse error that says `what` is missing or malformed.
fn missing(what: &str) -> (r: RecordError)
    ensures
        r is Parse,
        r->Parse_0@ == what@,
{
    RecordError::Parse(what.to_owned())
}

/// The download of a rewritten segment, by [`segment_download`].
pub fn download_segment(media_segment: &MediaSegment) -> (r: Result<Download, RecordError>)
    ensures
        match segment_download(media_segment.deep_view()) {
            Some(download) => r is Ok && r->Ok_0.deep_view() == download,
            None => r is Err && r->Err_0 is Parse,
        },
{
    let segment_url = match find_tag(&media_segment.unknown_tags, ORIGINAL_URI) {
        Some(tag) => match &tag.rest {
            Some(url) => url,
            None => {
                return Err(missing("Expected original URL in #EXT-X-ORIGINAL-URI"));
            },
        },
        None => {
            return Err(missing("Expected original URL in #EXT-X-ORIGINAL-URI"));
        },
    };
    let segment_byte_range = match find_tag(&media_segment.unknown_tags, ORIGINAL_BYTE_RANGE) {
        None => None,
        Some(tag) => match &tag.rest {
            None => {
                return Err(missing("Invalid byte range in #EXT-X-ORIGINAL-BYTE-RANGE"));
            },
            Some(text) => match ByteRange::parse(text.as_str()) {
                Ok(range) => Some(range),
                Err(_) => {
                    return Err(missing("Invalid byte range in #EXT-X-ORIGINAL-BYTE-RANGE"));
                },
            },
        },
    };
    Ok(
        Download {
            url: segment_url.clone(),
            byte_range: segment_byte_range,
            file_name: media_segment.uri.clone(),
        },
    )
}

/// The download of the key of a rewritten segment, by [`key_download`].
pub fn download_key(key: &Key, media_segment: &MediaSegment) -> (r: Result<
    Option<Download>,
    RecordError,
>)
    ensures
        match key_download(key.deep_view(), media_segment.deep_view()) {
            Some(download) => r is Ok && r->Ok_0.deep_view() == download,
            None => r is Err && r->Err_0 is Parse,
        },
{
    let original_key_tag = match find_tag(&media_segment.unknown_tags, ORIGINAL_KEY_URI) {
        Some(tag) => tag,
        None => {
            return Ok(None);
        },
    };
    match (&original_key_tag.rest, &key.uri) {
        (Some(key_uri), Some(key_file)) => Ok(
            Some(Download { url: key_uri.clone(), byte_range: None, file_name: key_file.clone() }),
        ),
        _ => Err(missing("Expected original URL in #EXT-X-ORIGINAL-KEY-URI")),
    }
}

/// The download of the map of a rewritten segment, by [`map_download`].
pub fn download_map(map: &InitMap, media_segment: &MediaSegment) -> (r: Result<
    Option<Download>,
    RecordError,
>)
    ensures
        match map_download(map.deep_view(), media_segment.deep_view()) {
            Some(download) => r is Ok && r->Ok_0.deep_view() == download,
            None => r is Err && r->Err_0 is Parse,
        },
{
    let original_map_tag = match find_tag(&media_segment.unknown_tags, ORIGINAL_MAP_URI) {
        Some(tag) => tag,
        None => {
            return Ok(None);
        },
    };
    let map_uri = match &original_map_tag.rest {
        Some(url) => url,
        None => {
            return Err(missing("Expected original URL in #EXT-X-ORIGINAL-MAP-URI"));
        },
    };
    let map_byte_range = match find_attribute(&map.other_attributes, ORIGINAL_BYTE_RANGE) {
        None => None,
        Some(value) => match ByteRange::parse(value.as_str()) {
            Ok(range) => Some(range),
            Err(_) => {
                return Err(missing("Invalid byte range in X-ORIGINAL-BYTE-RANGE"));
            },
        },
    };
    Ok(
        Some(
            Download {
                url: map_uri.clone(),
                byte_range: map_byte_range,
                file_name: map.uri.clone(),
            },
        ),
    )
}

/// The downloads of one rewritten segment, by [`segment_downloads`].
pub fn make_segment_download_tasks(segment: &MediaSegment) -> (r: Result<
    Vec<Download>,
    RecordError,
>)
    ensures
        match segment_downloads(segment.deep_view()) {
            Some(downloads) => r is Ok && r->Ok_0.deep_view() == downloads,
            None => r is Err && r->Err_0 is Parse,
        },
{
    let mut tasks: Vec<Download> = Vec::with_capacity(3);
    let own = match download_segment(segment) {
        Ok(download) => download,
        Err(e) => {
            return Err(e);
        },
    };
    tasks.push(own);
    assert(tasks.deep_view() =~= seq![own.deep_view()]);
    let ghost first = tasks.deep_view();
    match &segment.key {
        Some(key) => {
            match download_key(key, segment) {
                Ok(Some(download)) => {
                    tasks.push(download);
                    assert(tasks.deep_view() =~= first + seq![download.deep_view()]);
                },
                Ok(None) => {
                    assert(tasks.deep_view() =~= first + Seq::<DownloadModel>::empty());
                },
                Err(e) => {
                    return Err(e);
                },
            }
        },
        None => {
            assert(tasks.deep_view() =~= first + Seq::<DownloadModel>::empty());
        },
    }
    let ghost second = tasks.deep_view();
    match &segment.map {
        Some(map) => {
            match download_map(map, segment) {
                Ok(Some(download)) => {
                    tasks.push(download);
                    assert(tasks.deep_view() =~= second + seq![download.deep_view()]);
                },
                Ok(None) => {
                    assert(tasks.deep_view() =~= second + Seq::<DownloadModel>::empty());
                },
                Err(e) => {
                    return Err(e);
                },
            }
        },
        None => {
            assert(tasks.deep_view() =~= second + Seq::<DownloadModel>::empty());
        },
    }
    Ok(tasks)
}

/// Once the downloads of the first `n` segments cannot be told, those of no
/// longer run can.
pub proof fn lemma_playlist_downloads_none(segments: Seq<MediaSegmentModel>, n: int, m: int)
    requires
        n <= m,
        playlist_downloads(segments, n) is None,
    ensures
        playlist_downloads(segments, m) is None,
    decreases m - n,
{
    if n < m {
        lemma_playlist_downloads_none(segments, n, m - 1);
    }
}

/// The downloads of all segments of a rewritten playlist, in the order of
/// the segments, by [`playlist_downloads`].
pub fn download_segments(media_segments: &[MediaSegment]) -> (r: Result<
    Vec<Download>,
    RecordError,
>)
    ensures
        match playlist_downloads(media_segments.deep_view(), media_segments@.len() as int) {
            Some(downloads) => r is Ok && r->Ok_0.deep_view() == downloads,
            None => r is Err && r->Err_0 is Parse,
        },
{
    let ghost model = media_segments.deep_view();
    let mut all: Vec<Download> = Vec::new();
    assert(all.deep_view() =~= Seq::<DownloadModel>::empty());
    let mut i: usize = 0;
    while i < media_segments.len()
        invariant
            i <= media_segments.len(),
            model == media_segments.deep_view(),
            playlist_downloads(model, i as int) == Some(all.deep_view()),
        decreases media_segments.len() - i,
    {
        assert(model[i as int] == media_segments@[i as int].deep_view());
        let mut tasks = match make_segment_download_tasks(&media_segments[i]) {
            Ok(tasks) => tasks,
            Err(e) => {
                proof {
                    lemma_playlist_downloads_none(model, i + 1, model.len() as int);
                }
                return Err(e);
            },
        };
        let ghost before = all.deep_view();
        let ghost added = tasks.deep_view();
        all.append(&mut tasks);
        assert(all.deep_view() =~= before + added);
        i += 1;
    }
    Ok(all)
}

/// The last byte of the range, counted from the start of the resource.
pub open spec fn last_byte(range: ByteRange) -> int {
    range.offset + range.length - 1
}

/// The value of the `Range` header that asks for the range. The last byte
/// that the header names is part of the range.
pub open spec fn range_header_text(range: ByteRange) -> Seq<char> {
    "bytes="@ + decimal(range.offset as nat) + seq!['-'] + decimal(last_byte(range) as nat)
}

/// The value of the `Range` header that asks for `byte_range`, by
/// [`range_header_text`].
pub fn range_header(byte_range: ByteRange) -> (r: String)
    requires
        0 <= last_byte(byte_range) <= u64::MAX,
    ensures
        r@ == range_header_text(byte_range),
{
    let start = byte_range.offset;
    // The end byte of a range request is inclusive.
    let end: u64 = if byte_range.length == 0 {
        start - 1
    } else {
        start + (byte_range.length - 1)
    };
    let mut out = "bytes=".to_owned();
    push_decimal(&mut out, start);
    out.push('-');
    push_decimal(&mut out, end);
    out
}

} // verus!
