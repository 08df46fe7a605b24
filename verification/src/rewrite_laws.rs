//! What holds of every rewritten and every clipped playlist.

use crate::byte_range::ByteRange;
use crate::playlist::{
    ExtTagModel, KeyMethodModel, M3u8ByteRange, MediaPlaylistModel, MediaSegmentModel,
};
use crate::rewrite::{
    advance, advance_map, clip_end_spec, clip_start_spec, last_key, last_map, not_named, origin_tags,
    rewrite_playlist_spec, rewrite_segment_spec, rewrite_segments_spec, segment_extension,
    segment_file_name, supported_tags, tag_with, unsupported_tag_names, Cursor,
    ORIGINAL_BYTE_RANGE, ORIGINAL_URI,
};
use crate::urls::url_join;
use vstd::prelude::*;

verus! {

/// Where rewriting stands before the segment at index `i`.
pub open spec fn cursor_before(
    playlist: MediaPlaylistModel,
    base: Seq<char>,
    last_ext: Option<Seq<char>>,
    i: int,
) -> Cursor {
    rewrite_segments_spec(
        playlist.segments,
        i,
        playlist.media_sequence,
        base,
        Cursor { last_ext, next_byte: 0 },
    ).unwrap().1
}

/// The byte range that rewriting writes out for the segment at index `i`.
pub open spec fn emitted_range(
    playlist: MediaPlaylistModel,
    base: Seq<char>,
    last_ext: Option<Seq<char>>,
    i: int,
) -> Option<ByteRange> {
    advance(
        playlist.segments[i].byte_range,
        cursor_before(playlist, base, last_ext, i).next_byte,
    ).unwrap().0
}

/// Rewriting a run of segments rewrites each of them in turn, from where the
/// ones before it left off.
pub proof fn lemma_rewritten_segment(
    segments: Seq<MediaSegmentModel>,
    n: int,
    first: u64,
    base: Seq<char>,
    start: Cursor,
    i: int,
)
    requires
        0 <= i < n <= segments.len(),
        rewrite_segments_spec(segments, n, first, base, start) is Some,
    ensures
        first + i <= u64::MAX,
        rewrite_segments_spec(segments, i, first, base, start) is Some,
        rewrite_segments_spec(segments, n, first, base, start).unwrap().0.len() == n,
        rewrite_segment_spec(
            segments[i],
            (first + i) as u64,
            base,
            rewrite_segments_spec(segments, i, first, base, start).unwrap().1,
        ) == Some(
            (
                rewrite_segments_spec(segments, n, first, base, start).unwrap().0[i],
                rewrite_segments_spec(segments, i + 1, first, base, start).unwrap().1,
            ),
        ),
    decreases n,
{
    if i < n - 1 {
        lemma_rewritten_segment(segments, n - 1, first, base, start, i);
    } else if n - 1 > 0 {
        lemma_rewritten_segment(segments, n - 1, first, base, start, 0);
    }
}

/// None of the tags that rewriting adds is a low-latency tag.
pub proof fn lemma_origin_tags_supported()
    ensures
        !unsupported_tag_names().contains(ORIGINAL_URI@),
        !unsupported_tag_names().contains(ORIGINAL_BYTE_RANGE@),
{
    reveal_strlit("X-ORIGINAL-URI");
    reveal_strlit("X-ORIGINAL-BYTE-RANGE");
    reveal_strlit("X-PART");
    reveal_strlit("X-PART-INF");
    reveal_strlit("X-PRELOAD-HINT");
    reveal_strlit("X-RENDITION-REPORT");
    reveal_strlit("X-SERVER-CONTROL");
    let names = unsupported_tag_names();
    assert(names.len() == 5);
    assert("X-PRELOAD-HINT"@[2] == 'P');
    assert("X-ORIGINAL-URI"@[2] == 'O');
    assert forall|j: int| 0 <= j < names.len() implies names[j] != ORIGINAL_URI@ by {
        assert(names[j].len() != 14 || names[j][2] == 'P');
    }
    assert forall|j: int| 0 <= j < names.len() implies names[j] != ORIGINAL_BYTE_RANGE@ by {
        assert(names[j].len() != 21);
    }
}

/// A tag with a supported name that stands in `tags` still stands in what
/// is left of `tags` without the low-latency tags.
pub proof fn lemma_supported_tag_stays(tags: Seq<ExtTagModel>, tag: ExtTagModel)
    requires
        tags.contains(tag),
        !unsupported_tag_names().contains(tag.tag),
    ensures
        supported_tags(tags).contains(tag),
{
    let i = choose|i: int| 0 <= i < tags.len() && tags[i] == tag;
    tags.lemma_filter_contains(not_named(unsupported_tag_names()), i);
}

/// Every segment of a rewritten playlist has the name
/// `segment-<media_sequence + i>.<ext>`, and holds in an `X-ORIGINAL-URI` tag
/// the absolute URL that its URI denoted in the playlist.
pub proof fn lemma_rewrite_names_by_sequence(
    playlist: MediaPlaylistModel,
    base: Seq<char>,
    last_ext: Option<Seq<char>>,
    i: int,
)
    requires
        rewrite_playlist_spec(playlist, base, last_ext) is Some,
        0 <= i < playlist.segments.len(),
    ensures
        ({
            let rewritten = rewrite_playlist_spec(playlist, base, last_ext).unwrap().0;
            &&& rewritten.segments.len() == playlist.segments.len()
            &&& rewritten.media_sequence == playlist.media_sequence
            &&& playlist.media_sequence + i <= u64::MAX
            &&& url_join(base, playlist.segments[i].uri) is Some
            &&& rewritten.segments[i].uri == segment_file_name(
                (playlist.media_sequence + i) as u64,
                segment_extension(
                    url_join(base, playlist.segments[i].uri)->0,
                    cursor_before(playlist, base, last_ext, i).last_ext,
                ),
            )
            &&& rewritten.segments[i].unknown_tags.contains(
                tag_with(ORIGINAL_URI@, url_join(base, playlist.segments[i].uri)->0),
            )
        }),
{
    let start = Cursor { last_ext, next_byte: 0 };
    let n = playlist.segments.len() as int;
    lemma_rewritten_segment(playlist.segments, n, playlist.media_sequence, base, start, i);
    lemma_origin_tags_supported();
    let segment = playlist.segments[i];
    let url = url_join(base, segment.uri)->0;
    let rewritten = rewrite_playlist_spec(playlist, base, last_ext).unwrap().0.segments[i];
    let tag = tag_with(ORIGINAL_URI@, url);
    let range = emitted_range(playlist, base, last_ext, i);
    assert forall|key_url: Option<Seq<char>>, map_url: Option<Seq<char>>|
        (#[trigger] (segment.unknown_tags + origin_tags(url, range, key_url, map_url))).contains(
            tag,
        ) by {
        let all = segment.unknown_tags + origin_tags(url, range, key_url, map_url);
        assert(origin_tags(url, range, key_url, map_url)[0] == tag);
        assert(all[segment.unknown_tags.len() as int] == tag);
    }
    assert forall|key_url: Option<Seq<char>>, map_url: Option<Seq<char>>|
        (#[trigger] supported_tags(
            segment.unknown_tags + origin_tags(url, range, key_url, map_url),
        )).contains(tag) by {
        lemma_supported_tag_stays(
            segment.unknown_tags + origin_tags(url, range, key_url, map_url),
            tag,
        );
    }
}

/// Where a byte range of the playlist leaves out its offset, and the segment
/// before it had a byte range, the range written out for it starts where the
/// one written out for the segment before it ended. Both stand in
/// `X-ORIGINAL-BYTE-RANGE` tags of their segments. A map of the segment
/// before changes nothing of this unless it has a byte range of its own,
/// from whose end the chain then goes on.
pub proof fn lemma_byte_range_chain(
    playlist: MediaPlaylistModel,
    base: Seq<char>,
    last_ext: Option<Seq<char>>,
    i: int,
)
    requires
        rewrite_playlist_spec(playlist, base, last_ext) is Some,
        0 <= i,
        i + 1 < playlist.segments.len(),
        playlist.segments[i].byte_range is Some,
        playlist.segments[i].map matches Some(map) ==> map.byte_range is None,
        playlist.segments[i + 1].byte_range is Some,
        playlist.segments[i + 1].byte_range->0.offset is None,
    ensures
        ({
            let rewritten = rewrite_playlist_spec(playlist, base, last_ext).unwrap().0;
            let prev = emitted_range(playlist, base, last_ext, i);
            let next = emitted_range(playlist, base, last_ext, i + 1);
            &&& prev is Some
            &&& next is Some
            &&& prev->0.length == playlist.segments[i].byte_range->0.length
            &&& next->0.length == playlist.segments[i + 1].byte_range->0.length
            &&& next->0.offset == prev->0.offset + prev->0.length
            &&& rewritten.segments[i].unknown_tags.contains(
                tag_with(ORIGINAL_BYTE_RANGE@, prev->0.text()),
            )
            &&& rewritten.segments[i + 1].unknown_tags.contains(
                tag_with(ORIGINAL_BYTE_RANGE@, next->0.text()),
            )
        }),
{
    let start = Cursor { last_ext, next_byte: 0 };
    let n = playlist.segments.len() as int;
    lemma_rewritten_segment(playlist.segments, n, playlist.media_sequence, base, start, i);
    lemma_rewritten_segment(playlist.segments, n, playlist.media_sequence, base, start, i + 1);
    lemma_origin_tags_supported();
    lemma_range_tag_stays(playlist, base, last_ext, i);
    lemma_range_tag_stays(playlist, base, last_ext, i + 1);
}

/// The byte range written out for a segment stands in an
/// `X-ORIGINAL-BYTE-RANGE` tag of the rewritten segment.
pub proof fn lemma_range_tag_stays(
    playlist: MediaPlaylistModel,
    base: Seq<char>,
    last_ext: Option<Seq<char>>,
    i: int,
)
    requires
        rewrite_playlist_spec(playlist, base, last_ext) is Some,
        0 <= i < playlist.segments.len(),
        playlist.segments[i].byte_range is Some,
    ensures
        emitted_range(playlist, base, last_ext, i) is Some,
        rewrite_playlist_spec(playlist, base, last_ext).unwrap().0.segments[i].unknown_tags.contains(
            tag_with(ORIGINAL_BYTE_RANGE@, emitted_range(playlist, base, last_ext, i)->0.text()),
        ),
{
    let start = Cursor { last_ext, next_byte: 0 };
    let n = playlist.segments.len() as int;
    lemma_rewritten_segment(playlist.segments, n, playlist.media_sequence, base, start, i);
    lemma_origin_tags_supported();
    let segment = playlist.segments[i];
    let url = url_join(base, segment.uri)->0;
    let range = emitted_range(playlist, base, last_ext, i);
    let tag = tag_with(ORIGINAL_BYTE_RANGE@, range->0.text());
    assert forall|key_url: Option<Seq<char>>, map_url: Option<Seq<char>>|
        (#[trigger] supported_tags(
            segment.unknown_tags + origin_tags(url, range, key_url, map_url),
        )).contains(tag) by {
        let all = segment.unknown_tags + origin_tags(url, range, key_url, map_url);
        assert(origin_tags(url, range, key_url, map_url)[1] == tag);
        assert(all[segment.unknown_tags.len() as int + 1] == tag);
        lemma_supported_tag_stays(all, tag);
    }
}

/// What is left of `tags` without the low-latency tags holds none of them.
pub proof fn lemma_supported_tags_hold_no_unsupported(tags: Seq<ExtTagModel>, j: int)
    requires
        0 <= j < supported_tags(tags).len(),
    ensures
        !unsupported_tag_names().contains(supported_tags(tags)[j].tag),
{
    tags.lemma_filter_pred(not_named(unsupported_tag_names()), j);
}

/// No rewritten playlist holds a low-latency tag, neither among its own tags
/// nor among those of a segment.
pub proof fn lemma_rewrite_drops_low_latency_tags(
    playlist: MediaPlaylistModel,
    base: Seq<char>,
    last_ext: Option<Seq<char>>,
)
    requires
        rewrite_playlist_spec(playlist, base, last_ext) is Some,
    ensures
        ({
            let rewritten = rewrite_playlist_spec(playlist, base, last_ext).unwrap().0;
            &&& forall|j: int|
                0 <= j < rewritten.unknown_tags.len() ==> !unsupported_tag_names().contains(
                    (#[trigger] rewritten.unknown_tags[j]).tag,
                )
            &&& forall|i: int, j: int|
                0 <= i < rewritten.segments.len() && 0 <= j
                    < rewritten.segments[i].unknown_tags.len()
                    ==> !unsupported_tag_names().contains(
                    (#[trigger] rewritten.segments[i].unknown_tags[j]).tag,
                )
        }),
{
    let rewritten = rewrite_playlist_spec(playlist, base, last_ext).unwrap().0;
    let start = Cursor { last_ext, next_byte: 0 };
    let n = playlist.segments.len() as int;
    assert forall|j: int| 0 <= j < rewritten.unknown_tags.len() implies
        !unsupported_tag_names().contains((#[trigger] rewritten.unknown_tags[j]).tag) by {
        lemma_supported_tags_hold_no_unsupported(playlist.unknown_tags, j);
    }
    assert forall|i: int, j: int|
        0 <= i < rewritten.segments.len() && 0 <= j
            < rewritten.segments[i].unknown_tags.len() implies !unsupported_tag_names().contains(
        (#[trigger] rewritten.segments[i].unknown_tags[j]).tag,
    ) by {
        if n > 0 {
            lemma_rewritten_segment(playlist.segments, n, playlist.media_sequence, base, start, 0);
        }
        lemma_rewritten_segment(playlist.segments, n, playlist.media_sequence, base, start, i);
        let segment = playlist.segments[i];
        let url = url_join(base, segment.uri)->0;
        let range = emitted_range(playlist, base, last_ext, i);
        assert forall|key_url: Option<Seq<char>>, map_url: Option<Seq<char>>|
            0 <= j < (#[trigger] supported_tags(
                segment.unknown_tags + origin_tags(url, range, key_url, map_url),
            )).len() implies !unsupported_tag_names().contains(
            supported_tags(
                segment.unknown_tags + origin_tags(url, range, key_url, map_url),
            )[j].tag,
        ) by {
            lemma_supported_tags_hold_no_unsupported(
                segment.unknown_tags + origin_tags(url, range, key_url, map_url),
                j,
            );
        }
    }
}

/// The last key among the first `n` segments is that of the segment at `j`,
/// where that one has a key and none after it has.
pub proof fn lemma_last_key_is(segments: Seq<MediaSegmentModel>, n: int, j: int)
    requires
        0 <= j < n <= segments.len(),
        segments[j].key is Some,
        forall|k: int| j < k < n ==> segments[k].key is None,
    ensures
        last_key(segments, n) == segments[j].key,
    decreases n,
{
    if j < n - 1 {
        lemma_last_key_is(segments, n - 1, j);
    }
}

/// The last map among the first `n` segments is that of the segment at `j`,
/// where that one has a map and none after it has.
pub proof fn lemma_last_map_is(segments: Seq<MediaSegmentModel>, n: int, j: int)
    requires
        0 <= j < n <= segments.len(),
        segments[j].map is Some,
        forall|k: int| j < k < n ==> segments[k].map is None,
    ensures
        last_map(segments, n) == segments[j].map,
    decreases n,
{
    if j < n - 1 {
        lemma_last_map_is(segments, n - 1, j);
    }
}

/// Clipping from the start keeps the key in effect: where the first segment
/// that stays has no key of its own, it gets the key of the last segment
/// that left with one.
pub proof fn lemma_clip_start_keeps_key(playlist: MediaPlaylistModel, lowest: u64, j: int)
    requires
        playlist.media_sequence < lowest,
        lowest - playlist.media_sequence < playlist.segments.len(),
        0 <= j < lowest - playlist.media_sequence,
        playlist.segments[j].key is Some,
        forall|k: int| j < k < lowest - playlist.media_sequence ==> playlist.segments[k].key is None,
        playlist.segments[lowest - playlist.media_sequence].key is None,
    ensures
        clip_start_spec(playlist, lowest).segments.len() == playlist.segments.len() - (lowest
            - playlist.media_sequence),
        clip_start_spec(playlist, lowest).segments[0].key == playlist.segments[j].key,
{
    lemma_last_key_is(playlist.segments, lowest - playlist.media_sequence, j);
}

/// Clipping from the start keeps the map in effect: where the first segment
/// that stays has no map of its own, it gets the map of the last segment
/// that left with one.
pub proof fn lemma_clip_start_keeps_map(playlist: MediaPlaylistModel, lowest: u64, j: int)
    requires
        playlist.media_sequence < lowest,
        lowest - playlist.media_sequence < playlist.segments.len(),
        0 <= j < lowest - playlist.media_sequence,
        playlist.segments[j].map is Some,
        forall|k: int| j < k < lowest - playlist.media_sequence ==> playlist.segments[k].map is None,
        playlist.segments[lowest - playlist.media_sequence].map is None,
    ensures
        clip_start_spec(playlist, lowest).segments.len() == playlist.segments.len() - (lowest
            - playlist.media_sequence),
        clip_start_spec(playlist, lowest).segments[0].map == playlist.segments[j].map,
{
    lemma_last_map_is(playlist.segments, lowest - playlist.media_sequence, j);
}

/// A playlist clipped at its end is marked as ended, whatever it held.
pub proof fn lemma_clip_end_ends(playlist: MediaPlaylistModel, highest: u64)
    ensures
        clip_end_spec(playlist, highest).end_list,
{
}

/// Whether every URI that rewriting resolves for a segment resolves against
/// `base`: the segment's own, that of an AES-128 key, and that of a map.
pub open spec fn resolves(segment: MediaSegmentModel, base: Seq<char>) -> bool {
    &&& url_join(base, segment.uri) is Some
    &&& segment.key matches Some(key) ==> (key.method == KeyMethodModel::AES128 && key.uri is Some
        ==> url_join(base, key.uri->0) is Some)
    &&& segment.map matches Some(map) ==> url_join(base, map.uri) is Some
}

/// The offset that a byte range gives itself, or 0.
pub open spec fn own_offset(range: Option<M3u8ByteRange>) -> int {
    match range {
        Some(M3u8ByteRange { offset: Some(offset), .. }) => offset as int,
        _ => 0,
    }
}

/// The length of a byte range, or 0 where there is none.
pub open spec fn own_length(range: Option<M3u8ByteRange>) -> int {
    match range {
        Some(range) => range.length as int,
        None => 0,
    }
}

/// The byte range of a segment's map, if it has a map with one.
pub open spec fn map_range(segment: MediaSegmentModel) -> Option<M3u8ByteRange> {
    match segment.map {
        Some(map) => map.byte_range,
        None => None,
    }
}

/// The greatest offset that a byte range of the first `n` segments or of
/// their maps gives itself, or 0.
pub open spec fn greatest_offset(segments: Seq<MediaSegmentModel>, n: int) -> int
    decreases n,
{
    if n <= 0 {
        0
    } else {
        let before = greatest_offset(segments, n - 1);
        let own = own_offset(segments[n - 1].byte_range);
        let of_map = own_offset(map_range(segments[n - 1]));
        if before >= own && before >= of_map {
            before
        } else if own >= of_map {
            own
        } else {
            of_map
        }
    }
}

/// The lengths of all byte ranges of the first `n` segments and of their
/// maps, added up.
pub open spec fn total_length(segments: Seq<MediaSegmentModel>, n: int) -> int
    decreases n,
{
    if n <= 0 {
        0
    } else {
        total_length(segments, n - 1) + own_length(segments[n - 1].byte_range) + own_length(
            map_range(segments[n - 1]),
        )
    }
}

/// The greatest offset and the total length never fall as segments are
/// added.
pub proof fn lemma_ranges_grow(segments: Seq<MediaSegmentModel>, n: int, m: int)
    requires
        0 <= n <= m,
    ensures
        0 <= greatest_offset(segments, n) <= greatest_offset(segments, m),
        0 <= total_length(segments, n) <= total_length(segments, m),
    decreases m,
{
    if n < m {
        lemma_ranges_grow(segments, n, m - 1);
    } else if n > 0 {
        lemma_ranges_grow(segments, n - 1, n - 1);
    }
}

/// A run of segments is rewritten where every URI resolves, the sequence
/// numbers fit in 64 bits, and the byte ranges cannot end beyond 64 bits:
/// the greatest offset that one of them gives itself and all their lengths
/// together stay within 64 bits.
pub proof fn lemma_rewrite_segments_succeed(
    segments: Seq<MediaSegmentModel>,
    n: int,
    first: u64,
    base: Seq<char>,
    start: Cursor,
)
    requires
        0 <= n <= segments.len(),
        forall|i: int| 0 <= i < n ==> resolves(#[trigger] segments[i], base),
        first + n <= u64::MAX + 1,
        start.next_byte == 0,
        greatest_offset(segments, n) + total_length(segments, n) <= u64::MAX,
    ensures
        rewrite_segments_spec(segments, n, first, base, start) is Some,
        rewrite_segments_spec(segments, n, first, base, start).unwrap().1.next_byte
            <= greatest_offset(segments, n) + total_length(segments, n),
    decreases n,
{
    if n > 0 {
        lemma_ranges_grow(segments, n - 1, n);
        lemma_rewrite_segments_succeed(segments, n - 1, first, base, start);
        let segment = segments[n - 1];
        assert(resolves(segment, base));
        let cursor = rewrite_segments_spec(segments, n - 1, first, base, start).unwrap().1;
        let after_segment = advance(segment.byte_range, cursor.next_byte);
        assert(after_segment is Some);
        assert(after_segment.unwrap().1 <= greatest_offset(segments, n) + total_length(
            segments,
            n - 1,
        ) + own_length(segment.byte_range));
        if let Some(map) = segment.map {
            let after_map = advance_map(map.byte_range, after_segment.unwrap().1);
            assert(after_map is Some);
        }
    }
}

/// A playlist is rewritten where every URI of it resolves against `base`,
/// its sequence numbers fit in 64 bits, and its byte ranges cannot end
/// beyond 64 bits. A playlist without byte ranges meets the last of these.
pub proof fn lemma_rewrite_succeeds(
    playlist: MediaPlaylistModel,
    base: Seq<char>,
    last_ext: Option<Seq<char>>,
)
    requires
        forall|i: int|
            0 <= i < playlist.segments.len() ==> resolves(#[trigger] playlist.segments[i], base),
        playlist.media_sequence + playlist.segments.len() <= u64::MAX + 1,
        greatest_offset(playlist.segments, playlist.segments.len() as int) + total_length(
            playlist.segments,
            playlist.segments.len() as int,
        ) <= u64::MAX,
    ensures
        rewrite_playlist_spec(playlist, base, last_ext) is Some,
{
    lemma_rewrite_segments_succeed(
        playlist.segments,
        playlist.segments.len() as int,
        playlist.media_sequence,
        base,
        Cursor { last_ext, next_byte: 0 },
    );
}

/// A playlist without byte ranges has no offsets and no lengths to add up.
pub proof fn lemma_no_byte_ranges(segments: Seq<MediaSegmentModel>, n: int)
    requires
        0 <= n <= segments.len(),
        forall|i: int|
            0 <= i < n ==> (#[trigger] segments[i]).byte_range is None && map_range(segments[i])
                is None,
    ensures
        greatest_offset(segments, n) == 0,
        total_length(segments, n) == 0,
    decreases n,
{
    if n > 0 {
        lemma_no_byte_ranges(segments, n - 1);
        assert(segments[n - 1].byte_range is None);
    }
}

/// A rewritten playlist keeps every tag of its own that is no low-latency
/// tag, in the order in which they stood.
pub proof fn lemma_rewrite_keeps_other_tags(
    playlist: MediaPlaylistModel,
    base: Seq<char>,
    last_ext: Option<Seq<char>>,
)
    requires
        rewrite_playlist_spec(playlist, base, last_ext) is Some,
    ensures
        rewrite_playlist_spec(playlist, base, last_ext).unwrap().0.unknown_tags
            == playlist.unknown_tags.filter(not_named(unsupported_tag_names())),
        forall|j: int|
            0 <= j < playlist.unknown_tags.len() && !unsupported_tag_names().contains(
                (#[trigger] playlist.unknown_tags[j]).tag,
            ) ==> rewrite_playlist_spec(playlist, base, last_ext).unwrap().0.unknown_tags.contains(
                playlist.unknown_tags[j],
            ),
{
    assert forall|j: int|
        0 <= j < playlist.unknown_tags.len() && !unsupported_tag_names().contains(
            (#[trigger] playlist.unknown_tags[j]).tag,
        ) implies rewrite_playlist_spec(playlist, base, last_ext).unwrap().0.unknown_tags.contains(
        playlist.unknown_tags[j],
    ) by {
        lemma_supported_tag_stays(playlist.unknown_tags, playlist.unknown_tags[j]);
    }
}

} // verus!
