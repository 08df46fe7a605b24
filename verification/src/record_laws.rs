//! What recording fetches for a playlist that it has rewritten.

use crate::byte_range::{lemma_byte_range_round_trip, ByteRange};
use crate::playlist::{
    AttributeModel, ExtTagModel, MediaPlaylistModel, MediaSegmentModel, QuotedOrUnquotedModel,
};
use crate::record::{
    attribute_named, first_attribute, first_tag, playlist_downloads, segment_downloads, tag_named,
    DownloadModel,
};
use crate::rewrite::{
    advance, advance_map, key_file_name, key_source, map_file_name, not_attribute, not_named, origin_tags,
    rewrite_playlist_spec, rewrite_segment_spec, segment_extension, segment_file_name,
    supported_tags, tag_with, unsupported_tag_names, with_attribute, without_tags, Cursor,
    ORIGINAL_BYTE_RANGE, ORIGINAL_KEY_URI, ORIGINAL_MAP_URI, ORIGINAL_URI,
};
use crate::rewrite_laws::{cursor_before, lemma_rewritten_segment};
use crate::seqs::{first_where, lemma_first_where, lemma_first_where_unique};
use crate::urls::url_join;
use vstd::prelude::*;

verus! {

/// The first tag of a name in a list with one more tag at its end is the
/// first one in the list, or else the new tag where it has the name.
pub proof fn lemma_first_tag_push(tags: Seq<ExtTagModel>, tag: ExtTagModel, name: Seq<char>)
    ensures
        first_tag(tags.push(tag), name) == match first_tag(tags, name) {
            Some(found) => Some(found),
            None => if tag.tag == name {
                Some(tag)
            } else {
                None
            },
        },
{
    let p = tag_named(name);
    lemma_first_where(tags, p);
    let k = first_where(tags, p);
    let more = tags.push(tag);
    if k < tags.len() {
        assert forall|i: int| 0 <= i < k implies !p(#[trigger] more[i]) by {
            assert(more[i] == tags[i]);
        }
        assert(more[k] == tags[k]);
        lemma_first_where_unique(more, p, k);
    } else {
        assert forall|i: int| 0 <= i < tags.len() implies !p(#[trigger] more[i]) by {
            assert(more[i] == tags[i]);
        }
        if tag.tag == name {
            lemma_first_where_unique(more, p, tags.len() as int);
        } else {
            lemma_first_where_unique(more, p, more.len() as int);
        }
    }
}

/// Removing tags of other names leaves the first tag of a name what it was.
pub proof fn lemma_first_tag_without(
    tags: Seq<ExtTagModel>,
    names: Seq<Seq<char>>,
    name: Seq<char>,
)
    requires
        !names.contains(name),
    ensures
        first_tag(without_tags(tags, names), name) == first_tag(tags, name),
    decreases tags.len(),
{
    reveal(Seq::filter);
    if tags.len() > 0 {
        let before = tags.drop_last();
        let last = tags.last();
        lemma_first_tag_without(before, names, name);
        assert(tags =~= before.push(last));
        lemma_first_tag_push(before, last, name);
        if not_named(names)(last) {
            lemma_first_tag_push(without_tags(before, names), last, name);
        }
    }
}

/// The first tag of a name in two lists, one after the other, is the first
/// one in the first list, or else the first one in the second.
pub proof fn lemma_first_tag_add(a: Seq<ExtTagModel>, b: Seq<ExtTagModel>, name: Seq<char>)
    ensures
        first_tag(a + b, name) == match first_tag(a, name) {
            Some(found) => Some(found),
            None => first_tag(b, name),
        },
    decreases b.len(),
{
    if b.len() == 0 {
        assert(a + b =~= a);
        lemma_first_where(b, tag_named(name));
    } else {
        let before = b.drop_last();
        let last = b.last();
        lemma_first_tag_add(a, before, name);
        assert(b =~= before.push(last));
        assert(a + b =~= (a + before).push(last));
        lemma_first_tag_push(a + before, last, name);
        lemma_first_tag_push(before, last, name);
    }
}

/// A list without a tag of a name has no first tag of that name.
pub proof fn lemma_first_tag_absent(tags: Seq<ExtTagModel>, name: Seq<char>)
    requires
        forall|j: int| 0 <= j < tags.len() ==> (#[trigger] tags[j]).tag != name,
    ensures
        first_tag(tags, name) is None,
{
    lemma_first_where_unique(tags, tag_named(name), tags.len() as int);
}

/// The names of the tags that rewriting adds, which say where a segment's
/// resources came from.
pub open spec fn origin_tag_names() -> Seq<Seq<char>> {
    seq![ORIGINAL_URI@, ORIGINAL_BYTE_RANGE@, ORIGINAL_KEY_URI@, ORIGINAL_MAP_URI@]
}

/// The names of the tags that rewriting adds differ from each other, and
/// none is the name of a low-latency tag.
pub proof fn lemma_origin_tag_names()
    ensures
        ORIGINAL_URI@ != ORIGINAL_BYTE_RANGE@,
        ORIGINAL_URI@ != ORIGINAL_KEY_URI@,
        ORIGINAL_URI@ != ORIGINAL_MAP_URI@,
        ORIGINAL_BYTE_RANGE@ != ORIGINAL_KEY_URI@,
        ORIGINAL_BYTE_RANGE@ != ORIGINAL_MAP_URI@,
        ORIGINAL_KEY_URI@ != ORIGINAL_MAP_URI@,
        forall|j: int|
            0 <= j < origin_tag_names().len() ==> !unsupported_tag_names().contains(
                #[trigger] origin_tag_names()[j],
            ),
{
    reveal_strlit("X-ORIGINAL-URI");
    reveal_strlit("X-ORIGINAL-BYTE-RANGE");
    reveal_strlit("X-ORIGINAL-KEY-URI");
    reveal_strlit("X-ORIGINAL-MAP-URI");
    reveal_strlit("X-PART");
    reveal_strlit("X-PART-INF");
    reveal_strlit("X-PRELOAD-HINT");
    reveal_strlit("X-RENDITION-REPORT");
    reveal_strlit("X-SERVER-CONTROL");
    assert(ORIGINAL_URI@.len() == 14);
    assert(ORIGINAL_BYTE_RANGE@.len() == 21);
    assert(ORIGINAL_KEY_URI@.len() == 18);
    assert(ORIGINAL_MAP_URI@.len() == 18);
    assert(ORIGINAL_KEY_URI@[11] == 'K');
    assert(ORIGINAL_MAP_URI@[11] == 'M');
    assert(ORIGINAL_BYTE_RANGE@[2] == 'O');
    assert("X-ORIGINAL-URI"@[2] == 'O');
    assert("X-ORIGINAL-KEY-URI"@[2] == 'O');
    assert("X-ORIGINAL-MAP-URI"@[2] == 'O');
    assert("X-PRELOAD-HINT"@[2] == 'P');
    assert("X-RENDITION-REPORT"@[2] == 'R');
    let low = unsupported_tag_names();
    assert(low.len() == 5);
    assert forall|j: int| 0 <= j < origin_tag_names().len() implies !low.contains(
        #[trigger] origin_tag_names()[j],
    ) by {
        let name = origin_tag_names()[j];
        assert(name[2] == 'O');
        assert forall|k: int| 0 <= k < low.len() implies low[k] != name by {
            assert(low[k].len() != name.len() || low[k][2] != 'O');
        }
    }
}

/// The first tag of a name in a list of one tag is that tag where it has
/// the name.
pub proof fn lemma_first_tag_single(tag: ExtTagModel, name: Seq<char>)
    ensures
        first_tag(seq![tag], name) == if tag.tag == name {
            Some(tag)
        } else {
            None::<ExtTagModel>
        },
        first_tag(Seq::<ExtTagModel>::empty(), name) is None,
{
    let none = Seq::<ExtTagModel>::empty();
    lemma_first_tag_absent(none, name);
    lemma_first_tag_push(none, tag, name);
    assert(seq![tag] =~= none.push(tag));
}

/// Among the tags that rewriting adds, the first of each name is the one
/// that rewriting adds under that name, if it adds one.
pub proof fn lemma_first_origin_tags(
    url: Seq<char>,
    range: Option<ByteRange>,
    key_url: Option<Seq<char>>,
    map_url: Option<Seq<char>>,
)
    ensures
        first_tag(origin_tags(url, range, key_url, map_url), ORIGINAL_URI@) == Some(
            tag_with(ORIGINAL_URI@, url),
        ),
        first_tag(origin_tags(url, range, key_url, map_url), ORIGINAL_BYTE_RANGE@) == match range {
            Some(r) => Some(tag_with(ORIGINAL_BYTE_RANGE@, r.text())),
            None => None,
        },
        first_tag(origin_tags(url, range, key_url, map_url), ORIGINAL_KEY_URI@) == match key_url {
            Some(u) => Some(tag_with(ORIGINAL_KEY_URI@, u)),
            None => None,
        },
        first_tag(origin_tags(url, range, key_url, map_url), ORIGINAL_MAP_URI@) == match map_url {
            Some(u) => Some(tag_with(ORIGINAL_MAP_URI@, u)),
            None => None,
        },
{
    lemma_origin_tag_names();
    let a = seq![tag_with(ORIGINAL_URI@, url)];
    let b = match range {
        Some(r) => seq![tag_with(ORIGINAL_BYTE_RANGE@, r.text())],
        None => Seq::empty(),
    };
    let c = match key_url {
        Some(u) => seq![tag_with(ORIGINAL_KEY_URI@, u)],
        None => Seq::empty(),
    };
    let d = match map_url {
        Some(u) => seq![tag_with(ORIGINAL_MAP_URI@, u)],
        None => Seq::empty(),
    };
    assert(origin_tags(url, range, key_url, map_url) == a + b + c + d);
    assert forall|name: Seq<char>| #[trigger]
        first_tag(a + b + c + d, name) == match first_tag(a, name) {
            Some(t) => Some(t),
            None => match first_tag(b, name) {
                Some(t) => Some(t),
                None => match first_tag(c, name) {
                    Some(t) => Some(t),
                    None => first_tag(d, name),
                },
            },
        } by {
        lemma_first_tag_add(a + b + c, d, name);
        lemma_first_tag_add(a + b, c, name);
        lemma_first_tag_add(a, b, name);
    }
    assert forall|name: Seq<char>| #![auto]
        first_tag(a, name) == (if ORIGINAL_URI@ == name {
            Some(tag_with(ORIGINAL_URI@, url))
        } else {
            None
        }) by {
        lemma_first_tag_single(tag_with(ORIGINAL_URI@, url), name);
    }
    assert forall|name: Seq<char>| #![auto]
        first_tag(b, name) == (if range is Some && ORIGINAL_BYTE_RANGE@ == name {
            Some(tag_with(ORIGINAL_BYTE_RANGE@, range->0.text()))
        } else {
            None
        }) by {
        lemma_first_tag_single(tag_with(ORIGINAL_BYTE_RANGE@, range->0.text()), name);
    }
    assert forall|name: Seq<char>| #![auto]
        first_tag(c, name) == (if key_url is Some && ORIGINAL_KEY_URI@ == name {
            Some(tag_with(ORIGINAL_KEY_URI@, key_url->0))
        } else {
            None
        }) by {
        lemma_first_tag_single(tag_with(ORIGINAL_KEY_URI@, key_url->0), name);
    }
    assert forall|name: Seq<char>| #![auto]
        first_tag(d, name) == (if map_url is Some && ORIGINAL_MAP_URI@ == name {
            Some(tag_with(ORIGINAL_MAP_URI@, map_url->0))
        } else {
            None
        }) by {
        lemma_first_tag_single(tag_with(ORIGINAL_MAP_URI@, map_url->0), name);
    }
}

/// An attribute that was set is the first of its name.
pub proof fn lemma_first_attribute_set(
    attributes: Seq<AttributeModel>,
    name: Seq<char>,
    value: QuotedOrUnquotedModel,
)
    ensures
        first_attribute(with_attribute(attributes, name, value), name) == Some(value),
{
    let kept = attributes.filter(not_attribute(name));
    let after = with_attribute(attributes, name, value);
    assert forall|j: int| 0 <= j < kept.len() implies !attribute_named(name)(
        #[trigger] after[j],
    ) by {
        attributes.lemma_filter_pred(not_attribute(name), j);
        assert(after[j] == kept[j]);
    }
    assert(after[kept.len() as int].name == name);
    lemma_first_where_unique(after, attribute_named(name), kept.len() as int);
}

/// A list without an attribute of a name has no first attribute of that
/// name.
pub proof fn lemma_first_attribute_absent(attributes: Seq<AttributeModel>, name: Seq<char>)
    requires
        forall|j: int| 0 <= j < attributes.len() ==> (#[trigger] attributes[j]).name != name,
    ensures
        first_attribute(attributes, name) is None,
{
    lemma_first_where_unique(attributes, attribute_named(name), attributes.len() as int);
}

/// Whether a segment comes from a stream and not from a recording: none of
/// its tags has a name under which rewriting keeps where a resource came
/// from, and its map has no attribute of such a name.
pub open spec fn is_fresh(segment: MediaSegmentModel) -> bool {
    &&& forall|j: int|
        0 <= j < segment.unknown_tags.len() ==> !origin_tag_names().contains(
            (#[trigger] segment.unknown_tags[j]).tag,
        )
    &&& segment.map matches Some(map) ==> forall|j: int|
        0 <= j < map.other_attributes.len() ==> (#[trigger] map.other_attributes[j]).name
            != ORIGINAL_BYTE_RANGE@
}

/// What is fetched for a segment that rewriting names `number`: the
/// segment, from the URL that its URI denotes, under its local name; then
/// its key, where it is one that is stored; then its map. Each byte range
/// is the one that rewriting writes out.
pub open spec fn fetched_for(
    segment: MediaSegmentModel,
    number: u64,
    base: Seq<char>,
    cursor: Cursor,
) -> Seq<DownloadModel> {
    let url = url_join(base, segment.uri).unwrap();
    let range = advance(segment.byte_range, cursor.next_byte).unwrap();
    seq![
        DownloadModel {
            url,
            byte_range: range.0,
            file_name: segment_file_name(number, segment_extension(url, cursor.last_ext)),
        },
    ] + (match segment.key {
        Some(key) => match key_source(key, base).unwrap() {
            Some(key_url) => seq![
                DownloadModel {
                    url: key_url,
                    byte_range: None,
                    file_name: key_file_name(key_url),
                },
            ],
            None => Seq::empty(),
        },
        None => Seq::empty(),
    }) + (match segment.map {
        Some(map) => seq![
            DownloadModel {
                url: url_join(base, map.uri).unwrap(),
                byte_range: advance_map(map.byte_range, range.1).unwrap().0,
                file_name: map_file_name(url_join(base, map.uri).unwrap()),
            },
        ],
        None => Seq::empty(),
    })
}

/// The downloads of a fresh segment that was rewritten are those that
/// rewriting named: what the rewriter writes down, the downloader reads
/// back.
pub proof fn lemma_downloads_of_rewritten_segment(
    segment: MediaSegmentModel,
    number: u64,
    base: Seq<char>,
    cursor: Cursor,
)
    requires
        is_fresh(segment),
        rewrite_segment_spec(segment, number, base, cursor) is Some,
    ensures
        segment_downloads(rewrite_segment_spec(segment, number, base, cursor).unwrap().0) == Some(
            fetched_for(segment, number, base, cursor),
        ),
{
    lemma_origin_tag_names();
    let rewritten = rewrite_segment_spec(segment, number, base, cursor).unwrap().0;
    let url = url_join(base, segment.uri).unwrap();
    let range = advance(segment.byte_range, cursor.next_byte).unwrap();
    let key_url: Option<Seq<char>> = match segment.key {
        Some(key) => key_source(key, base).unwrap(),
        None => None,
    };
    let map_url: Option<Seq<char>> = match segment.map {
        Some(map) => url_join(base, map.uri),
        None => None,
    };
    let origin = origin_tags(url, range.0, key_url, map_url);
    let all = segment.unknown_tags + origin;
    assert(rewritten.unknown_tags == supported_tags(all));
    lemma_first_origin_tags(url, range.0, key_url, map_url);
    let names = origin_tag_names();
    assert(names[0] == ORIGINAL_URI@ && names[1] == ORIGINAL_BYTE_RANGE@ && names[2]
        == ORIGINAL_KEY_URI@ && names[3] == ORIGINAL_MAP_URI@);
    assert forall|k: int| 0 <= k < names.len() implies first_tag(
        rewritten.unknown_tags,
        #[trigger] names[k],
    ) == first_tag(origin, names[k]) by {
        let name = names[k];
        lemma_first_tag_without(all, unsupported_tag_names(), name);
        lemma_first_tag_add(segment.unknown_tags, origin, name);
        assert forall|j: int| 0 <= j < segment.unknown_tags.len() implies (
        #[trigger] segment.unknown_tags[j]).tag != name by {
            assert(!names.contains(segment.unknown_tags[j].tag));
        }
        lemma_first_tag_absent(segment.unknown_tags, name);
    }
    assert(first_tag(rewritten.unknown_tags, names[0]) == first_tag(origin, names[0]));
    assert(first_tag(rewritten.unknown_tags, names[1]) == first_tag(origin, names[1]));
    assert(first_tag(rewritten.unknown_tags, names[2]) == first_tag(origin, names[2]));
    assert(first_tag(rewritten.unknown_tags, names[3]) == first_tag(origin, names[3]));
    if let Some(r) = range.0 {
        lemma_byte_range_round_trip(r);
    }
    if let Some(map) = segment.map {
        let map_range = advance_map(map.byte_range, range.1).unwrap().0;
        match map_range {
            Some(r) => {
                lemma_byte_range_round_trip(r);
                lemma_first_attribute_set(
                    map.other_attributes,
                    ORIGINAL_BYTE_RANGE@,
                    QuotedOrUnquotedModel::Quoted(r.text()),
                );
            },
            None => {
                lemma_first_attribute_absent(map.other_attributes, ORIGINAL_BYTE_RANGE@);
            },
        }
    }
}

/// What is fetched for the first `n` segments of a playlist that is
/// rewritten, in their order.
pub open spec fn fetched_for_playlist(
    playlist: MediaPlaylistModel,
    base: Seq<char>,
    last_ext: Option<Seq<char>>,
    n: int,
) -> Seq<DownloadModel>
    decreases n,
{
    if n <= 0 {
        Seq::empty()
    } else {
        fetched_for_playlist(playlist, base, last_ext, n - 1) + fetched_for(
            playlist.segments[n - 1],
            (playlist.media_sequence + n - 1) as u64,
            base,
            cursor_before(playlist, base, last_ext, n - 1),
        )
    }
}

/// The downloads of a playlist of fresh segments that was rewritten can
/// always be told, and are those that rewriting named.
pub proof fn lemma_downloads_of_rewritten_playlist(
    playlist: MediaPlaylistModel,
    base: Seq<char>,
    last_ext: Option<Seq<char>>,
    n: int,
)
    requires
        rewrite_playlist_spec(playlist, base, last_ext) is Some,
        forall|i: int| 0 <= i < playlist.segments.len() ==> is_fresh(#[trigger] playlist.segments[i]),
        0 <= n <= playlist.segments.len(),
    ensures
        playlist_downloads(rewrite_playlist_spec(playlist, base, last_ext).unwrap().0.segments, n)
            == Some(fetched_for_playlist(playlist, base, last_ext, n)),
    decreases n,
{
    if n > 0 {
        lemma_downloads_of_rewritten_playlist(playlist, base, last_ext, n - 1);
        let start = Cursor { last_ext, next_byte: 0 };
        lemma_rewritten_segment(
            playlist.segments,
            playlist.segments.len() as int,
            playlist.media_sequence,
            base,
            start,
            n - 1,
        );
        lemma_downloads_of_rewritten_segment(
            playlist.segments[n - 1],
            (playlist.media_sequence + n - 1) as u64,
            base,
            cursor_before(playlist, base, last_ext, n - 1),
        );
    }
}

/// How many of the tags have the name `name`.
pub open spec fn count_tags(tags: Seq<ExtTagModel>, name: Seq<char>) -> nat {
    tags.filter(tag_named(name)).len()
}

/// One more tag at the end counts where it has the name.
pub proof fn lemma_count_tags_push(tags: Seq<ExtTagModel>, tag: ExtTagModel, name: Seq<char>)
    ensures
        count_tags(tags.push(tag), name) == count_tags(tags, name) + (if tag.tag == name {
            1nat
        } else {
            0nat
        }),
        count_tags(Seq::<ExtTagModel>::empty(), name) == 0,
{
    reveal(Seq::filter);
    tags.lemma_filter_push(tag, tag_named(name));
}

/// The tags of two lists, one after the other, count together.
pub proof fn lemma_count_tags_add(a: Seq<ExtTagModel>, b: Seq<ExtTagModel>, name: Seq<char>)
    ensures
        count_tags(a + b, name) == count_tags(a, name) + count_tags(b, name),
{
    Seq::filter_distributes_over_add(a, b, tag_named(name));
}

/// Removing tags of other names leaves the count of a name what it was.
pub proof fn lemma_count_tags_without(tags: Seq<ExtTagModel>, names: Seq<Seq<char>>, name: Seq<char>)
    requires
        !names.contains(name),
    ensures
        count_tags(without_tags(tags, names), name) == count_tags(tags, name),
    decreases tags.len(),
{
    reveal(Seq::filter);
    if tags.len() > 0 {
        let before = tags.drop_last();
        let last = tags.last();
        lemma_count_tags_without(before, names, name);
        assert(tags =~= before.push(last));
        lemma_count_tags_push(before, last, name);
        if not_named(names)(last) {
            lemma_count_tags_push(without_tags(before, names), last, name);
        }
    }
}

/// A list without a tag of a name counts none of that name.
pub proof fn lemma_count_tags_absent(tags: Seq<ExtTagModel>, name: Seq<char>)
    requires
        forall|j: int| 0 <= j < tags.len() ==> (#[trigger] tags[j]).tag != name,
    ensures
        count_tags(tags, name) == 0,
    decreases tags.len(),
{
    if tags.len() > 0 {
        let before = tags.drop_last();
        assert forall|j: int| 0 <= j < before.len() implies (#[trigger] before[j]).tag != name by {
            assert(before[j] == tags[j]);
        }
        lemma_count_tags_absent(before, name);
        assert(tags =~= before.push(tags.last()));
        lemma_count_tags_push(before, tags.last(), name);
    } else {
        lemma_count_tags_push(tags, tag_with(name, name), name);
    }
}

/// A fresh segment that was rewritten has exactly one `X-ORIGINAL-URI`
/// tag, and an `X-ORIGINAL-BYTE-RANGE` tag exactly where it had a byte
/// range.
pub proof fn lemma_rewritten_segment_keeps_one_origin(
    segment: MediaSegmentModel,
    number: u64,
    base: Seq<char>,
    cursor: Cursor,
)
    requires
        is_fresh(segment),
        rewrite_segment_spec(segment, number, base, cursor) is Some,
    ensures
        count_tags(
            rewrite_segment_spec(segment, number, base, cursor).unwrap().0.unknown_tags,
            ORIGINAL_URI@,
        ) == 1,
        count_tags(
            rewrite_segment_spec(segment, number, base, cursor).unwrap().0.unknown_tags,
            ORIGINAL_BYTE_RANGE@,
        ) == (if segment.byte_range is Some {
            1nat
        } else {
            0nat
        }),
{
    lemma_origin_tag_names();
    let rewritten = rewrite_segment_spec(segment, number, base, cursor).unwrap().0;
    let url = url_join(base, segment.uri).unwrap();
    let range = advance(segment.byte_range, cursor.next_byte).unwrap();
    let key_url: Option<Seq<char>> = match segment.key {
        Some(key) => key_source(key, base).unwrap(),
        None => None,
    };
    let map_url: Option<Seq<char>> = match segment.map {
        Some(map) => url_join(base, map.uri),
        None => None,
    };
    let origin = origin_tags(url, range.0, key_url, map_url);
    let all = segment.unknown_tags + origin;
    assert(rewritten.unknown_tags == supported_tags(all));
    let names = origin_tag_names();
    assert(names[0] == ORIGINAL_URI@ && names[1] == ORIGINAL_BYTE_RANGE@);
    let none = Seq::<ExtTagModel>::empty();
    let a = seq![tag_with(ORIGINAL_URI@, url)];
    let b = match range.0 {
        Some(r) => seq![tag_with(ORIGINAL_BYTE_RANGE@, r.text())],
        None => none,
    };
    let c = match key_url {
        Some(u) => seq![tag_with(ORIGINAL_KEY_URI@, u)],
        None => none,
    };
    let d = match map_url {
        Some(u) => seq![tag_with(ORIGINAL_MAP_URI@, u)],
        None => none,
    };
    assert(origin == a + b + c + d);
    assert(a =~= none.push(tag_with(ORIGINAL_URI@, url)));
    if let Some(r) = range.0 {
        assert(b =~= none.push(tag_with(ORIGINAL_BYTE_RANGE@, r.text())));
    }
    if let Some(u) = key_url {
        assert(c =~= none.push(tag_with(ORIGINAL_KEY_URI@, u)));
    }
    if let Some(u) = map_url {
        assert(d =~= none.push(tag_with(ORIGINAL_MAP_URI@, u)));
    }
    assert forall|k: int| 0 <= k < 2 implies count_tags(
        rewritten.unknown_tags,
        #[trigger] names[k],
    ) == count_tags(a, names[k]) + count_tags(b, names[k]) by {
        let name = names[k];
        lemma_count_tags_without(all, unsupported_tag_names(), name);
        lemma_count_tags_add(segment.unknown_tags, origin, name);
        assert forall|j: int| 0 <= j < segment.unknown_tags.len() implies (
        #[trigger] segment.unknown_tags[j]).tag != name by {
            assert(!names.contains(segment.unknown_tags[j].tag));
        }
        lemma_count_tags_absent(segment.unknown_tags, name);
        lemma_count_tags_add(a + b + c, d, name);
        lemma_count_tags_add(a + b, c, name);
        lemma_count_tags_add(a, b, name);
        lemma_count_tags_push(none, tag_with(ORIGINAL_KEY_URI@, key_url->0), name);
        lemma_count_tags_push(none, tag_with(ORIGINAL_MAP_URI@, map_url->0), name);
    }
    lemma_count_tags_push(none, tag_with(ORIGINAL_URI@, url), ORIGINAL_URI@);
    lemma_count_tags_push(none, tag_with(ORIGINAL_URI@, url), ORIGINAL_BYTE_RANGE@);
    lemma_count_tags_push(none, tag_with(ORIGINAL_BYTE_RANGE@, range.0->0.text()), ORIGINAL_URI@);
    lemma_count_tags_push(
        none,
        tag_with(ORIGINAL_BYTE_RANGE@, range.0->0.text()),
        ORIGINAL_BYTE_RANGE@,
    );
    assert(count_tags(rewritten.unknown_tags, names[0]) == count_tags(a, names[0]) + count_tags(
        b,
        names[0],
    ));
    assert(count_tags(rewritten.unknown_tags, names[1]) == count_tags(a, names[1]) + count_tags(
        b,
        names[1],
    ));
}

/// A segment without an `X-ORIGINAL-URI` tag has exactly one once it is
/// rewritten: the first of that name, which holds the absolute URL that the
/// segment's URI denoted.
pub proof fn lemma_one_original_uri(
    segment: MediaSegmentModel,
    number: u64,
    base: Seq<char>,
    cursor: Cursor,
)
    requires
        forall|j: int|
            0 <= j < segment.unknown_tags.len() ==> (#[trigger] segment.unknown_tags[j]).tag
                != ORIGINAL_URI@,
        rewrite_segment_spec(segment, number, base, cursor) is Some,
    ensures
        count_tags(
            rewrite_segment_spec(segment, number, base, cursor).unwrap().0.unknown_tags,
            ORIGINAL_URI@,
        ) == 1,
        first_tag(
            rewrite_segment_spec(segment, number, base, cursor).unwrap().0.unknown_tags,
            ORIGINAL_URI@,
        ) == Some(tag_with(ORIGINAL_URI@, url_join(base, segment.uri).unwrap())),
{
    lemma_origin_tag_names();
    let name = ORIGINAL_URI@;
    let rewritten = rewrite_segment_spec(segment, number, base, cursor).unwrap().0;
    let url = url_join(base, segment.uri).unwrap();
    let range = advance(segment.byte_range, cursor.next_byte).unwrap();
    let key_url: Option<Seq<char>> = match segment.key {
        Some(key) => key_source(key, base).unwrap(),
        None => None,
    };
    let map_url: Option<Seq<char>> = match segment.map {
        Some(map) => url_join(base, map.uri),
        None => None,
    };
    let origin = origin_tags(url, range.0, key_url, map_url);
    let all = segment.unknown_tags + origin;
    assert(rewritten.unknown_tags == supported_tags(all));
    assert(origin_tag_names()[0] == name);
    assert(!unsupported_tag_names().contains(name));
    lemma_first_origin_tags(url, range.0, key_url, map_url);
    lemma_first_tag_without(all, unsupported_tag_names(), name);
    lemma_first_tag_add(segment.unknown_tags, origin, name);
    lemma_first_tag_absent(segment.unknown_tags, name);
    let none = Seq::<ExtTagModel>::empty();
    let a = seq![tag_with(ORIGINAL_URI@, url)];
    let b = match range.0 {
        Some(r) => seq![tag_with(ORIGINAL_BYTE_RANGE@, r.text())],
        None => none,
    };
    let c = match key_url {
        Some(u) => seq![tag_with(ORIGINAL_KEY_URI@, u)],
        None => none,
    };
    let d = match map_url {
        Some(u) => seq![tag_with(ORIGINAL_MAP_URI@, u)],
        None => none,
    };
    assert(origin == a + b + c + d);
    assert(a =~= none.push(tag_with(ORIGINAL_URI@, url)));
    if let Some(r) = range.0 {
        assert(b =~= none.push(tag_with(ORIGINAL_BYTE_RANGE@, r.text())));
    }
    if let Some(u) = key_url {
        assert(c =~= none.push(tag_with(ORIGINAL_KEY_URI@, u)));
    }
    if let Some(u) = map_url {
        assert(d =~= none.push(tag_with(ORIGINAL_MAP_URI@, u)));
    }
    lemma_count_tags_without(all, unsupported_tag_names(), name);
    lemma_count_tags_add(segment.unknown_tags, origin, name);
    lemma_count_tags_absent(segment.unknown_tags, name);
    lemma_count_tags_add(a + b + c, d, name);
    lemma_count_tags_add(a + b, c, name);
    lemma_count_tags_add(a, b, name);
    lemma_count_tags_push(none, tag_with(ORIGINAL_URI@, url), name);
    lemma_count_tags_push(none, tag_with(ORIGINAL_BYTE_RANGE@, range.0->0.text()), name);
    lemma_count_tags_push(none, tag_with(ORIGINAL_KEY_URI@, key_url->0), name);
    lemma_count_tags_push(none, tag_with(ORIGINAL_MAP_URI@, map_url->0), name);
}

/// Every segment of a rewritten playlist that had no `X-ORIGINAL-URI` tag
/// has exactly one afterwards, and it holds the absolute URL that the
/// segment's URI denoted in the playlist.
pub proof fn lemma_rewrite_keeps_one_original_uri(
    playlist: MediaPlaylistModel,
    base: Seq<char>,
    last_ext: Option<Seq<char>>,
    i: int,
)
    requires
        rewrite_playlist_spec(playlist, base, last_ext) is Some,
        0 <= i < playlist.segments.len(),
        forall|j: int|
            0 <= j < playlist.segments[i].unknown_tags.len() ==> (
            #[trigger] playlist.segments[i].unknown_tags[j]).tag != ORIGINAL_URI@,
    ensures
        url_join(base, playlist.segments[i].uri) is Some,
        count_tags(
            rewrite_playlist_spec(playlist, base, last_ext).unwrap().0.segments[i].unknown_tags,
            ORIGINAL_URI@,
        ) == 1,
        first_tag(
            rewrite_playlist_spec(playlist, base, last_ext).unwrap().0.segments[i].unknown_tags,
            ORIGINAL_URI@,
        ) == Some(tag_with(ORIGINAL_URI@, url_join(base, playlist.segments[i].uri).unwrap())),
{
    lemma_rewritten_segment(
        playlist.segments,
        playlist.segments.len() as int,
        playlist.media_sequence,
        base,
        Cursor { last_ext, next_byte: 0 },
        i,
    );
    lemma_one_original_uri(
        playlist.segments[i],
        (playlist.media_sequence + i) as u64,
        base,
        cursor_before(playlist, base, last_ext, i),
    );
}

} // verus!
