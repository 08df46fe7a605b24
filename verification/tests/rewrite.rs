use streamrr::playlist::{
    Attribute, ExtTag, InitMap, Key, KeyMethod, M3u8ByteRange, MediaPlaylist, MediaSegment,
    QuotedOrUnquoted,
};
use streamrr::record::RecordError;
use streamrr::rewrite::{
    get_or_update_file_ext, is_http, remove_segments_from_end, remove_segments_from_start,
    remove_tags_named, remove_unsupported_tags, rewrite_byte_range_in_attribute, rewrite_key,
    rewrite_map, rewrite_media_playlist,
    rewrite_segment, set_attribute, strip_media_playlist, strip_segment, ORIGINAL_BYTE_RANGE,
    ORIGINAL_KEY_URI, ORIGINAL_MAP_URI, ORIGINAL_PRELOAD_HINT, ORIGINAL_RENDITION_REPORT,
    ORIGINAL_SERVER_CONTROL, ORIGINAL_URI,
};

fn tag(name: &str, rest: Option<&str>) -> ExtTag {
    ExtTag { tag: name.to_string(), rest: rest.map(|r| r.to_string()) }
}

fn segment(uri: &str) -> MediaSegment {
    MediaSegment {
        uri: uri.to_string(),
        duration: 6000,
        byte_range: None,
        key: None,
        map: None,
        unknown_tags: Vec::new(),
    }
}

fn playlist(media_sequence: u64, segments: Vec<MediaSegment>) -> MediaPlaylist {
    MediaPlaylist {
        media_sequence,
        segments,
        end_list: false,
        target_duration: 6,
        unknown_tags: Vec::new(),
    }
}

fn aes_key(uri: &str) -> Key {
    Key {
        method: KeyMethod::AES128,
        uri: Some(uri.to_string()),
        iv: Some("0x1234".to_string()),
        keyformat: None,
        keyformatversions: None,
    }
}

fn tag_values(segment: &MediaSegment, name: &str) -> Vec<Option<String>> {
    segment
        .unknown_tags
        .iter()
        .filter(|t| t.tag == name)
        .map(|t| t.rest.clone())
        .collect()
}

const LIVE: &str = "https://example.com/live/index.m3u8";

#[test]
fn test_rewrite_mux_llhls() {
    let url = "https://manifest-gcp-us-east1-vop1.fastly.mux.com/4bTH98fZX5ztAEmXYDvBswYld6T9JifyucrlKYlz8AFLGaUvcHw2r56o302rPymJ5v4AkPRnEwr011eMWnyYWThjc4LUho3Zig/rendition.m3u8";
    let map_url = "https://chunk-gcp-us-east1-vop1.fastly.mux.com/v1/chunk/abc/18446744073709551615.m4s?skid=default&signature=NjQ0";
    let mut first = segment("https://chunk-gcp-us-east1-vop1.fastly.mux.com/v1/chunk/abc/0.m4s?skid=default&signature=NjQ1");
    first.map = Some(InitMap {
        uri: map_url.to_string(),
        byte_range: None,
        other_attributes: Vec::new(),
    });
    first.unknown_tags = vec![
        tag("X-PART", Some("DURATION=1.00000,URI=\"part0.m4s\",INDEPENDENT=YES")),
        tag("X-PART", Some("DURATION=1.00000,URI=\"part1.m4s\"")),
    ];
    let mut second = segment("1.m4s");
    second.unknown_tags = vec![
        tag("X-PART", Some("DURATION=1.00000,URI=\"part2.m4s\"")),
        tag("X-PRELOAD-HINT", Some("TYPE=PART,URI=\"part3.m4s\"")),
        tag("X-RENDITION-REPORT", Some("URI=\"../other/rendition.m3u8\",LAST-MSN=1")),
        tag("X-CUSTOM", None),
    ];
    let mut playlist = playlist(0, vec![first, second]);
    playlist.unknown_tags = vec![
        tag("X-SERVER-CONTROL", Some("CAN-BLOCK-RELOAD=YES,PART-HOLD-BACK=3.0")),
        tag("X-PART-INF", Some("PART-TARGET=1.0")),
        tag("X-INDEPENDENT-SEGMENTS", None),
    ];
    rewrite_media_playlist(url, &mut playlist, &mut None).unwrap();

    assert_eq!(playlist.unknown_tags, vec![tag("X-INDEPENDENT-SEGMENTS", None)]);
    assert_eq!(playlist.segments.len(), 2);
    assert_eq!(playlist.segments[0].uri, "segment-0.m4s");
    assert_eq!(
        playlist.segments[0].unknown_tags,
        vec![
            tag(
                "X-ORIGINAL-URI",
                Some("https://chunk-gcp-us-east1-vop1.fastly.mux.com/v1/chunk/abc/0.m4s?skid=default&signature=NjQ1")
            ),
            tag("X-ORIGINAL-MAP-URI", Some(map_url)),
        ]
    );
    assert_eq!(
        playlist.segments[0].map,
        Some(InitMap {
            uri: "init-73cdf9b9e8c07996a4ec6aec34366fab25970158.m4s".to_string(),
            byte_range: None,
            other_attributes: Vec::new(),
        })
    );
    assert_eq!(playlist.segments[1].uri, "segment-1.m4s");
    assert_eq!(
        playlist.segments[1].unknown_tags,
        vec![
            tag("X-CUSTOM", None),
            tag(
                "X-ORIGINAL-URI",
                Some("https://manifest-gcp-us-east1-vop1.fastly.mux.com/4bTH98fZX5ztAEmXYDvBswYld6T9JifyucrlKYlz8AFLGaUvcHw2r56o302rPymJ5v4AkPRnEwr011eMWnyYWThjc4LUho3Zig/1.m4s")
            ),
        ]
    );
}

#[test]
fn test_rewrite_elephants_dream() {
    let url = "https://cdn.theoplayer.com/video/elephants-dream/1280/chunklist_w370587926_b2962000_vo_slen_t64TWFpbg==.m3u8";
    let mut playlist = playlist(
        0,
        vec![
            segment("media_w370587926_b2962000_vo_slen_t64TWFpbg==_0.ts"),
            segment("media_w370587926_b2962000_vo_slen_t64TWFpbg==_1.ts"),
            segment("media_w370587926_b2962000_vo_slen_t64TWFpbg==_2.ts"),
        ],
    );
    playlist.end_list = true;
    playlist.target_duration = 10;
    rewrite_media_playlist(url, &mut playlist, &mut None).unwrap();

    assert_eq!(playlist.media_sequence, 0);
    assert!(playlist.end_list);
    assert_eq!(playlist.target_duration, 10);
    for (i, rewritten) in playlist.segments.iter().enumerate() {
        assert_eq!(rewritten.uri, format!("segment-{i}.ts"));
        assert_eq!(rewritten.duration, 6000);
        assert_eq!(
            rewritten.unknown_tags,
            vec![tag(
                "X-ORIGINAL-URI",
                Some(&format!(
                    "https://cdn.theoplayer.com/video/elephants-dream/1280/media_w370587926_b2962000_vo_slen_t64TWFpbg==_{i}.ts"
                ))
            )]
        );
        assert_eq!(rewritten.key, None);
        assert_eq!(rewritten.map, None);
        assert_eq!(rewritten.byte_range, None);
    }
}

#[test]
fn segments_are_named_by_their_sequence_number() {
    let mut playlist = playlist(100, vec![segment("a.ts"), segment("b.ts"), segment("c.ts")]);
    rewrite_media_playlist(LIVE, &mut playlist, &mut None).unwrap();
    let names: Vec<&str> = playlist.segments.iter().map(|s| s.uri.as_str()).collect();
    assert_eq!(names, vec!["segment-100.ts", "segment-101.ts", "segment-102.ts"]);
    assert_eq!(
        tag_values(&playlist.segments[2], ORIGINAL_URI),
        vec![Some("https://example.com/live/c.ts".to_string())]
    );
}

#[test]
fn every_rewritten_segment_has_one_original_uri() {
    let mut playlist = playlist(7, vec![segment("a.ts"), segment("/abs/b.ts"), segment("https://other.example/c.ts")]);
    rewrite_media_playlist(LIVE, &mut playlist, &mut None).unwrap();
    let urls: Vec<Vec<Option<String>>> =
        playlist.segments.iter().map(|s| tag_values(s, ORIGINAL_URI)).collect();
    assert_eq!(
        urls,
        vec![
            vec![Some("https://example.com/live/a.ts".to_string())],
            vec![Some("https://example.com/abs/b.ts".to_string())],
            vec![Some("https://other.example/c.ts".to_string())],
        ]
    );
}

#[test]
fn the_extension_of_a_segment_sticks() {
    let mut playlist = playlist(
        0,
        vec![segment("a"), segment("b.m4s"), segment("c"), segment("d.aac"), segment("e?x=1.ts")],
    );
    let mut last_ext = None;
    rewrite_media_playlist(LIVE, &mut playlist, &mut last_ext).unwrap();
    let names: Vec<&str> = playlist.segments.iter().map(|s| s.uri.as_str()).collect();
    assert_eq!(
        names,
        vec!["segment-0.ts", "segment-1.m4s", "segment-2.m4s", "segment-3.aac", "segment-4.aac"]
    );
    assert_eq!(last_ext, Some("aac".to_string()));
}

#[test]
fn the_extension_is_remembered_across_playlists() {
    let mut last_ext = None;
    let mut first = playlist(0, vec![segment("a.m4s")]);
    rewrite_media_playlist(LIVE, &mut first, &mut last_ext).unwrap();
    let mut second = playlist(1, vec![segment("b")]);
    rewrite_media_playlist(LIVE, &mut second, &mut last_ext).unwrap();
    assert_eq!(second.segments[0].uri, "segment-1.m4s");
}

#[test]
fn get_or_update_file_ext_prefers_the_url() {
    let mut last = Some("m4s".to_string());
    assert_eq!(get_or_update_file_ext("https://example.com/a.ts", &mut last), "ts");
    assert_eq!(last, Some("ts".to_string()));
    assert_eq!(get_or_update_file_ext("https://example.com/a", &mut last), "ts");
    assert_eq!(last, Some("ts".to_string()));
    let mut none = None;
    assert_eq!(get_or_update_file_ext("https://example.com/a", &mut none), "ts");
    assert_eq!(none, None);
}

#[test]
fn byte_range_chain() {
    let mut a = segment("main.mp4");
    a.byte_range = Some(M3u8ByteRange { length: 1000, offset: Some(500) });
    let mut b = segment("main.mp4");
    b.byte_range = Some(M3u8ByteRange { length: 800, offset: None });
    let mut playlist = playlist(0, vec![a, b]);
    rewrite_media_playlist(LIVE, &mut playlist, &mut None).unwrap();
    assert_eq!(
        tag_values(&playlist.segments[0], ORIGINAL_BYTE_RANGE),
        vec![Some("1000@500".to_string())]
    );
    assert_eq!(
        tag_values(&playlist.segments[1], ORIGINAL_BYTE_RANGE),
        vec![Some("800@1500".to_string())]
    );
    assert_eq!(playlist.segments[0].byte_range, None);
    assert_eq!(playlist.segments[1].byte_range, None);
    assert_eq!(playlist.segments[0].uri, "segment-0.mp4");
    assert_eq!(playlist.segments[1].uri, "segment-1.mp4");
}

#[test]
fn a_segment_without_byte_range_resets_the_chain() {
    let mut a = segment("main.mp4");
    a.byte_range = Some(M3u8ByteRange { length: 1000, offset: Some(500) });
    let b = segment("other.mp4");
    let mut c = segment("main.mp4");
    c.byte_range = Some(M3u8ByteRange { length: 10, offset: None });
    let mut playlist = playlist(0, vec![a, b, c]);
    rewrite_media_playlist(LIVE, &mut playlist, &mut None).unwrap();
    assert_eq!(tag_values(&playlist.segments[1], ORIGINAL_BYTE_RANGE), Vec::<Option<String>>::new());
    assert_eq!(
        tag_values(&playlist.segments[2], ORIGINAL_BYTE_RANGE),
        vec![Some("10@0".to_string())]
    );
}

#[test]
fn a_byte_range_tag_is_there_exactly_where_the_source_had_a_range() {
    let mut a = segment("a.ts");
    a.byte_range = Some(M3u8ByteRange { length: 5, offset: None });
    let mut playlist = playlist(0, vec![a, segment("b.ts")]);
    rewrite_media_playlist(LIVE, &mut playlist, &mut None).unwrap();
    assert_eq!(tag_values(&playlist.segments[0], ORIGINAL_BYTE_RANGE).len(), 1);
    assert_eq!(tag_values(&playlist.segments[1], ORIGINAL_BYTE_RANGE).len(), 0);
}

#[test]
fn a_map_with_byte_range_continues_the_chain_of_its_segment() {
    let mut a = segment("main.mp4");
    a.byte_range = Some(M3u8ByteRange { length: 100, offset: Some(1000) });
    a.map = Some(InitMap {
        uri: "init.mp4".to_string(),
        byte_range: Some(M3u8ByteRange { length: 50, offset: None }),
        other_attributes: vec![Attribute {
            name: "X-KEEP".to_string(),
            value: QuotedOrUnquoted::Unquoted("1".to_string()),
        }],
    });
    let mut b = segment("main.mp4");
    b.byte_range = Some(M3u8ByteRange { length: 7, offset: None });
    let mut playlist = playlist(0, vec![a, b]);
    rewrite_media_playlist(LIVE, &mut playlist, &mut None).unwrap();
    let map = playlist.segments[0].map.clone().unwrap();
    assert_eq!(map.uri, "init-f4b8676650706f9dffc89eb31689cae5759a9120.mp4");
    assert_eq!(map.byte_range, None);
    assert_eq!(
        map.other_attributes,
        vec![
            Attribute {
                name: "X-KEEP".to_string(),
                value: QuotedOrUnquoted::Unquoted("1".to_string()),
            },
            Attribute {
                name: "X-ORIGINAL-BYTE-RANGE".to_string(),
                value: QuotedOrUnquoted::Quoted("50@1100".to_string()),
            },
        ]
    );
    assert_eq!(
        tag_values(&playlist.segments[0], ORIGINAL_MAP_URI),
        vec![Some("https://example.com/live/init.mp4".to_string())]
    );
    assert_eq!(
        tag_values(&playlist.segments[1], ORIGINAL_BYTE_RANGE),
        vec![Some("7@1150".to_string())]
    );
}

#[test]
fn a_map_without_byte_range_leaves_the_chain() {
    let mut a = segment("main.mp4");
    a.byte_range = Some(M3u8ByteRange { length: 100, offset: Some(1000) });
    a.map = Some(InitMap { uri: "init".to_string(), byte_range: None, other_attributes: Vec::new() });
    let mut b = segment("main.mp4");
    b.byte_range = Some(M3u8ByteRange { length: 7, offset: None });
    let mut playlist = playlist(0, vec![a, b]);
    rewrite_media_playlist(LIVE, &mut playlist, &mut None).unwrap();
    assert_eq!(
        playlist.segments[0].map.as_ref().unwrap().uri,
        "init-791760658704dca7b22dd7b21cfe63ec6377c18a.mp4"
    );
    assert_eq!(
        tag_values(&playlist.segments[1], ORIGINAL_BYTE_RANGE),
        vec![Some("7@1100".to_string())]
    );
}

#[test]
fn the_chain_goes_on_past_a_map_without_byte_range() {
    let mut a = segment("a.mp4");
    a.byte_range = Some(M3u8ByteRange { length: 1000, offset: Some(500) });
    a.map =
        Some(InitMap { uri: "init.mp4".to_string(), byte_range: None, other_attributes: Vec::new() });
    let mut b = segment("a.mp4");
    b.byte_range = Some(M3u8ByteRange { length: 800, offset: None });
    let mut playlist = playlist(0, vec![a, b]);
    rewrite_media_playlist("https://example.com/v/index.m3u8", &mut playlist, &mut None).unwrap();
    assert_eq!(
        tag_values(&playlist.segments[0], ORIGINAL_BYTE_RANGE),
        vec![Some("1000@500".to_string())]
    );
    assert_eq!(
        tag_values(&playlist.segments[1], ORIGINAL_BYTE_RANGE),
        vec![Some("800@1500".to_string())]
    );
    assert!(playlist.segments[0].map.as_ref().unwrap().other_attributes.is_empty());
}

#[test]
fn a_byte_range_that_ends_beyond_64_bits_is_a_parse_error() {
    let mut a = segment("main.mp4");
    a.byte_range = Some(M3u8ByteRange { length: 2, offset: Some(u64::MAX - 1) });
    let mut playlist = playlist(0, vec![a]);
    let result = rewrite_media_playlist(LIVE, &mut playlist, &mut None);
    assert!(matches!(result, Err(RecordError::Parse(_))));
}

#[test]
fn a_byte_range_that_ends_at_the_last_byte_is_accepted() {
    let mut a = segment("main.mp4");
    a.byte_range = Some(M3u8ByteRange { length: 1, offset: Some(u64::MAX - 1) });
    let mut playlist = playlist(0, vec![a]);
    rewrite_media_playlist(LIVE, &mut playlist, &mut None).unwrap();
    assert_eq!(
        tag_values(&playlist.segments[0], ORIGINAL_BYTE_RANGE),
        vec![Some("1@18446744073709551614".to_string())]
    );
}

#[test]
fn a_sequence_number_beyond_64_bits_is_a_parse_error() {
    let mut playlist = playlist(u64::MAX, vec![segment("a.ts"), segment("b.ts")]);
    let result = rewrite_media_playlist(LIVE, &mut playlist, &mut None);
    assert!(matches!(result, Err(RecordError::Parse(_))));
    let mut fits = playlist_of_one(u64::MAX);
    rewrite_media_playlist(LIVE, &mut fits, &mut None).unwrap();
    assert_eq!(fits.segments[0].uri, "segment-18446744073709551615.ts");
}

fn playlist_of_one(media_sequence: u64) -> MediaPlaylist {
    playlist(media_sequence, vec![segment("a.ts")])
}

#[test]
fn a_uri_that_does_not_resolve_is_a_parse_error() {
    let mut playlist = playlist(0, vec![segment("https://[bad")]);
    let result = rewrite_media_playlist(LIVE, &mut playlist, &mut None);
    assert!(matches!(result, Err(RecordError::Parse(_))));
}

#[test]
fn a_playlist_url_that_is_no_url_is_a_parse_error() {
    let mut playlist = playlist(0, vec![segment("a.ts")]);
    let result = rewrite_media_playlist("index.m3u8", &mut playlist, &mut None);
    assert!(matches!(result, Err(RecordError::Parse(_))));
}

#[test]
fn an_empty_playlist_is_rewritten_whatever_its_url() {
    let mut playlist = playlist(0, Vec::new());
    playlist.unknown_tags = vec![tag("X-PART-INF", None), tag("X-KEEP", None)];
    rewrite_media_playlist("not a url", &mut playlist, &mut None).unwrap();
    assert_eq!(playlist.unknown_tags, vec![tag("X-KEEP", None)]);
}

#[test]
fn key_dedup_across_refreshes() {
    let mut first = segment("a.ts");
    first.key = Some(aes_key("enc.key"));
    let mut refresh_1 = playlist(10, vec![first]);
    let mut later = segment("b.ts");
    later.key = Some(aes_key("https://example.com/live/enc.key"));
    let mut refresh_2 = playlist(57, vec![later]);
    let mut last_ext = None;
    rewrite_media_playlist(LIVE, &mut refresh_1, &mut last_ext).unwrap();
    rewrite_media_playlist(LIVE, &mut refresh_2, &mut last_ext).unwrap();
    let key_1 = refresh_1.segments[0].key.clone().unwrap();
    let key_2 = refresh_2.segments[0].key.clone().unwrap();
    assert_eq!(key_1.uri, Some("key-3b84d382b5409489f99b644009489e662af1fee3.bin".to_string()));
    assert_eq!(key_1.uri, key_2.uri);
    assert_eq!(key_1.iv, Some("0x1234".to_string()));
    assert_eq!(
        tag_values(&refresh_1.segments[0], ORIGINAL_KEY_URI),
        vec![Some("https://example.com/live/enc.key".to_string())]
    );
}

#[test]
fn a_key_that_is_not_aes_128_stays() {
    let mut key = aes_key("enc.key");
    key.method = KeyMethod::SampleAES;
    let before = key.clone();
    let mut tags = Vec::new();
    rewrite_key(&mut key, LIVE, &mut tags).unwrap();
    assert_eq!(key, before);
    assert!(tags.is_empty());
}

#[test]
fn a_key_without_uri_stays() {
    let mut key = aes_key("enc.key");
    key.uri = None;
    let before = key.clone();
    let mut tags = Vec::new();
    rewrite_key(&mut key, LIVE, &mut tags).unwrap();
    assert_eq!(key, before);
    assert!(tags.is_empty());
}

#[test]
fn a_key_that_is_not_fetched_over_http_stays() {
    let mut key = aes_key("skd://key-server/asset");
    let before = key.clone();
    let mut tags = Vec::new();
    rewrite_key(&mut key, LIVE, &mut tags).unwrap();
    assert_eq!(key, before);
    assert!(tags.is_empty());
    let mut data = aes_key("data:text/plain;base64,AAAA");
    rewrite_key(&mut data, LIVE, &mut tags).unwrap();
    assert_eq!(data.uri, Some("data:text/plain;base64,AAAA".to_string()));
}

#[test]
fn a_key_whose_uri_does_not_resolve_is_a_parse_error() {
    let mut key = aes_key("https://[bad");
    let mut tags = Vec::new();
    assert!(matches!(rewrite_key(&mut key, LIVE, &mut tags), Err(RecordError::Parse(_))));
}

#[test]
fn is_http_goes_by_the_scheme() {
    assert!(is_http("http://example.com/"));
    assert!(is_http("https://example.com/"));
    assert!(!is_http("httpx://example.com/"));
    assert!(!is_http("ftp://example.com/"));
    assert!(!is_http("http"));
    assert!(!is_http(""));
}

#[test]
fn rewrite_map_defaults_to_mp4() {
    let mut map = InitMap { uri: "init".to_string(), byte_range: None, other_attributes: Vec::new() };
    let mut tags = vec![tag("X-BEFORE", None)];
    let mut next = 77;
    rewrite_map(&mut map, LIVE, &mut next, &mut tags).unwrap();
    assert_eq!(map.uri, "init-791760658704dca7b22dd7b21cfe63ec6377c18a.mp4");
    assert_eq!(next, 77);
    assert_eq!(
        tags,
        vec![tag("X-BEFORE", None), tag("X-ORIGINAL-MAP-URI", Some("https://example.com/live/init"))]
    );
}

#[test]
fn rewrite_segment_moves_the_cursor() {
    let mut a = segment("main.mp4");
    a.byte_range = Some(M3u8ByteRange { length: 10, offset: None });
    let mut last_ext = None;
    let mut next = 90;
    rewrite_segment(&mut a, 3, LIVE, &mut last_ext, &mut next).unwrap();
    assert_eq!(a.uri, "segment-3.mp4");
    assert_eq!(next, 100);
    assert_eq!(last_ext, Some("mp4".to_string()));
    assert_eq!(tag_values(&a, ORIGINAL_BYTE_RANGE), vec![Some("10@90".to_string())]);
}

#[test]
fn no_rewritten_playlist_holds_a_low_latency_tag() {
    let low_latency =
        ["X-PART", "X-PART-INF", "X-PRELOAD-HINT", "X-RENDITION-REPORT", "X-SERVER-CONTROL"];
    let mut a = segment("a.ts");
    a.unknown_tags = low_latency.iter().map(|n| tag(n, Some("x"))).collect();
    a.unknown_tags.push(tag("X-PARTIAL", None));
    let mut playlist = playlist(0, vec![a]);
    playlist.unknown_tags = low_latency.iter().map(|n| tag(n, None)).collect();
    playlist.unknown_tags.insert(2, tag("X-OTHER", Some("y")));
    rewrite_media_playlist(LIVE, &mut playlist, &mut None).unwrap();
    assert_eq!(playlist.unknown_tags, vec![tag("X-OTHER", Some("y"))]);
    for rewritten in &playlist.segments {
        for t in &rewritten.unknown_tags {
            assert!(!low_latency.contains(&t.tag.as_str()), "{}", t.tag);
        }
    }
    assert_eq!(playlist.segments[0].unknown_tags[0], tag("X-PARTIAL", None));
}

#[test]
fn remove_unsupported_tags_keeps_the_order_of_the_rest() {
    let mut tags = vec![tag("A", None), tag("X-PART", None), tag("B", None), tag("A", Some("2"))];
    remove_unsupported_tags(&mut tags);
    assert_eq!(tags, vec![tag("A", None), tag("B", None), tag("A", Some("2"))]);
}

#[test]
fn remove_tags_named_removes_every_match() {
    let mut tags = vec![tag("A", None), tag("B", None), tag("A", Some("2")), tag("C", None)];
    remove_tags_named(&mut tags, &vec!["A", "C"]);
    assert_eq!(tags, vec![tag("B", None)]);
    remove_tags_named(&mut tags, &Vec::new());
    assert_eq!(tags, vec![tag("B", None)]);
}

#[test]
fn set_attribute_replaces_and_appends() {
    let attr = |name: &str, value: &str| Attribute {
        name: name.to_string(),
        value: QuotedOrUnquoted::Quoted(value.to_string()),
    };
    let mut attributes = vec![attr("A", "1"), attr("B", "2")];
    set_attribute(&mut attributes, "A", QuotedOrUnquoted::Quoted("3".to_string()));
    assert_eq!(attributes, vec![attr("B", "2"), attr("A", "3")]);
    set_attribute(&mut attributes, "C", QuotedOrUnquoted::Quoted("4".to_string()));
    assert_eq!(attributes, vec![attr("B", "2"), attr("A", "3"), attr("C", "4")]);
}

fn keyed(uri: &str, key: Option<&str>, map: Option<&str>) -> MediaSegment {
    let mut s = segment(uri);
    s.key = key.map(aes_key);
    s.map = map.map(|m| InitMap {
        uri: m.to_string(),
        byte_range: None,
        other_attributes: Vec::new(),
    });
    s
}

#[test]
fn clipped_prefix_preserves_key() {
    let mut playlist = playlist(
        40,
        vec![keyed("s0.ts", Some("k0"), None), keyed("s1.ts", None, None), keyed("s2.ts", None, None)],
    );
    remove_segments_from_start(&mut playlist, 42);
    assert_eq!(playlist.media_sequence, 42);
    assert_eq!(playlist.segments.len(), 1);
    assert_eq!(playlist.segments[0].uri, "s2.ts");
    assert_eq!(playlist.segments[0].key, Some(aes_key("k0")));
}

#[test]
fn clipping_takes_the_last_key_and_map_of_the_prefix() {
    let mut playlist = playlist(
        0,
        vec![
            keyed("s0.ts", Some("k0"), Some("m0")),
            keyed("s1.ts", Some("k1"), None),
            keyed("s2.ts", None, None),
            keyed("s3.ts", None, None),
            keyed("s4.ts", Some("k4"), None),
        ],
    );
    remove_segments_from_start(&mut playlist, 3);
    assert_eq!(playlist.media_sequence, 3);
    assert_eq!(playlist.segments.len(), 2);
    assert_eq!(playlist.segments[0], keyed("s3.ts", Some("k1"), Some("m0")));
    assert_eq!(playlist.segments[1], keyed("s4.ts", Some("k4"), None));
}

#[test]
fn a_surviving_segment_keeps_its_own_key_and_map() {
    let mut playlist = playlist(
        0,
        vec![keyed("s0.ts", Some("k0"), Some("m0")), keyed("s1.ts", Some("k1"), Some("m1"))],
    );
    remove_segments_from_start(&mut playlist, 1);
    assert_eq!(playlist.segments, vec![keyed("s1.ts", Some("k1"), Some("m1"))]);
}

#[test]
fn clipping_at_or_before_the_start_changes_nothing() {
    let original = playlist(5, vec![keyed("s0.ts", Some("k0"), None), keyed("s1.ts", None, None)]);
    let mut same = original.clone();
    remove_segments_from_start(&mut same, 5);
    assert_eq!(same, original);
    remove_segments_from_start(&mut same, 0);
    assert_eq!(same, original);
}

#[test]
fn clipping_beyond_the_end_leaves_no_segment() {
    let mut playlist = playlist(5, vec![keyed("s0.ts", Some("k0"), None), keyed("s1.ts", None, None)]);
    remove_segments_from_start(&mut playlist, 7);
    assert_eq!(playlist.media_sequence, 7);
    assert!(playlist.segments.is_empty());
    let mut far = playlist_of_one(5);
    remove_segments_from_start(&mut far, u64::MAX);
    assert_eq!(far.media_sequence, u64::MAX);
    assert!(far.segments.is_empty());
}

#[test]
fn clip_right_terminates() {
    let mut playlist = playlist(100, vec![segment("a"), segment("b"), segment("c"), segment("d")]);
    remove_segments_from_end(&mut playlist, 101);
    assert!(playlist.end_list);
    assert_eq!(playlist.media_sequence, 100);
    let names: Vec<&str> = playlist.segments.iter().map(|s| s.uri.as_str()).collect();
    assert_eq!(names, vec!["a", "b"]);
}

#[test]
fn clip_right_beyond_the_end_keeps_all_segments() {
    let mut playlist = playlist(100, vec![segment("a"), segment("b")]);
    remove_segments_from_end(&mut playlist, 101);
    assert_eq!(playlist.segments.len(), 2);
    assert!(playlist.end_list);
    remove_segments_from_end(&mut playlist, u64::MAX);
    assert_eq!(playlist.segments.len(), 2);
    assert!(playlist.end_list);
}

#[test]
fn clip_right_before_the_start_keeps_no_segment() {
    let mut playlist = playlist(100, vec![segment("a"), segment("b")]);
    remove_segments_from_end(&mut playlist, 99);
    assert!(playlist.segments.is_empty());
    assert!(playlist.end_list);
    let mut first_only = playlist_of_one(100);
    first_only.segments.push(segment("b"));
    remove_segments_from_end(&mut first_only, 100);
    assert_eq!(first_only.segments.len(), 1);
}

#[test]
fn strip_removes_the_bookkeeping_of_the_recorder() {
    let mut a = segment("segment-0.ts");
    a.unknown_tags = vec![
        tag(ORIGINAL_URI, Some("https://example.com/live/a.ts")),
        tag(ORIGINAL_BYTE_RANGE, Some("10@0")),
        tag(ORIGINAL_KEY_URI, Some("https://example.com/live/enc.key")),
        tag(ORIGINAL_MAP_URI, Some("https://example.com/live/init.mp4")),
        tag("X-CUSTOM", None),
    ];
    let mut playlist = playlist(0, vec![a]);
    playlist.unknown_tags = vec![
        tag(ORIGINAL_SERVER_CONTROL, Some("x")),
        tag("X-KEEP", None),
        tag(ORIGINAL_PRELOAD_HINT, None),
        tag(ORIGINAL_RENDITION_REPORT, None),
        tag(ORIGINAL_URI, Some("stays at playlist level")),
    ];
    strip_media_playlist(&mut playlist);
    assert_eq!(
        playlist.unknown_tags,
        vec![tag("X-KEEP", None), tag(ORIGINAL_URI, Some("stays at playlist level"))]
    );
    assert_eq!(
        playlist.segments[0].unknown_tags,
        vec![
            tag(ORIGINAL_KEY_URI, Some("https://example.com/live/enc.key")),
            tag(ORIGINAL_MAP_URI, Some("https://example.com/live/init.mp4")),
            tag("X-CUSTOM", None),
        ]
    );
    assert_eq!(playlist.segments[0].uri, "segment-0.ts");
}

#[test]
fn strip_segment_leaves_other_fields_alone() {
    let mut a = keyed("segment-0.ts", Some("key-x.bin"), Some("init-y.mp4"));
    a.unknown_tags = vec![tag(ORIGINAL_URI, Some("u"))];
    let mut expected = a.clone();
    expected.unknown_tags.clear();
    strip_segment(&mut a);
    assert_eq!(a, expected);
}

#[test]
fn the_tag_names_are_those_of_the_format() {
    assert_eq!(ORIGINAL_URI, "X-ORIGINAL-URI");
    assert_eq!(ORIGINAL_MAP_URI, "X-ORIGINAL-MAP-URI");
    assert_eq!(ORIGINAL_KEY_URI, "X-ORIGINAL-KEY-URI");
    assert_eq!(ORIGINAL_BYTE_RANGE, "X-ORIGINAL-BYTE-RANGE");
    assert_eq!(ORIGINAL_SERVER_CONTROL, "X-ORIGINAL-SERVER-CONTROL");
    assert_eq!(ORIGINAL_PRELOAD_HINT, "X-ORIGINAL-PRELOAD-HINT");
    assert_eq!(ORIGINAL_RENDITION_REPORT, "X-ORIGINAL-RENDITION-REPORT");
}

#[test]
fn a_missing_byte_range_of_a_map_leaves_the_running_start() {
    let mut range = None;
    let mut attributes = Vec::new();
    let mut next = 1500;
    rewrite_byte_range_in_attribute(&mut range, &mut attributes, &mut next).unwrap();
    assert_eq!(next, 1500);
    assert_eq!(range, None);
    assert!(attributes.is_empty());
}

#[test]
fn a_byte_range_of_a_map_moves_the_running_start() {
    let mut range = Some(M3u8ByteRange { length: 50, offset: None });
    let mut attributes = Vec::new();
    let mut next = 1500;
    rewrite_byte_range_in_attribute(&mut range, &mut attributes, &mut next).unwrap();
    assert_eq!(next, 1550);
    assert_eq!(range, None);
    assert_eq!(
        attributes,
        vec![Attribute {
            name: "X-ORIGINAL-BYTE-RANGE".to_string(),
            value: QuotedOrUnquoted::Quoted("50@1500".to_string()),
        }]
    );
    let mut beyond = Some(M3u8ByteRange { length: 2, offset: Some(u64::MAX - 1) });
    let result = rewrite_byte_range_in_attribute(&mut beyond, &mut attributes, &mut next);
    assert!(matches!(result, Err(RecordError::Parse(_))));
}
