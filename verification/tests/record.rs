use streamrr::byte_range::ByteRange;
use streamrr::playlist::{
    AlternativeMedia, AlternativeMediaType, Attribute, ClosedCaptionGroupId, ExtTag, InitMap, Key,
    KeyMethod, MediaSegment, QuotedOrUnquoted, VariantStream,
};
use streamrr::record::{
    download_key, download_map, download_segment, download_segments, find_attribute,
    find_segment_index_by_offset, find_tag, make_segment_download_tasks,
    media_applies_to_variant, range_header, Download, RecordError, MAX_CONCURRENT_DOWNLOADS,
};

fn tag(name: &str, rest: Option<&str>) -> ExtTag {
    ExtTag { tag: name.to_string(), rest: rest.map(|r| r.to_string()) }
}

fn timed(duration: u64) -> MediaSegment {
    MediaSegment {
        uri: "s.ts".to_string(),
        duration,
        byte_range: None,
        key: None,
        map: None,
        unknown_tags: Vec::new(),
    }
}

fn recorded(uri: &str, tags: Vec<ExtTag>) -> MediaSegment {
    MediaSegment {
        uri: uri.to_string(),
        duration: 6000,
        byte_range: None,
        key: None,
        map: None,
        unknown_tags: tags,
    }
}

fn five_of_six_seconds() -> Vec<MediaSegment> {
    vec![timed(6000), timed(6000), timed(6000), timed(6000), timed(6000)]
}

#[test]
fn an_offset_from_the_start_falls_into_a_half_open_interval() {
    let segments = five_of_six_seconds();
    assert_eq!(find_segment_index_by_offset(&segments, 0), Some(0));
    assert_eq!(find_segment_index_by_offset(&segments, 5_999), Some(0));
    assert_eq!(find_segment_index_by_offset(&segments, 6_000), Some(1));
    assert_eq!(find_segment_index_by_offset(&segments, 12_000), Some(2));
    assert_eq!(find_segment_index_by_offset(&segments, 24_000), Some(4));
    assert_eq!(find_segment_index_by_offset(&segments, 29_999), Some(4));
}

#[test]
fn an_offset_beyond_the_playlist_finds_nothing() {
    let segments = five_of_six_seconds();
    assert_eq!(find_segment_index_by_offset(&segments, 30_000), None);
    assert_eq!(find_segment_index_by_offset(&segments, i64::MAX), None);
    assert_eq!(find_segment_index_by_offset(&segments, -30_000), None);
    assert_eq!(find_segment_index_by_offset(&segments, i64::MIN), None);
    assert_eq!(find_segment_index_by_offset(&[], 0), None);
    assert_eq!(find_segment_index_by_offset(&[], -1), None);
}

#[test]
fn a_negative_offset_counts_from_the_end() {
    let segments = five_of_six_seconds();
    assert_eq!(find_segment_index_by_offset(&segments, -1), Some(4));
    assert_eq!(find_segment_index_by_offset(&segments, -5_999), Some(4));
    assert_eq!(find_segment_index_by_offset(&segments, -6_000), Some(3));
    assert_eq!(find_segment_index_by_offset(&segments, -12_000), Some(2));
    assert_eq!(find_segment_index_by_offset(&segments, -29_999), Some(0));
}

#[test]
fn segments_of_unequal_length() {
    let segments = vec![timed(1_000), timed(0), timed(2_500), timed(500)];
    assert_eq!(find_segment_index_by_offset(&segments, 999), Some(0));
    assert_eq!(find_segment_index_by_offset(&segments, 1_000), Some(2));
    assert_eq!(find_segment_index_by_offset(&segments, 3_499), Some(2));
    assert_eq!(find_segment_index_by_offset(&segments, 3_500), Some(3));
    assert_eq!(find_segment_index_by_offset(&segments, 4_000), None);
    assert_eq!(find_segment_index_by_offset(&segments, -500), Some(2));
    assert_eq!(find_segment_index_by_offset(&segments, -3_000), Some(0));
}

#[test]
fn durations_that_add_up_beyond_64_bits() {
    let segments = vec![timed(u64::MAX), timed(u64::MAX)];
    assert_eq!(find_segment_index_by_offset(&segments, i64::MAX), Some(0));
    assert_eq!(find_segment_index_by_offset(&segments, i64::MIN), Some(1));
    let later = vec![timed(10), timed(u64::MAX)];
    assert_eq!(find_segment_index_by_offset(&later, 10), Some(1));
    assert_eq!(find_segment_index_by_offset(&later, i64::MAX), Some(1));
}

fn variant() -> VariantStream {
    VariantStream {
        uri: "v.m3u8".to_string(),
        bandwidth: 1,
        audio: Some("aud".to_string()),
        video: Some("vid".to_string()),
        subtitles: Some("sub".to_string()),
        closed_captions: Some(ClosedCaptionGroupId::GroupId("cc".to_string())),
        other_attributes: Vec::new(),
    }
}

fn rendition(media_type: AlternativeMediaType, group_id: &str) -> AlternativeMedia {
    AlternativeMedia {
        media_type,
        uri: None,
        group_id: group_id.to_string(),
        default: false,
        other_attributes: Vec::new(),
    }
}

#[test]
fn a_rendition_applies_to_a_variant_that_names_its_group() {
    let v = variant();
    assert!(media_applies_to_variant(&rendition(AlternativeMediaType::Audio, "aud"), &v));
    assert!(media_applies_to_variant(&rendition(AlternativeMediaType::Video, "vid"), &v));
    assert!(media_applies_to_variant(&rendition(AlternativeMediaType::Subtitles, "sub"), &v));
    assert!(media_applies_to_variant(&rendition(AlternativeMediaType::ClosedCaptions, "cc"), &v));
}

#[test]
fn groups_are_matched_by_kind() {
    let v = variant();
    assert!(!media_applies_to_variant(&rendition(AlternativeMediaType::Audio, "vid"), &v));
    assert!(!media_applies_to_variant(&rendition(AlternativeMediaType::Video, "aud"), &v));
    assert!(!media_applies_to_variant(&rendition(AlternativeMediaType::Subtitles, "cc"), &v));
    assert!(!media_applies_to_variant(&rendition(AlternativeMediaType::ClosedCaptions, "sub"), &v));
    assert!(!media_applies_to_variant(
        &rendition(AlternativeMediaType::Other("X".to_string()), "aud"),
        &v
    ));
}

#[test]
fn a_variant_without_groups_takes_no_rendition() {
    let mut v = variant();
    v.audio = None;
    v.closed_captions = Some(ClosedCaptionGroupId::NoCaptions);
    assert!(!media_applies_to_variant(&rendition(AlternativeMediaType::Audio, "aud"), &v));
    assert!(!media_applies_to_variant(&rendition(AlternativeMediaType::ClosedCaptions, "cc"), &v));
    v.closed_captions = None;
    assert!(!media_applies_to_variant(&rendition(AlternativeMediaType::ClosedCaptions, "cc"), &v));
}

#[test]
fn find_tag_takes_the_first_of_a_name() {
    let tags = vec![tag("A", Some("1")), tag("B", None), tag("A", Some("2"))];
    assert_eq!(find_tag(&tags, "A"), Some(&tags[0]));
    assert_eq!(find_tag(&tags, "B"), Some(&tags[1]));
    assert_eq!(find_tag(&tags, "C"), None);
    assert_eq!(find_tag(&Vec::new(), "A"), None);
}

#[test]
fn find_attribute_takes_the_first_of_a_name() {
    let attributes = vec![
        Attribute { name: "A".to_string(), value: QuotedOrUnquoted::Quoted("1".to_string()) },
        Attribute { name: "A".to_string(), value: QuotedOrUnquoted::Unquoted("2".to_string()) },
    ];
    assert_eq!(
        find_attribute(&attributes, "A"),
        Some(&QuotedOrUnquoted::Quoted("1".to_string()))
    );
    assert_eq!(find_attribute(&attributes, "B"), None);
    assert_eq!(QuotedOrUnquoted::Unquoted("2".to_string()).as_str(), "2");
    assert_eq!(QuotedOrUnquoted::Quoted("1".to_string()).as_str(), "1");
}

#[test]
fn the_download_of_a_segment() {
    let segment = recorded(
        "segment-7.ts",
        vec![tag("X-OTHER", None), tag("X-ORIGINAL-URI", Some("https://example.com/a.ts"))],
    );
    assert_eq!(
        download_segment(&segment),
        Ok(Download {
            url: "https://example.com/a.ts".to_string(),
            byte_range: None,
            file_name: "segment-7.ts".to_string(),
        })
    );
}

#[test]
fn the_download_of_a_part_of_a_resource() {
    let segment = recorded(
        "segment-7.mp4",
        vec![
            tag("X-ORIGINAL-URI", Some("https://example.com/main.mp4")),
            tag("X-ORIGINAL-BYTE-RANGE", Some("800@1500")),
        ],
    );
    assert_eq!(
        download_segment(&segment),
        Ok(Download {
            url: "https://example.com/main.mp4".to_string(),
            byte_range: Some(ByteRange { length: 800, offset: 1500 }),
            file_name: "segment-7.mp4".to_string(),
        })
    );
}

#[test]
fn a_segment_without_original_uri_is_a_parse_error() {
    assert!(matches!(
        download_segment(&recorded("segment-7.ts", Vec::new())),
        Err(RecordError::Parse(_))
    ));
    assert!(matches!(
        download_segment(&recorded("segment-7.ts", vec![tag("X-ORIGINAL-URI", None)])),
        Err(RecordError::Parse(_))
    ));
}

#[test]
fn a_malformed_byte_range_is_a_parse_error() {
    for range in [Some("800"), Some("a@b"), Some("800@"), None] {
        let segment = recorded(
            "segment-7.ts",
            vec![
                tag("X-ORIGINAL-URI", Some("https://example.com/main.mp4")),
                tag("X-ORIGINAL-BYTE-RANGE", range),
            ],
        );
        assert!(matches!(download_segment(&segment), Err(RecordError::Parse(_))), "{range:?}");
    }
}

fn stored_key(uri: Option<&str>) -> Key {
    Key {
        method: KeyMethod::AES128,
        uri: uri.map(|u| u.to_string()),
        iv: None,
        keyformat: None,
        keyformatversions: None,
    }
}

#[test]
fn the_download_of_a_key() {
    let segment = recorded(
        "segment-7.ts",
        vec![
            tag("X-ORIGINAL-URI", Some("https://example.com/a.ts")),
            tag("X-ORIGINAL-KEY-URI", Some("https://example.com/enc.key")),
        ],
    );
    assert_eq!(
        download_key(&stored_key(Some("key-abc.bin")), &segment),
        Ok(Some(Download {
            url: "https://example.com/enc.key".to_string(),
            byte_range: None,
            file_name: "key-abc.bin".to_string(),
        }))
    );
}

#[test]
fn a_key_that_was_not_rewritten_is_not_fetched() {
    let segment = recorded("segment-7.ts", vec![tag("X-ORIGINAL-URI", Some("u"))]);
    assert_eq!(download_key(&stored_key(Some("skd://asset")), &segment), Ok(None));
}

#[test]
fn a_key_tag_without_value_or_a_key_without_uri_is_a_parse_error() {
    let no_value = recorded("s", vec![tag("X-ORIGINAL-KEY-URI", None)]);
    assert!(matches!(
        download_key(&stored_key(Some("key-abc.bin")), &no_value),
        Err(RecordError::Parse(_))
    ));
    let with_value = recorded("s", vec![tag("X-ORIGINAL-KEY-URI", Some("https://example.com/k"))]);
    assert!(matches!(download_key(&stored_key(None), &with_value), Err(RecordError::Parse(_))));
}

fn stored_map(range: Option<&str>) -> InitMap {
    InitMap {
        uri: "init-abc.mp4".to_string(),
        byte_range: None,
        other_attributes: match range {
            Some(range) => vec![Attribute {
                name: "X-ORIGINAL-BYTE-RANGE".to_string(),
                value: QuotedOrUnquoted::Quoted(range.to_string()),
            }],
            None => Vec::new(),
        },
    }
}

#[test]
fn the_download_of_a_map() {
    let segment = recorded(
        "segment-7.ts",
        vec![tag("X-ORIGINAL-MAP-URI", Some("https://example.com/init.mp4"))],
    );
    assert_eq!(
        download_map(&stored_map(None), &segment),
        Ok(Some(Download {
            url: "https://example.com/init.mp4".to_string(),
            byte_range: None,
            file_name: "init-abc.mp4".to_string(),
        }))
    );
    assert_eq!(
        download_map(&stored_map(Some("50@1100")), &segment),
        Ok(Some(Download {
            url: "https://example.com/init.mp4".to_string(),
            byte_range: Some(ByteRange { length: 50, offset: 1100 }),
            file_name: "init-abc.mp4".to_string(),
        }))
    );
}

#[test]
fn a_map_without_original_uri_is_not_fetched() {
    let segment = recorded("segment-7.ts", Vec::new());
    assert_eq!(download_map(&stored_map(Some("50@1100")), &segment), Ok(None));
}

#[test]
fn a_map_with_a_malformed_byte_range_is_a_parse_error() {
    let segment = recorded("s", vec![tag("X-ORIGINAL-MAP-URI", Some("https://example.com/i"))]);
    assert!(matches!(
        download_map(&stored_map(Some("50")), &segment),
        Err(RecordError::Parse(_))
    ));
    let no_value = recorded("s", vec![tag("X-ORIGINAL-MAP-URI", None)]);
    assert!(matches!(download_map(&stored_map(None), &no_value), Err(RecordError::Parse(_))));
}

#[test]
fn the_downloads_of_a_segment_are_segment_key_map() {
    let mut segment = recorded(
        "segment-7.ts",
        vec![
            tag("X-ORIGINAL-URI", Some("https://example.com/a.ts")),
            tag("X-ORIGINAL-KEY-URI", Some("https://example.com/enc.key")),
            tag("X-ORIGINAL-MAP-URI", Some("https://example.com/init.mp4")),
        ],
    );
    segment.key = Some(stored_key(Some("key-abc.bin")));
    segment.map = Some(stored_map(None));
    let names: Vec<String> = make_segment_download_tasks(&segment)
        .unwrap()
        .into_iter()
        .map(|d| d.file_name)
        .collect();
    assert_eq!(names, vec!["segment-7.ts", "key-abc.bin", "init-abc.mp4"]);
}

#[test]
fn the_downloads_of_a_playlist_follow_its_segments() {
    let mut first = recorded("segment-0.ts", vec![tag("X-ORIGINAL-URI", Some("https://e/a.ts"))]);
    first.map = Some(stored_map(None));
    first.unknown_tags.push(tag("X-ORIGINAL-MAP-URI", Some("https://e/init.mp4")));
    let second = recorded("segment-1.ts", vec![tag("X-ORIGINAL-URI", Some("https://e/b.ts"))]);
    let downloads = download_segments(&[first, second]).unwrap();
    let pairs: Vec<(&str, &str)> =
        downloads.iter().map(|d| (d.url.as_str(), d.file_name.as_str())).collect();
    assert_eq!(
        pairs,
        vec![
            ("https://e/a.ts", "segment-0.ts"),
            ("https://e/init.mp4", "init-abc.mp4"),
            ("https://e/b.ts", "segment-1.ts"),
        ]
    );
    assert_eq!(download_segments(&[]), Ok(Vec::new()));
}

#[test]
fn one_segment_that_cannot_be_fetched_fails_the_playlist() {
    let good = recorded("segment-0.ts", vec![tag("X-ORIGINAL-URI", Some("https://e/a.ts"))]);
    let bad = recorded("segment-1.ts", Vec::new());
    assert!(matches!(download_segments(&[good, bad]), Err(RecordError::Parse(_))));
}

#[test]
fn the_range_header_names_the_last_byte_inclusively() {
    assert_eq!(range_header(ByteRange { length: 1000, offset: 500 }), "bytes=500-1499");
    assert_eq!(range_header(ByteRange { length: 800, offset: 1500 }), "bytes=1500-2299");
    assert_eq!(range_header(ByteRange { length: 1, offset: 0 }), "bytes=0-0");
}

#[test]
fn the_range_header_at_the_limits() {
    assert_eq!(
        range_header(ByteRange { length: 1, offset: u64::MAX }),
        "bytes=18446744073709551615-18446744073709551615"
    );
    assert_eq!(range_header(ByteRange { length: u64::MAX, offset: 1 }), "bytes=1-18446744073709551615");
    assert_eq!(range_header(ByteRange { length: 0, offset: 5 }), "bytes=5-4");
}

#[test]
fn four_downloads_run_at_a_time() {
    assert_eq!(MAX_CONCURRENT_DOWNLOADS, 4);
}

#[test]
fn the_messages_of_the_errors() {
    assert_eq!(
        RecordError::Config("No variant streams selected.".to_string()).to_string(),
        "configuration error: No variant streams selected."
    );
    assert_eq!(RecordError::Parse("bad".to_string()).to_string(), "parse error: bad");
    assert_eq!(RecordError::Io("disk".to_string()).to_string(), "I/O error: disk");
    assert_eq!(RecordError::Cancelled.to_string(), "cancelled");
}
