use streamrr::playlist::{
    AlternativeMedia, AlternativeMediaType, Attribute, ClosedCaptionGroupId, MasterPlaylist,
    QuotedOrUnquoted, VariantStream,
};
use streamrr::record::{RecordError, RecordOptions};
use streamrr::record_master::{
    record_master_playlist, record_medias, record_variants, select_media, ChildRecording,
};
use streamrr::select::{MediaSelect, VariantSelect, VariantSelectOptions};

const MASTER: &str = "https://example.com/stream/master.m3u8";

fn variant(uri: &str, bandwidth: u64, audio: Option<&str>) -> VariantStream {
    VariantStream {
        uri: uri.to_string(),
        bandwidth,
        audio: audio.map(|a| a.to_string()),
        video: None,
        subtitles: None,
        closed_captions: None,
        other_attributes: Vec::new(),
    }
}

fn media(
    media_type: AlternativeMediaType,
    group_id: &str,
    uri: Option<&str>,
    default: bool,
) -> AlternativeMedia {
    AlternativeMedia {
        media_type,
        uri: uri.map(|u| u.to_string()),
        group_id: group_id.to_string(),
        default,
        other_attributes: Vec::new(),
    }
}

fn options(variant_select: VariantSelectOptions) -> RecordOptions {
    RecordOptions {
        variant_select,
        audio: MediaSelect::Default,
        video: MediaSelect::Default,
        subtitle: MediaSelect::Default,
        start: None,
        end: None,
    }
}

fn original(url: &str) -> Attribute {
    Attribute {
        name: "X-ORIGINAL-URI".to_string(),
        value: QuotedOrUnquoted::Quoted(url.to_string()),
    }
}

fn child(url: &str, dir: &str) -> ChildRecording {
    ChildRecording { url: url.to_string(), dir: dir.to_string() }
}

#[test]
fn vod_master_recording() {
    let master = MasterPlaylist {
        variants: vec![variant("low/index.m3u8", 500_000, None), variant("high/index.m3u8", 2_000_000, None)],
        alternatives: Vec::new(),
    };
    let recording = record_master_playlist(
        MASTER,
        options(VariantSelectOptions::Named(VariantSelect::Lowest)),
        &master,
    )
    .unwrap();
    assert_eq!(recording.variant_origins, vec![0]);
    assert_eq!(recording.playlist.variants.len(), 1);
    assert_eq!(recording.playlist.variants[0].uri, "variant0/index.m3u8");
    assert_eq!(recording.playlist.variants[0].bandwidth, 500_000);
    assert_eq!(
        recording.playlist.variants[0].other_attributes,
        vec![original("https://example.com/stream/low/index.m3u8")]
    );
    assert_eq!(
        recording.children,
        vec![child("https://example.com/stream/low/index.m3u8", "variant0/")]
    );
    assert!(recording.playlist.alternatives.is_empty());
    assert!(recording.alternative_origins.is_empty());
}

#[test]
fn the_highest_variant_is_numbered_from_zero() {
    let master = MasterPlaylist {
        variants: vec![variant("low.m3u8", 500_000, None), variant("high.m3u8", 2_000_000, None)],
        alternatives: Vec::new(),
    };
    let recording = record_master_playlist(
        MASTER,
        options(VariantSelectOptions::Named(VariantSelect::Highest)),
        &master,
    )
    .unwrap();
    assert_eq!(recording.variant_origins, vec![1]);
    assert_eq!(recording.playlist.variants[0].uri, "variant0/index.m3u8");
    assert_eq!(recording.children, vec![child("https://example.com/stream/high.m3u8", "variant0/")]);
}

#[test]
fn all_variants_get_directories_in_their_order() {
    let master = MasterPlaylist {
        variants: vec![
            variant("a.m3u8", 3, None),
            variant("/abs/b.m3u8", 1, None),
            variant("https://cdn.example.net/c.m3u8", 2, None),
        ],
        alternatives: Vec::new(),
    };
    let recording = record_master_playlist(
        MASTER,
        options(VariantSelectOptions::Named(VariantSelect::All)),
        &master,
    )
    .unwrap();
    assert_eq!(recording.variant_origins, vec![0, 1, 2]);
    let uris: Vec<&str> = recording.playlist.variants.iter().map(|v| v.uri.as_str()).collect();
    assert_eq!(uris, vec!["variant0/index.m3u8", "variant1/index.m3u8", "variant2/index.m3u8"]);
    assert_eq!(
        recording.children,
        vec![
            child("https://example.com/stream/a.m3u8", "variant0/"),
            child("https://example.com/abs/b.m3u8", "variant1/"),
            child("https://cdn.example.net/c.m3u8", "variant2/"),
        ]
    );
}

#[test]
fn no_variants_is_a_configuration_error() {
    let master = MasterPlaylist { variants: Vec::new(), alternatives: Vec::new() };
    for select in [
        VariantSelectOptions::Named(VariantSelect::First),
        VariantSelectOptions::Named(VariantSelect::All),
        VariantSelectOptions::Bandwidth(1),
    ] {
        let result = record_master_playlist(MASTER, options(select), &master);
        assert_eq!(result, Err(RecordError::Config("No variant streams selected.".to_string())));
    }
}

#[test]
fn a_variant_uri_that_does_not_resolve_is_a_parse_error() {
    let master = MasterPlaylist {
        variants: vec![variant("https://[bad", 1, None), variant("good.m3u8", 2, None)],
        alternatives: Vec::new(),
    };
    let first = record_master_playlist(
        MASTER,
        options(VariantSelectOptions::Named(VariantSelect::First)),
        &master,
    );
    assert!(matches!(first, Err(RecordError::Parse(_))));
    let highest = record_master_playlist(
        MASTER,
        options(VariantSelectOptions::Named(VariantSelect::Highest)),
        &master,
    );
    assert!(highest.is_ok());
}

#[test]
fn a_master_url_that_is_no_url_is_a_parse_error() {
    let master = MasterPlaylist { variants: vec![variant("a.m3u8", 1, None)], alternatives: Vec::new() };
    let result = record_master_playlist(
        "master.m3u8",
        options(VariantSelectOptions::Named(VariantSelect::First)),
        &master,
    );
    assert!(matches!(result, Err(RecordError::Parse(_))));
}

fn with_renditions() -> MasterPlaylist {
    let mut high = variant("high.m3u8", 2_000_000, Some("aud-hi"));
    high.subtitles = Some("subs".to_string());
    high.closed_captions = Some(ClosedCaptionGroupId::GroupId("cc".to_string()));
    let mut low = variant("low.m3u8", 500_000, Some("aud-lo"));
    low.subtitles = Some("subs".to_string());
    MasterPlaylist {
        variants: vec![high, low],
        alternatives: vec![
            media(AlternativeMediaType::Subtitles, "subs", Some("subs/en.m3u8"), false),
            media(AlternativeMediaType::Audio, "aud-hi", Some("audio/hi-en.m3u8"), false),
            media(AlternativeMediaType::Audio, "aud-lo", Some("audio/lo-en.m3u8"), true),
            media(AlternativeMediaType::Audio, "aud-hi", Some("audio/hi-fr.m3u8"), true),
            media(AlternativeMediaType::ClosedCaptions, "cc", None, false),
            media(AlternativeMediaType::Other("X-DATA".to_string()), "data", Some("data.m3u8"), false),
            media(AlternativeMediaType::Subtitles, "subs", Some("subs/fr.m3u8"), true),
            media(AlternativeMediaType::Video, "angles", Some("video/angle.m3u8"), true),
            media(AlternativeMediaType::ClosedCaptions, "cc-other", None, false),
        ],
    }
}

#[test]
fn renditions_go_with_the_selected_variants() {
    let master = with_renditions();
    let first = options(VariantSelectOptions::Named(VariantSelect::First));
    let selected = vec![master.variants[0].clone()];
    assert_eq!(select_media(&master.alternatives, &selected, first), vec![3, 6, 4, 5]);
    let mut all_audio = first;
    all_audio.audio = MediaSelect::All;
    all_audio.subtitle = MediaSelect::First;
    assert_eq!(select_media(&master.alternatives, &selected, all_audio), vec![1, 3, 0, 4, 5]);
    let low = vec![master.variants[1].clone()];
    assert_eq!(select_media(&master.alternatives, &low, first), vec![2, 6, 5]);
}

#[test]
fn renditions_of_other_kinds_stay() {
    let master = with_renditions();
    let none: Vec<VariantStream> = vec![variant("plain.m3u8", 1, None)];
    let first = options(VariantSelectOptions::Named(VariantSelect::First));
    assert_eq!(select_media(&master.alternatives, &none, first), vec![5]);
}

#[test]
fn recorded_renditions_get_directories_by_group_and_position() {
    let master = with_renditions();
    let recording = record_master_playlist(
        MASTER,
        options(VariantSelectOptions::Named(VariantSelect::First)),
        &master,
    )
    .unwrap();
    assert_eq!(recording.alternative_origins, vec![3, 6, 4, 5]);
    let uris: Vec<Option<&str>> =
        recording.playlist.alternatives.iter().map(|m| m.uri.as_deref()).collect();
    assert_eq!(
        uris,
        vec![
            Some("media-aud-hi-0/index.m3u8"),
            Some("media-subs-1/index.m3u8"),
            None,
            Some("media-data-3/index.m3u8"),
        ]
    );
    assert_eq!(
        recording.playlist.alternatives[0].other_attributes,
        vec![original("https://example.com/stream/audio/hi-fr.m3u8")]
    );
    assert!(recording.playlist.alternatives[2].other_attributes.is_empty());
    assert_eq!(
        recording.children,
        vec![
            child("https://example.com/stream/high.m3u8", "variant0/"),
            child("https://example.com/stream/audio/hi-fr.m3u8", "media-aud-hi-0/"),
            child("https://example.com/stream/subs/fr.m3u8", "media-subs-1/"),
            child("https://example.com/stream/data.m3u8", "media-data-3/"),
        ]
    );
}

#[test]
fn a_rendition_uri_that_does_not_resolve_is_a_parse_error() {
    let mut master = with_renditions();
    master.alternatives[3].uri = Some("https://[bad".to_string());
    let result = record_master_playlist(
        MASTER,
        options(VariantSelectOptions::Named(VariantSelect::First)),
        &master,
    );
    assert!(matches!(result, Err(RecordError::Parse(_))));
    let low = record_master_playlist(
        MASTER,
        options(VariantSelectOptions::Named(VariantSelect::Lowest)),
        &master,
    );
    assert!(low.is_ok());
}

#[test]
fn an_original_uri_attribute_is_replaced() {
    let mut stale = variant("a.m3u8", 1, None);
    stale.other_attributes = vec![
        original("https://stale.example/"),
        Attribute { name: "X-KEEP".to_string(), value: QuotedOrUnquoted::Unquoted("1".to_string()) },
    ];
    let (recorded, children) = record_variants(MASTER, vec![stale]).unwrap();
    assert_eq!(
        recorded[0].other_attributes,
        vec![
            Attribute { name: "X-KEEP".to_string(), value: QuotedOrUnquoted::Unquoted("1".to_string()) },
            original("https://example.com/stream/a.m3u8"),
        ]
    );
    assert_eq!(children.len(), 1);
}

#[test]
fn renditions_without_uri_are_recorded_as_they_are() {
    let plain = media(AlternativeMediaType::ClosedCaptions, "cc", None, false);
    let (recorded, children) = record_medias(MASTER, vec![plain.clone()]).unwrap();
    assert_eq!(recorded, vec![plain]);
    assert!(children.is_empty());
}
