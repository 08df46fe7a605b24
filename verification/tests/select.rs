use streamrr::playlist::{AlternativeMedia, AlternativeMediaType, VariantStream};
use streamrr::select::{MediaSelect, VariantSelect, VariantSelectOptions};

fn variant(uri: &str, bandwidth: u64) -> VariantStream {
    VariantStream {
        uri: uri.to_string(),
        bandwidth,
        audio: None,
        video: None,
        subtitles: None,
        closed_captions: None,
        other_attributes: Vec::new(),
    }
}

fn media(group_id: &str, default: bool) -> AlternativeMedia {
    AlternativeMedia {
        media_type: AlternativeMediaType::Audio,
        uri: Some(format!("{group_id}.m3u8")),
        group_id: group_id.to_string(),
        default,
        other_attributes: Vec::new(),
    }
}

fn uris(variants: &[VariantStream]) -> Vec<&str> {
    variants.iter().map(|v| v.uri.as_str()).collect()
}

fn groups(medias: &[AlternativeMedia]) -> Vec<&str> {
    medias.iter().map(|m| m.group_id.as_str()).collect()
}

fn ladder() -> Vec<VariantStream> {
    vec![
        variant("mid", 1_000_000),
        variant("low", 500_000),
        variant("high", 2_000_000),
        variant("low-again", 500_000),
        variant("high-again", 2_000_000),
    ]
}

#[test]
fn first_selects_the_first_variant() {
    let all = ladder();
    let option = VariantSelectOptions::Named(VariantSelect::First);
    assert_eq!(uris(option.filter_variants(&all)), vec!["mid"]);
    assert_eq!(option.variant_range(&all), (0, 1));
}

#[test]
fn lowest_selects_the_first_of_the_lowest() {
    let all = ladder();
    let option = VariantSelectOptions::Named(VariantSelect::Lowest);
    assert_eq!(uris(option.filter_variants(&all)), vec!["low"]);
    assert_eq!(option.variant_range(&all), (1, 2));
}

#[test]
fn highest_selects_the_first_of_the_highest() {
    let all = ladder();
    let option = VariantSelectOptions::Named(VariantSelect::Highest);
    assert_eq!(uris(option.filter_variants(&all)), vec!["high"]);
    assert_eq!(option.variant_range(&all), (2, 3));
}

#[test]
fn all_selects_every_variant_in_order() {
    let all = ladder();
    let option = VariantSelectOptions::Named(VariantSelect::All);
    assert_eq!(
        uris(option.filter_variants(&all)),
        vec!["mid", "low", "high", "low-again", "high-again"]
    );
    assert_eq!(option.variant_range(&all), (0, 5));
}

#[test]
fn nothing_is_selected_of_no_variants() {
    let none: Vec<VariantStream> = Vec::new();
    for option in [
        VariantSelectOptions::Named(VariantSelect::First),
        VariantSelectOptions::Named(VariantSelect::Lowest),
        VariantSelectOptions::Named(VariantSelect::Highest),
        VariantSelectOptions::Named(VariantSelect::All),
        VariantSelectOptions::Bandwidth(1_000_000),
    ] {
        assert!(option.filter_variants(&none).is_empty());
        assert_eq!(option.variant_range(&none), (0, 0));
    }
}

#[test]
fn bandwidth_cap_selects_the_highest_within_the_cap() {
    let all = ladder();
    assert_eq!(uris(VariantSelectOptions::Bandwidth(1_500_000).filter_variants(&all)), vec!["mid"]);
    assert_eq!(uris(VariantSelectOptions::Bandwidth(1_000_000).filter_variants(&all)), vec!["mid"]);
    assert_eq!(uris(VariantSelectOptions::Bandwidth(999_999).filter_variants(&all)), vec!["low"]);
    assert_eq!(uris(VariantSelectOptions::Bandwidth(u64::MAX).filter_variants(&all)), vec!["high"]);
}

#[test]
fn bandwidth_cap_falls_back_to_the_lowest() {
    let all = ladder();
    assert_eq!(uris(VariantSelectOptions::Bandwidth(499_999).filter_variants(&all)), vec!["low"]);
    assert_eq!(uris(VariantSelectOptions::Bandwidth(0).filter_variants(&all)), vec!["low"]);
}

#[test]
fn bandwidth_cap_returns_exactly_one_variant() {
    let all = ladder();
    for cap in [0, 1, 499_999, 500_000, 500_001, 1_000_000, 1_999_999, 2_000_000, u64::MAX] {
        let selected = VariantSelectOptions::Bandwidth(cap).filter_variants(&all);
        assert_eq!(selected.len(), 1);
        let within: Vec<u64> =
            all.iter().map(|v| v.bandwidth).filter(|b| *b <= cap).collect();
        let expected = match within.iter().max() {
            Some(best) => *best,
            None => all.iter().map(|v| v.bandwidth).min().unwrap(),
        };
        assert_eq!(selected[0].bandwidth, expected, "cap {cap}");
    }
}

#[test]
fn the_default_options_select_the_first_variant_and_default_renditions() {
    assert!(matches!(
        VariantSelectOptions::default(),
        VariantSelectOptions::Named(VariantSelect::First)
    ));
    assert_eq!(VariantSelect::default(), VariantSelect::First);
    assert_eq!(MediaSelect::default(), MediaSelect::Default);
}

#[test]
fn default_selects_the_first_default_rendition() {
    let all = vec![media("a", false), media("b", true), media("c", true)];
    assert_eq!(groups(MediaSelect::Default.filter_media(&all)), vec!["b"]);
    assert_eq!(MediaSelect::Default.media_range(&all), (1, 2));
}

#[test]
fn default_selects_nothing_without_a_default_rendition() {
    let all = vec![media("a", false), media("b", false)];
    assert!(MediaSelect::Default.filter_media(&all).is_empty());
    assert_eq!(MediaSelect::Default.media_range(&all), (0, 0));
}

#[test]
fn first_selects_the_first_rendition() {
    let all = vec![media("a", false), media("b", true)];
    assert_eq!(groups(MediaSelect::First.filter_media(&all)), vec!["a"]);
    assert_eq!(MediaSelect::First.media_range(&all), (0, 1));
}

#[test]
fn all_selects_every_rendition() {
    let all = vec![media("a", false), media("b", true)];
    assert_eq!(groups(MediaSelect::All.filter_media(&all)), vec!["a", "b"]);
    assert_eq!(MediaSelect::All.media_range(&all), (0, 2));
}

#[test]
fn nothing_is_selected_of_no_renditions() {
    let none: Vec<AlternativeMedia> = Vec::new();
    for option in [MediaSelect::Default, MediaSelect::First, MediaSelect::All] {
        assert!(option.filter_media(&none).is_empty());
        assert_eq!(option.media_range(&none), (0, 0));
    }
}

#[test]
fn the_selectors_by_name() {
    let all = ladder();
    assert_eq!(uris(VariantSelectOptions::first_variant(&all)), vec!["mid"]);
    assert_eq!(uris(VariantSelectOptions::lowest_variant(&all)), vec!["low"]);
    assert_eq!(uris(VariantSelectOptions::highest_variant(&all)), vec!["high"]);
    assert_eq!(uris(VariantSelectOptions::variant_with_max_bandwidth(&all, 1_999_999)), vec!["mid"]);
    assert_eq!(uris(VariantSelectOptions::variant_with_max_bandwidth(&all, 1)), vec!["low"]);
    let none: Vec<VariantStream> = Vec::new();
    assert!(VariantSelectOptions::first_variant(&none).is_empty());
    assert!(VariantSelectOptions::lowest_variant(&none).is_empty());
    assert!(VariantSelectOptions::highest_variant(&none).is_empty());
    assert!(VariantSelectOptions::variant_with_max_bandwidth(&none, 5).is_empty());
}

#[test]
fn the_rendition_selectors_by_name() {
    let all = vec![media("a", false), media("b", true), media("c", true)];
    assert_eq!(groups(MediaSelect::default_media(&all)), vec!["b"]);
    assert_eq!(groups(MediaSelect::first_media(&all)), vec!["a"]);
    let plain = vec![media("a", false)];
    assert!(MediaSelect::default_media(&plain).is_empty());
    assert!(MediaSelect::first_media(&[]).is_empty());
}
