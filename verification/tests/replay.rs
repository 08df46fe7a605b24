use streamrr::playlist::{
    AlternativeMedia, AlternativeMediaType, ExtTag, MasterPlaylist, MediaPlaylist, MediaSegment,
    VariantStream,
};
use streamrr::recording::Recording;
use streamrr::replay::{
    handle_rejection, no_playlist_params, path_extension, playlist_path_at_time, recording_start,
    route_request, serve_playlist, Playlist, Rejection, ReplayError, Route, ServerError,
    PLAYLIST_CONTENT_TYPE,
};

fn sample() -> Recording {
    let mut recording = Recording::new();
    recording.add(1_000, "index.m3u8", "index.m3u8".to_string());
    recording.add(1_500, "variant0/index.m3u8", "variant0/index-a.m3u8".to_string());
    recording.add(7_500, "variant0/index.m3u8", "variant0/index-b.m3u8".to_string());
    recording.add(13_500, "variant0/index.m3u8", "variant0/index-c.m3u8".to_string());
    recording
}

fn at(recording: &Recording, elapsed: i64) -> Option<String> {
    let client_start = 1_700_000_000_000;
    playlist_path_at_time("variant0/index.m3u8", recording, 1_000, client_start, client_start + elapsed)
}

#[test]
fn the_recording_starts_at_its_earliest_snapshot() {
    assert_eq!(recording_start(&sample()), Ok(1_000));
    assert_eq!(recording_start(&Recording::new()), Err(ReplayError::MissingStartTime));
}

#[test]
fn replay_resolution() {
    let recording = sample();
    assert_eq!(at(&recording, 501), Some("variant0/index-a.m3u8".to_string()));
    assert_eq!(at(&recording, 6_500), Some("variant0/index-a.m3u8".to_string()));
    assert_eq!(at(&recording, 6_501), Some("variant0/index-b.m3u8".to_string()));
    assert_eq!(at(&recording, 12_500), Some("variant0/index-b.m3u8".to_string()));
    assert_eq!(at(&recording, 12_501), Some("variant0/index-c.m3u8".to_string()));
    assert_eq!(at(&recording, 1_000_000), Some("variant0/index-c.m3u8".to_string()));
}

#[test]
fn before_the_first_snapshot_the_first_is_served() {
    let recording = sample();
    assert_eq!(at(&recording, 0), Some("variant0/index-a.m3u8".to_string()));
    assert_eq!(at(&recording, 500), Some("variant0/index-a.m3u8".to_string()));
    assert_eq!(at(&recording, -5_000), Some("variant0/index-a.m3u8".to_string()));
}

#[test]
fn a_playlist_that_was_not_recorded_is_not_found() {
    let recording = sample();
    assert_eq!(playlist_path_at_time("variant1/index.m3u8", &recording, 1_000, 0, 10_000), None);
    assert_eq!(playlist_path_at_time("index.m3u8", &Recording::new(), 0, 0, 0), None);
}

#[test]
fn a_session_start_that_the_calendar_cannot_hold_is_not_found() {
    let recording = sample();
    assert_eq!(
        playlist_path_at_time("variant0/index.m3u8", &recording, 1_000, i64::MAX, i64::MAX),
        None
    );
    assert_eq!(
        playlist_path_at_time("variant0/index.m3u8", &recording, 1_000, i64::MIN, 0),
        None
    );
}

#[test]
fn times_far_apart_do_not_overflow() {
    let recording = sample();
    assert_eq!(
        playlist_path_at_time("variant0/index.m3u8", &recording, i64::MAX, 0, i64::MAX),
        Some("variant0/index-c.m3u8".to_string())
    );
    assert_eq!(
        playlist_path_at_time("variant0/index.m3u8", &recording, i64::MIN, 0, i64::MIN),
        Some("variant0/index-a.m3u8".to_string())
    );
}

#[test]
fn replay_redirect() {
    assert_eq!(
        route_request("/variant0/index.m3u8", None, 1_700_000_000_000),
        Route::Redirect("/variant0/index.m3u8?start=1700000000000".to_string())
    );
    assert_eq!(
        route_request("/index.m3u8", None, -5),
        Route::Redirect("/index.m3u8?start=-5".to_string())
    );
}

#[test]
fn a_playlist_request_with_start_is_answered_with_a_snapshot() {
    assert_eq!(
        route_request("/variant0/index.m3u8", Some(1_700_000_000_000), 9),
        Route::Playlist { name: "variant0/index.m3u8".to_string(), start: 1_700_000_000_000 }
    );
    assert_eq!(
        route_request("index.m3u8", Some(0), 9),
        Route::Playlist { name: "index.m3u8".to_string(), start: 0 }
    );
    assert_eq!(
        route_request("/.m3u8", Some(0), 9),
        Route::Playlist { name: ".m3u8".to_string(), start: 0 }
    );
}

#[test]
fn other_paths_name_files() {
    assert_eq!(route_request("/variant0/segment-0.ts", None, 9), Route::Static);
    assert_eq!(route_request("/variant0/segment-0.ts", Some(5), 9), Route::Static);
    assert_eq!(route_request("/recording.json", None, 9), Route::Static);
    assert_eq!(route_request("/", Some(5), 9), Route::Static);
    assert_eq!(route_request("/m3u8", None, 9), Route::Static);
}

#[test]
fn the_filters_of_the_routes() {
    assert!(path_extension("variant0/index.m3u8", ".m3u8"));
    assert!(!path_extension("variant0/index.m3u", ".m3u8"));
    assert!(no_playlist_params(None));
    assert!(!no_playlist_params(Some(0)));
}

fn variant(uri: &str) -> VariantStream {
    VariantStream {
        uri: uri.to_string(),
        bandwidth: 1,
        audio: None,
        video: None,
        subtitles: None,
        closed_captions: None,
        other_attributes: Vec::new(),
    }
}

fn rendition(uri: Option<&str>) -> AlternativeMedia {
    AlternativeMedia {
        media_type: AlternativeMediaType::Audio,
        uri: uri.map(|u| u.to_string()),
        group_id: "aud".to_string(),
        default: true,
        other_attributes: Vec::new(),
    }
}

#[test]
fn a_served_master_playlist_hands_the_start_on() {
    let mut playlist = Playlist::MasterPlaylist(MasterPlaylist {
        variants: vec![variant("variant0/index.m3u8"), variant("variant1/index.m3u8")],
        alternatives: vec![rendition(Some("media-aud-0/index.m3u8")), rendition(None)],
    });
    serve_playlist(&mut playlist, 1_700_000_000_000);
    assert_eq!(
        playlist,
        Playlist::MasterPlaylist(MasterPlaylist {
            variants: vec![
                variant("variant0/index.m3u8?start=1700000000000"),
                variant("variant1/index.m3u8?start=1700000000000"),
            ],
            alternatives: vec![
                rendition(Some("media-aud-0/index.m3u8?start=1700000000000")),
                rendition(None),
            ],
        })
    );
}

#[test]
fn a_served_media_playlist_loses_the_bookkeeping() {
    let tag = |name: &str| ExtTag { tag: name.to_string(), rest: Some("x".to_string()) };
    let mut playlist = Playlist::MediaPlaylist(MediaPlaylist {
        media_sequence: 4,
        segments: vec![MediaSegment {
            uri: "segment-4.ts".to_string(),
            duration: 6000,
            byte_range: None,
            key: None,
            map: None,
            unknown_tags: vec![tag("X-ORIGINAL-URI"), tag("X-ORIGINAL-KEY-URI")],
        }],
        end_list: false,
        target_duration: 6,
        unknown_tags: vec![tag("X-ORIGINAL-SERVER-CONTROL"), tag("X-KEEP")],
    });
    serve_playlist(&mut playlist, 5);
    match playlist {
        Playlist::MediaPlaylist(media) => {
            assert_eq!(media.unknown_tags, vec![tag("X-KEEP")]);
            assert_eq!(media.segments[0].unknown_tags, vec![tag("X-ORIGINAL-KEY-URI")]);
            assert_eq!(media.segments[0].uri, "segment-4.ts");
            assert_eq!(media.media_sequence, 4);
        }
        Playlist::MasterPlaylist(_) => panic!("a media playlist stays a media playlist"),
    }
}

#[test]
fn rejections_map_to_statuses() {
    assert_eq!(handle_rejection(Rejection::NotFound), (404, "Not found".to_string()));
    assert_eq!(
        handle_rejection(Rejection::Server(ServerError::PlaylistNotFound)),
        (500, "No playlist found".to_string())
    );
    assert_eq!(
        handle_rejection(Rejection::Server(ServerError::PlaylistFileError)),
        (500, "Failed to load playlist".to_string())
    );
    assert_eq!(handle_rejection(Rejection::Other), (500, "Internal server error".to_string()));
}

#[test]
fn the_messages_of_the_replay_errors() {
    assert_eq!(ReplayError::MissingRecording.to_string(), "Missing recording file");
    assert_eq!(
        ReplayError::InvalidRecording("eof".to_string()).to_string(),
        "Invalid recording: eof"
    );
    assert_eq!(ReplayError::MissingStartTime.to_string(), "Missing start time in recording");
    assert_eq!(ReplayError::Cancelled.to_string(), "Cancelled");
}

#[test]
fn playlists_are_served_as_apple_mpegurl() {
    assert_eq!(PLAYLIST_CONTENT_TYPE, "application/vnd.apple.mpegurl");
}
