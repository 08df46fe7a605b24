use streamrr::playlist::{MasterPlaylist, MediaPlaylist, MediaSegment, VariantStream};
use streamrr::record::RecordOptions;
use streamrr::record_master::record_master_playlist;
use streamrr::record_media::{MediaRecorder, NextStep};
use streamrr::recording::Recording;
use streamrr::replay::{playlist_path_at_time, recording_start, serve_playlist, Playlist};
use streamrr::select::{MediaSelect, VariantSelect, VariantSelectOptions};

fn variant(uri: &str, bandwidth: u64) -> VariantStream {
    VariantStream {
        uri: uri.to_string(),
        bandwidth,
        audio: None,
        video: None,
        subtitles: None,
        closed_captions: None,
        other_attributes: Vec::new(),
    }
}

fn vod(count: usize) -> MediaPlaylist {
    MediaPlaylist {
        media_sequence: 0,
        segments: (0..count)
            .map(|i| MediaSegment {
                uri: format!("part{i}.ts"),
                duration: 6000,
                byte_range: None,
                key: None,
                map: None,
                unknown_tags: Vec::new(),
            })
            .collect(),
        end_list: true,
        target_duration: 6,
        unknown_tags: Vec::new(),
    }
}

#[test]
fn a_vod_stream_is_recorded_and_replayed() {
    let options = RecordOptions {
        variant_select: VariantSelectOptions::Named(VariantSelect::Lowest),
        audio: MediaSelect::Default,
        video: MediaSelect::Default,
        subtitle: MediaSelect::Default,
        start: None,
        end: None,
    };
    let master = MasterPlaylist {
        variants: vec![variant("500k/index.m3u8", 500_000), variant("2m/index.m3u8", 2_000_000)],
        alternatives: Vec::new(),
    };
    let plan =
        record_master_playlist("https://example.com/vod/master.m3u8", options, &master).unwrap();
    let mut recording = Recording::new();
    recording.add(1_000, "index.m3u8", "index.m3u8".to_string());

    let mut stored = Vec::new();
    for child in &plan.children {
        let mut recorder = MediaRecorder::new(&child.url, &child.dir, &options);
        let snapshot = recorder.record_media_playlist(vod(3), 1_250).unwrap();
        assert_eq!(snapshot.next, NextStep::Finished);
        recording.add(1_250, &snapshot.name_in_recording, snapshot.file_path.clone());
        stored.push(snapshot.file_path.clone());
        for download in &snapshot.downloads {
            stored.push(format!("{}{}", child.dir, download.file_name));
        }
    }
    assert_eq!(
        stored,
        vec![
            "variant0/index.m3u8",
            "variant0/segment-0.ts",
            "variant0/segment-1.ts",
            "variant0/segment-2.ts",
        ]
    );
    let names: Vec<String> =
        recording.to_serialized().playlists.into_iter().map(|(name, _)| name).collect();
    assert_eq!(names, vec!["index.m3u8", "variant0/index.m3u8"]);

    let start = recording_start(&recording).unwrap();
    assert_eq!(start, 1_000);
    let session = 5_000_000;
    assert_eq!(
        playlist_path_at_time("index.m3u8", &recording, start, session, session + 10),
        Some("index.m3u8".to_string())
    );
    assert_eq!(
        playlist_path_at_time("variant0/index.m3u8", &recording, start, session, session + 10),
        Some("variant0/index.m3u8".to_string())
    );
    let mut served = Playlist::MasterPlaylist(plan.playlist.clone());
    serve_playlist(&mut served, session);
    match served {
        Playlist::MasterPlaylist(master) => {
            assert_eq!(master.variants.len(), 1);
            assert_eq!(master.variants[0].uri, "variant0/index.m3u8?start=5000000");
        }
        Playlist::MediaPlaylist(_) => panic!("a master playlist stays a master playlist"),
    }
}
