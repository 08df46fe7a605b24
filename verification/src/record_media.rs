//! Recording of a media playlist, refresh by refresh: what is stored and
//! fetched for each playlist that arrives, and whether another is awaited.

use crate::playlist::{MediaPlaylist, MediaPlaylistModel};
use crate::record::{
    download_segments, find_segment_index_by_offset, index_at_offset, playlist_downloads, Download,
    DownloadModel, RecordError, RecordOptions,
};
use crate::record_master::INDEX_NAME;
use crate::rewrite::{
    clip_end_spec, clip_start_spec, remove_segments_from_end, remove_segments_from_start,
    removed_from_start, rewrite_media_playlist, rewrite_playlist_spec,
};
use crate::text::{concat_str, push_str};
use crate::timestamps::{compact_utc_text, format_timestamp, representable};
use vstd::prelude::*;

verus! {

/// What follows the recording of one playlist.
#[derive(Debug, Copy, Clone, PartialEq, Eq, Structural)]
pub enum NextStep {
    /// The playlist has ended: nothing more is fetched.
    Finished,
    /// The playlist is fetched again, this many seconds after it was last
    /// fetched.
    RefreshAfter(u64),
}

/// Where the recording of one media playlist stands between two refreshes.
#[derive(Debug, Clone, PartialEq, Eq)]
pub struct MediaRecorder {
    /// The URL that the playlist is fetched from.
    pub url: String,
    /// The directory of the recording that takes the playlist: empty, or
    /// with a `/` at its end.
    pub dir: String,
    /// Whether no playlist has been recorded yet.
    pub first: bool,
    /// The extension of the last segment URL that had one.
    pub last_segment_ext: Option<String>,
    /// The sequence number of the first segment that is recorded.
    pub lowest_media_sequence: u64,
    /// The sequence number of the last segment that is recorded, once it is
    /// known.
    pub highest_media_sequence: Option<u64>,
    /// Where recording starts, until the first playlist has arrived.
    pub start: Option<i64>,
    /// Where recording ends, until the first playlist has arrived.
    pub end: Option<i64>,
}

/// Model of [`MediaRecorder`].
pub ghost struct MediaRecorderModel {
    pub url: Seq<char>,
    pub dir: Seq<char>,
    pub first: bool,
    pub last_segment_ext: Option<Seq<char>>,
    pub lowest_media_sequence: u64,
    pub highest_media_sequence: Option<u64>,
    pub start: Option<i64>,
    pub end: Option<i64>,
}

impl DeepView for MediaRecorder {
    type V = MediaRecorderModel;

    open spec fn deep_view(&self) -> MediaRecorderModel {
        MediaRecorderModel {
            url: self.url@,
            dir: self.dir@,
            first: self.first,
            last_segment_ext: self.last_segment_ext.deep_view(),
            lowest_media_sequence: self.lowest_media_sequence,
            highest_media_sequence: self.highest_media_sequence,
            start: self.start,
            end: self.end,
        }
    }
}

/// What is stored and fetched for one playlist that arrived.
#[derive(Debug, Clone, PartialEq, Eq)]
pub struct Snapshot {
    /// The playlist as it is stored.
    pub playlist: MediaPlaylist,
    /// How many segments of the playlist that arrived stand before the
    /// first one that is stored.
    pub skipped: usize,
    /// The name of the file that takes it.
    pub file_name: String,
    /// The path of that file in the recording.
    pub file_path: String,
    /// The name under which the manifest lists the snapshot.
    pub name_in_recording: String,
    /// The files to fetch before the next refresh.
    pub downloads: Vec<Download>,
    /// What follows.
    pub next: NextStep,
}

/// Model of [`Snapshot`].
pub ghost struct SnapshotModel {
    pub playlist: MediaPlaylistModel,
    pub skipped: int,
    pub file_name: Seq<char>,
    pub file_path: Seq<char>,
    pub name_in_recording: Seq<char>,
    pub downloads: Seq<DownloadModel>,
    pub next: NextStep,
}

impl DeepView for Snapshot {
    type V = SnapshotModel;

    open spec fn deep_view(&self) -> SnapshotModel {
        SnapshotModel {
            playlist: self.playlist.deep_view(),
            skipped: self.skipped as int,
            file_name: self.file_name@,
            file_path: self.file_path@,
            name_in_recording: self.name_in_recording@,
            downloads: self.downloads.deep_view(),
            next: self.next,
        }
    }
}

/// The name of the file that takes a playlist captured at `time`:
/// `index.m3u8` for a playlist that has ended when it first arrives, and
/// else a name with the capture time in it. `None` where the calendar
/// cannot hold the time.
pub open spec fn snapshot_file_name(first: bool, end_list: bool, time: i64) -> Option<Seq<char>> {
    if first && end_list {
        Some(INDEX_NAME@)
    } else if representable(time) {
        Some("index-"@ + compact_utc_text(time) + ".m3u8"@)
    } else {
        None
    }
}

/// The sequence number of the segment of `playlist` that plays at
/// `offset`, where an offset is given and a segment plays there; else
/// `known`. The outer `None` says that the number does not fit in 64 bits.
pub open spec fn sequence_bound(playlist: MediaPlaylistModel, offset: Option<i64>, known: Option<u64>)
    -> Option<Option<u64>> {
    match offset {
        None => Some(known),
        Some(offset) => match index_at_offset(playlist.segments, offset as int) {
            None => Some(known),
            Some(i) => if playlist.media_sequence + i <= u64::MAX {
                Some(Some((playlist.media_sequence + i) as u64))
            } else {
                None
            },
        },
    }
}

/// What recording the playlist that arrived at `time` comes to, and where
/// the recording stands afterwards. The offsets at which recording starts
/// and ends are turned into sequence numbers by the first playlist and are
/// then spent; the playlist is clipped to those numbers and rewritten; its
/// segments, keys and maps are fetched; and another playlist is awaited
/// unless this one has ended. `None` where the playlist cannot be recorded.
pub open spec fn media_step(state: MediaRecorderModel, playlist: MediaPlaylistModel, time: i64)
    -> Option<(MediaRecorderModel, SnapshotModel)> {
    match (
        snapshot_file_name(state.first, playlist.end_list, time),
        sequence_bound(playlist, state.start, Some(state.lowest_media_sequence)),
        sequence_bound(playlist, state.end, state.highest_media_sequence),
    ) {
        (Some(file_name), Some(Some(lowest)), Some(highest)) => {
            let from_start = clip_start_spec(playlist, lowest);
            let clipped = match highest {
                Some(highest) => clip_end_spec(from_start, highest),
                None => from_start,
            };
            match rewrite_playlist_spec(clipped, state.url, state.last_segment_ext) {
                None => None,
                Some((rewritten, last_ext)) => match playlist_downloads(
                    rewritten.segments,
                    rewritten.segments.len() as int,
                ) {
                    None => None,
                    Some(downloads) => Some(
                        (
                            MediaRecorderModel {
                                first: false,
                                last_segment_ext: last_ext,
                                lowest_media_sequence: lowest,
                                highest_media_sequence: highest,
                                start: None,
                                end: None,
                                ..state
                            },
                            SnapshotModel {
                                playlist: rewritten,
                                skipped: removed_from_start(playlist, lowest),
                                file_name,
                                file_path: state.dir + file_name,
                                name_in_recording: state.dir + INDEX_NAME@,
                                downloads,
                                next: if rewritten.end_list {
                                    NextStep::Finished
                                } else {
                                    NextStep::RefreshAfter(rewritten.target_duration)
                                },
                            },
                        ),
                    ),
                },
            }
        },
        _ => None,
    }
}

fn bound_from_offset(media_playlist: &MediaPlaylist, offset: Option<i64>, known: Option<u64>) -> (r:
    Result<Option<u64>, RecordError>)
    ensures
        match sequence_bound(media_playlist.deep_view(), offset, known) {
            Some(bound) => r == Ok::<Option<u64>, RecordError>(bound),
            None => r is Err && r->Err_0 is Parse,
        },
{
    match offset {
        None => Ok(known),
        Some(offset) => match find_segment_index_by_offset(
            media_playlist.segments.as_slice(),
            offset,
        ) {
            None => Ok(known),
            Some(index) => match media_playlist.media_sequence.checked_add(index as u64) {
                Some(bound) => Ok(Some(bound)),
                None => Err(
                    RecordError::Parse("media sequence number beyond 64 bits".to_owned()),
                ),
            },
        },
    }
}

impl MediaRecorder {
    /// The state before the first playlist of `url` arrives: everything is
    /// recorded but what the options leave out.
    pub fn new(url: &str, dir: &str, options: &RecordOptions) -> (r: Self)
        ensures
            r.deep_view() == (MediaRecorderModel {
                url: url@,
                dir: dir@,
                first: true,
                last_segment_ext: None,
                lowest_media_sequence: 0,
                highest_media_sequence: None,
                start: options.start,
                end: options.end,
            }),
    {
        MediaRecorder {
            url: url.to_owned(),
            dir: dir.to_owned(),
            first: true,
            last_segment_ext: None,
            lowest_media_sequence: 0,
            highest_media_sequence: None,
            start: options.start,
            end: options.end,
        }
    }

    /// Records the playlist that arrived at `playlist_time`, in
    /// milliseconds since the epoch, by [`media_step`]. Fails with a parse
    /// error, and only then, where the playlist cannot be recorded.
    pub fn record_media_playlist(&mut self, media_playlist: MediaPlaylist, playlist_time: i64) -> (r:
        Result<Snapshot, RecordError>)
        ensures
            match media_step(old(self).deep_view(), media_playlist.deep_view(), playlist_time) {
                Some((state, snapshot)) => r is Ok && r->Ok_0.deep_view() == snapshot
                    && final(self).deep_view() == state,
                None => r is Err && r->Err_0 is Parse,
            },
    {
        let ghost before = self.deep_view();
        let mut media_playlist = media_playlist;
        let file_name = if self.first && media_playlist.end_list {
            // Playlist is a VOD. No need for a timestamp, since we won't ever refresh it.
            INDEX_NAME.to_owned()
        } else {
            // Playlist is live, or was live and has now ended
            match format_timestamp(playlist_time) {
                Some(time) => {
                    let mut name = "index-".to_owned();
                    push_str(&mut name, time.as_str());
                    push_str(&mut name, ".m3u8");
                    name
                },
                None => {
                    return Err(RecordError::Parse("capture time out of range".to_owned()));
                },
            }
        };
        assert(snapshot_file_name(before.first, media_playlist.end_list, playlist_time) == Some(
            file_name@,
        ));
        let file_path = concat_str(self.dir.as_str(), file_name.as_str());
        // Clip to start and end time (if given)
        let lowest = match bound_from_offset(
            &media_playlist,
            self.start,
            Some(self.lowest_media_sequence),
        ) {
            Ok(Some(lowest)) => lowest,
            Ok(None) => self.lowest_media_sequence,
            Err(e) => {
                return Err(e);
            },
        };
        let highest = match bound_from_offset(
            &media_playlist,
            self.end,
            self.highest_media_sequence,
        ) {
            Ok(highest) => highest,
            Err(e) => {
                return Err(e);
            },
        };
        let arrived: usize = media_playlist.segments.len();
        remove_segments_from_start(&mut media_playlist, lowest);
        let skipped: usize = arrived - media_playlist.segments.len();
        match highest {
            Some(highest) => {
                remove_segments_from_end(&mut media_playlist, highest);
            },
            None => {},
        }
        let mut last_segment_ext = self.last_segment_ext.take();
        match rewrite_media_playlist(self.url.as_str(), &mut media_playlist, &mut last_segment_ext) {
            Ok(()) => {},
            Err(e) => {
                return Err(e);
            },
        }
        let downloads = match download_segments(media_playlist.segments.as_slice()) {
            Ok(downloads) => downloads,
            Err(e) => {
                return Err(e);
            },
        };
        self.first = false;
        self.last_segment_ext = last_segment_ext;
        self.lowest_media_sequence = lowest;
        self.highest_media_sequence = highest;
        self.start = None;
        self.end = None;
        // Refresh playlist
        let next = if media_playlist.end_list {
            NextStep::Finished
        } else {
            NextStep::RefreshAfter(media_playlist.target_duration)
        };
        Ok(
            Snapshot {
                name_in_recording: concat_str(self.dir.as_str(), INDEX_NAME),
                playlist: media_playlist,
                skipped,
                file_name,
                file_path,
                downloads,
                next,
            },
        )
    }
}

} // verus!
