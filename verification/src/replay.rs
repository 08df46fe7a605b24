//! Replay: which snapshot answers a request, and how a recorded playlist
//! is served.

use crate::playlist::{
    AlternativeMedia, AlternativeMediaModel, MasterPlaylist, MasterPlaylistModel, MediaPlaylist,
    MediaPlaylistModel, VariantStream, VariantStreamModel,
};
use crate::recording::{
    first_snapshot, latest_before, lemma_latest_before, strictly_increasing, timeline_of,
    well_formed, earliest_among, ManifestModel, Recording,
};
use crate::rewrite::{strip_media_playlist, strip_playlist_spec};
use crate::text::{
    concat_str, ends_with, push_signed_decimal, push_str, signed_decimal, str_chars, str_ends_with,
    chars_to_string,
};
use crate::timestamps::{is_representable, representable};
use vstd::prelude::*;

verus! {

/// The media type under which playlists are served.
pub const PLAYLIST_CONTENT_TYPE: &'static str = "application/vnd.apple.mpegurl";

/// Why a replay stopped.
#[derive(Debug, Clone, PartialEq, Eq)]
pub enum ReplayError {
    /// The recording has no manifest.
    MissingRecording,
    /// The manifest cannot be read.
    InvalidRecording(String),
    /// The manifest lists no snapshot.
    MissingStartTime,
    /// The replay was cancelled.
    Cancelled,
}

impl ReplayError {
    /// The message of the error.
    pub fn to_string(&self) -> (r: String)
        ensures
            self is MissingRecording ==> r@ == "Missing recording file"@,
            self is InvalidRecording ==> r@ == "Invalid recording: "@ + self->InvalidRecording_0@,
            self is MissingStartTime ==> r@ == "Missing start time in recording"@,
            self is Cancelled ==> r@ == "Cancelled"@,
    {
        match self {
            ReplayError::MissingRecording => "Missing recording file".to_owned(),
            ReplayError::InvalidRecording(message) => concat_str(
                "Invalid recording: ",
                message.as_str(),
            ),
            ReplayError::MissingStartTime => "Missing start time in recording".to_owned(),
            ReplayError::Cancelled => "Cancelled".to_owned(),
        }
    }
}

/// Why a playlist request is not answered with a playlist.
#[derive(Debug, Copy, Clone, PartialEq, Eq, Structural)]
pub enum ServerError {
    /// The manifest has no snapshot for the playlist.
    PlaylistNotFound,
    /// The snapshot cannot be read.
    PlaylistFileError,
}

impl ServerError {
    /// The message of the error.
    pub fn to_string(&self) -> (r: String)
        ensures
            self is PlaylistNotFound ==> r@ == "No playlist found"@,
            self is PlaylistFileError ==> r@ == "Failed to load playlist"@,
    {
        match self {
            ServerError::PlaylistNotFound => "No playlist found".to_owned(),
            ServerError::PlaylistFileError => "Failed to load playlist".to_owned(),
        }
    }
}

/// Why a request is turned down.
#[derive(Debug, Copy, Clone, PartialEq, Eq, Structural)]
pub enum Rejection {
    /// No route serves the request.
    NotFound,
    /// A playlist request failed.
    Server(ServerError),
    /// Anything else.
    Other,
}

/// The status and the body that answer a request that was turned down: 404
/// where no route serves it, and else 500.
pub fn handle_rejection(err: Rejection) -> (r: (u16, String))
    ensures
        r.0 == (if err is NotFound {
            404u16
        } else {
            500u16
        }),
        err is NotFound ==> r.1@ == "Not found"@,
        err == Rejection::Server(ServerError::PlaylistNotFound) ==> r.1@ == "No playlist found"@,
        err == Rejection::Server(ServerError::PlaylistFileError) ==> r.1@
            == "Failed to load playlist"@,
        err is Other ==> r.1@ == "Internal server error"@,
{
    match err {
        Rejection::NotFound => (404, "Not found".to_owned()),
        Rejection::Server(e) => (500, e.to_string()),
        Rejection::Other => (500, "Internal server error".to_owned()),
    }
}

/// The time at which the recording started: its earliest capture time.
pub fn recording_start(recording: &Recording) -> (r: Result<i64, ReplayError>)
    ensures
        match earliest_among(recording@, recording@.len() as int) {
            Some(time) => r == Ok::<i64, ReplayError>(time),
            None => r == Err::<i64, ReplayError>(ReplayError::MissingStartTime),
        },
{
    match recording.earliest_time() {
        Some(time) => Ok(time),
        None => Err(ReplayError::MissingStartTime),
    }
}

/// The time of the recording that a client sees at `now` when its session
/// started at `client_start`: as long after the start of the recording as
/// `now` is after the start of the session.
pub open spec fn recording_time(recording_start: i64, client_start: i64, now: i64) -> int {
    recording_start + (now - client_start)
}

/// The snapshot of `name` that is served at the recording time `time`: the
/// last one captured before it, or else the first one of that name. `None`
/// where the manifest has no snapshot of that name.
pub open spec fn snapshot_at(manifest: ManifestModel, name: Seq<char>, time: int) -> Option<
    Seq<char>,
> {
    match timeline_of(manifest, name) {
        None => None,
        Some(timeline) => match latest_before(timeline, time) {
            Some(found) => Some(found.1),
            None => match first_snapshot(timeline) {
                Some(first) => Some(first.1),
                None => None,
            },
        },
    }
}

/// The path, relative to the recording, of the snapshot of `playlist_name`
/// that is served at `now` to a session that started at `client_start`, by
/// [`snapshot_at`]. `None` also where the calendar cannot hold
/// `client_start`. All times are in milliseconds since the epoch.
pub fn playlist_path_at_time(
    playlist_name: &str,
    recording: &Recording,
    recording_start: i64,
    client_start: i64,
    now: i64,
) -> (r: Option<String>)
    ensures
        r.deep_view() == if representable(client_start) {
            snapshot_at(
                recording@,
                playlist_name@,
                recording_time(recording_start, client_start, now),
            )
        } else {
            None
        },
{
    // At T = client_start + X, serve the playlist at recording_start + X
    if !is_representable(client_start) {
        return None;
    }
    let offset: i128 = now as i128 - client_start as i128;
    let recording_time: i128 = recording_start as i128 + offset;
    match recording.find_latest_before_instant(playlist_name, recording_time) {
        Some((_, relative_path)) => Some(relative_path.to_owned()),
        None => match recording.earliest_time_for(playlist_name) {
            Some((_, relative_path)) => Some(relative_path.to_owned()),
            None => None,
        },
    }
}

/// In a well-formed manifest, the snapshot served at a recording time is
/// that of the requested name with the greatest capture time before it;
/// where none was captured before it, the earliest of that name; and none
/// exactly where the manifest has no snapshot of that name.
pub proof fn lemma_replay_resolution(manifest: ManifestModel, name: Seq<char>, time: int)
    requires
        well_formed(manifest),
    ensures
        match timeline_of(manifest, name) {
            None => snapshot_at(manifest, name, time) is None,
            Some(timeline) => {
                &&& manifest.contains((name, timeline))
                &&& timeline.len() == 0 ==> snapshot_at(manifest, name, time) is None
                &&& timeline.len() > 0 ==> exists|k: int|
                    {
                        &&& 0 <= k < timeline.len()
                        &&& snapshot_at(manifest, name, time) == Some((#[trigger] timeline[k]).1)
                        &&& timeline[k].0 < time ==> forall|j: int|
                            0 <= j < timeline.len() && (#[trigger] timeline[j]).0 < time
                                ==> timeline[j].0 <= timeline[k].0
                        &&& timeline[k].0 >= time ==> k == 0 && forall|j: int|
                            0 <= j < timeline.len() ==> (#[trigger] timeline[j]).0 >= time
                    }
            },
        },
{
    crate::recording::lemma_name_position(manifest, name);
    match timeline_of(manifest, name) {
        None => {},
        Some(timeline) => {
            let at = crate::recording::name_position(manifest, name);
            assert(manifest[at] == (name, timeline));
            assert(strictly_increasing(manifest[at].1));
            lemma_latest_before(timeline, time);
            crate::recording::lemma_position(timeline, time);
            if timeline.len() > 0 {
                let p = crate::recording::position(timeline, time);
                if p > 0 {
                    assert(snapshot_at(manifest, name, time) == Some(timeline[p - 1].1));
                } else {
                    assert(snapshot_at(manifest, name, time) == Some(timeline[0].1));
                    assert forall|j: int| 0 <= j < timeline.len() implies (
                    #[trigger] timeline[j]).0 >= time by {
                        if j > 0 {
                            assert(timeline[0].0 < timeline[j].0);
                        }
                    }
                }
            }
        },
    }
}

/// What answers a request.
#[derive(Debug, Clone, PartialEq, Eq)]
pub enum Route {
    /// The snapshot of the playlist `name` for the session that started at
    /// `start`.
    Playlist { name: String, start: i64 },
    /// A temporary redirect to the given path and query.
    Redirect(String),
    /// The file of the recording that the path names.
    Static,
}

/// Model of [`Route`].
pub ghost enum RouteModel {
    Playlist { name: Seq<char>, start: i64 },
    Redirect(Seq<char>),
    Static,
}

impl DeepView for Route {
    type V = RouteModel;

    open spec fn deep_view(&self) -> RouteModel {
        match self {
            Route::Playlist { name, start } => RouteModel::Playlist { name: name@, start: *start },
            Route::Redirect(target) => RouteModel::Redirect(target@),
            Route::Static => RouteModel::Static,
        }
    }
}

/// The path without the `/` at its start.
pub open spec fn path_tail(full_path: Seq<char>) -> Seq<char> {
    if full_path.len() > 0 && full_path[0] == '/' {
        full_path.skip(1)
    } else {
        full_path
    }
}

/// The query that carries the start of a session.
pub open spec fn start_query(start: i64) -> Seq<char> {
    "?start="@ + signed_decimal(start as int)
}

/// What answers a request for `full_path`: a path that ends in `.m3u8` is
/// a playlist request, answered with a snapshot where it carries the start
/// of its session, and else with a redirect to the same path with `now` as
/// the start; any other path names a file of the recording.
pub open spec fn route_of(full_path: Seq<char>, start: Option<i64>, now: i64) -> RouteModel {
    if ends_with(full_path, ".m3u8"@) {
        match start {
            Some(start) => RouteModel::Playlist { name: path_tail(full_path), start },
            None => RouteModel::Redirect(full_path + start_query(now)),
        }
    } else {
        RouteModel::Static
    }
}

/// Whether the path ends in `ext`.
pub fn path_extension(path: &str, ext: &str) -> (r: bool)
    ensures
        r == ends_with(path@, ext@),
{
    str_ends_with(path, ext)
}

/// Whether the request carries no start of a session.
pub fn no_playlist_params(start: Option<i64>) -> (r: bool)
    ensures
        r == (start is None),
{
    start.is_none()
}

fn with_start_query(path: &str, start: i64) -> (r: String)
    ensures
        r@ == path@ + start_query(start),
{
    let mut out = path.to_owned();
    push_str(&mut out, "?start=");
    push_signed_decimal(&mut out, start);
    assert(out@ =~= path@ + start_query(start));
    out
}

/// What answers a request for `full_path` that arrives at `now`, by
/// [`route_of`].
pub fn route_request(full_path: &str, start: Option<i64>, now: i64) -> (r: Route)
    ensures
        r.deep_view() == route_of(full_path@, start, now),
{
    if !path_extension(full_path, ".m3u8") {
        return Route::Static;
    }
    if no_playlist_params(start) {
        return Route::Redirect(with_start_query(full_path, now));
    }
    let chars = str_chars(full_path);
    let name = if chars.len() > 0 && chars[0] == '/' {
        let name = chars_to_string(&chars, 1, chars.len());
        assert(chars@.subrange(1, chars@.len() as int) =~= chars@.skip(1));
        name
    } else {
        full_path.to_owned()
    };
    match start {
        Some(start) => Route::Playlist { name, start },
        None => Route::Static,
    }
}

/// A recorded playlist of either kind.
#[derive(Debug, Clone, PartialEq, Eq)]
pub enum Playlist {
    MasterPlaylist(MasterPlaylist),
    MediaPlaylist(MediaPlaylist),
}

/// Model of [`Playlist`].
pub ghost enum PlaylistModel {
    MasterPlaylist(MasterPlaylistModel),
    MediaPlaylist(MediaPlaylistModel),
}

impl DeepView for Playlist {
    type V = PlaylistModel;

    open spec fn deep_view(&self) -> PlaylistModel {
        match self {
            Playlist::MasterPlaylist(p) => PlaylistModel::MasterPlaylist(p.deep_view()),
            Playlist::MediaPlaylist(p) => PlaylistModel::MediaPlaylist(p.deep_view()),
        }
    }
}

/// A recorded master playlist as a session that started at `start` gets
/// it: every URI of a variant or a rendition carries the start.
pub open spec fn served_master(master: MasterPlaylistModel, start: i64) -> MasterPlaylistModel {
    MasterPlaylistModel {
        variants: Seq::new(
            master.variants.len(),
            |i: int|
                VariantStreamModel {
                    uri: master.variants[i].uri + start_query(start),
                    ..master.variants[i]
                },
        ),
        alternatives: Seq::new(
            master.alternatives.len(),
            |i: int|
                AlternativeMediaModel {
                    uri: match master.alternatives[i].uri {
                        Some(uri) => Some(uri + start_query(start)),
                        None => None,
                    },
                    ..master.alternatives[i]
                },
        ),
    }
}

/// A recorded playlist as a session that started at `start` gets it: a
/// master playlist hands the start on to the playlists it names, and a
/// media playlist loses the recorder's bookkeeping.
pub open spec fn served_playlist(playlist: PlaylistModel, start: i64) -> PlaylistModel {
    match playlist {
        PlaylistModel::MasterPlaylist(master) => PlaylistModel::MasterPlaylist(
            served_master(master, start),
        ),
        PlaylistModel::MediaPlaylist(media) => PlaylistModel::MediaPlaylist(
            strip_playlist_spec(media),
        ),
    }
}

fn serve_master(master: &mut MasterPlaylist, start: i64)
    ensures
        final(master).deep_view() == served_master(old(master).deep_view(), start),
{
    let ghost before = master.deep_view();
    let ghost target = served_master(before, start);
    // Rewrite the variant and media URLs
    let mut variants: Vec<VariantStream> = Vec::new();
    std::mem::swap(&mut master.variants, &mut variants);
    assert(master.variants.deep_view() =~= target.variants.take(0));
    for variant in it: variants
        invariant
            it.seq() == variants@,
            variants.deep_view() == before.variants,
            target == served_master(before, start),
            master.variants.deep_view() == target.variants.take(it.index() as int),
            master.alternatives.deep_view() == before.alternatives,
    {
        let ghost done = master.variants.deep_view();
        assert(variant.deep_view() == before.variants[it.index() as int]);
        let mut variant = variant;
        variant.uri = with_start_query(variant.uri.as_str(), start);
        master.variants.push(variant);
        assert(master.variants.deep_view() =~= done.push(variant.deep_view()));
        assert(done.push(variant.deep_view()) =~= target.variants.take(it.index() + 1));
    }
    assert(target.variants.take(variants@.len() as int) =~= target.variants);
    let mut alternatives: Vec<AlternativeMedia> = Vec::new();
    std::mem::swap(&mut master.alternatives, &mut alternatives);
    assert(master.alternatives.deep_view() =~= target.alternatives.take(0));
    for media in it: alternatives
        invariant
            it.seq() == alternatives@,
            alternatives.deep_view() == before.alternatives,
            target == served_master(before, start),
            master.alternatives.deep_view() == target.alternatives.take(it.index() as int),
            master.variants.deep_view() == target.variants,
    {
        let ghost done = master.alternatives.deep_view();
        assert(media.deep_view() == before.alternatives[it.index() as int]);
        let mut media = media;
        let uri = media.uri.take();
        media.uri = match uri {
            Some(uri) => Some(with_start_query(uri.as_str(), start)),
            None => None,
        };
        master.alternatives.push(media);
        assert(master.alternatives.deep_view() =~= done.push(media.deep_view()));
        assert(done.push(media.deep_view()) =~= target.alternatives.take(it.index() + 1));
    }
    assert(target.alternatives.take(alternatives@.len() as int) =~= target.alternatives);
}

/// Makes of a recorded playlist what a session that started at `start`
/// gets, by [`served_playlist`].
pub fn serve_playlist(playlist: &mut Playlist, start: i64)
    ensures
        final(playlist).deep_view() == served_playlist(old(playlist).deep_view(), start),
{
    match playlist {
        Playlist::MasterPlaylist(master) => {
            serve_master(master, start);
        },
        Playlist::MediaPlaylist(media) => {
            // Strip tags with original playlist information
            strip_media_playlist(media);
        },
    }
}

} // verus!
