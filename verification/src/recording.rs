//! The manifest of a recording: for each playlist name, which snapshot was
//! captured at which time.

use crate::timestamps::{is_representable, representable};
use indexmap::IndexMap;
use vstd::prelude::*;

verus! {

/// `indexmap::IndexMap`, a map that keeps its keys in the order in which
/// they were first inserted. Nothing is known of what is inside one but
/// what the functions below say.
#[verifier::external_type_specification]
#[verifier::external_body]
#[verifier::reject_recursive_types(K)]
#[verifier::reject_recursive_types(V)]
#[verifier::reject_recursive_types(S)]
pub struct ExIndexMap<K, V, S>(IndexMap<K, V, S>);

/// The name of the manifest file in the directory of the recording.
pub const MANIFEST_NAME: &'static str = "recording.json";

/// The snapshots of one playlist: capture time in milliseconds since the
/// epoch, and the path of the snapshot.
pub type TimelineModel = Seq<(i64, Seq<char>)>;

/// A manifest: playlist names in the order in which they were first added,
/// each with its snapshots.
pub type ManifestModel = Seq<(Seq<char>, TimelineModel)>;

/// The key-value pairs that the map holds, in its order.
pub uninterp spec fn index_entries(map: IndexMap<String, Vec<(i64, String)>>) -> ManifestModel;

/// `indexmap::IndexMap::new`: the new map holds nothing.
#[verifier::external_body]
fn index_new() -> (map: IndexMap<String, Vec<(i64, String)>>)
    ensures
        index_entries(map) == Seq::<(Seq<char>, TimelineModel)>::empty(),
{
    IndexMap::new()
}

/// `indexmap::IndexMap::len`: the number of pairs.
#[verifier::external_body]
fn index_len(map: &IndexMap<String, Vec<(i64, String)>>) -> (n: usize)
    ensures
        n == index_entries(*map).len(),
{
    map.len()
}

/// `indexmap::IndexMap::get_index_of`: the position of the pair with the key
/// `name`, and `None` exactly where no pair has that key.
#[verifier::external_body]
fn index_of(map: &IndexMap<String, Vec<(i64, String)>>, name: &str) -> (r: Option<usize>)
    ensures
        match r {
            Some(i) => i < index_entries(*map).len() && index_entries(*map)[i as int].0 == name@,
            None => forall|i: int|
                0 <= i < index_entries(*map).len() ==> (#[trigger] index_entries(*map)[i]).0
                    != name@,
        },
{
    map.get_index_of(name)
}

/// `indexmap::IndexMap::get_index`: the pair at position `i`, and `None`
/// exactly where `i` is no position of the map.
#[verifier::external_body]
fn index_get(map: &IndexMap<String, Vec<(i64, String)>>, i: usize) -> (r: Option<
    (&String, &Vec<(i64, String)>),
>)
    ensures
        match r {
            Some((name, timeline)) => i < index_entries(*map).len() && name@ == index_entries(
                *map,
            )[i as int].0 && timeline.deep_view() == index_entries(*map)[i as int].1,
            None => i >= index_entries(*map).len(),
        },
{
    map.get_index(i)
}

/// `indexmap::IndexMap::insert`: where a pair has the key `name`, it keeps
/// its position and gets the new value, and the old value is returned; where
/// none has, the new pair goes to the end and `None` is returned. All other
/// pairs stay as they are.
#[verifier::external_body]
fn index_insert(
    map: &mut IndexMap<String, Vec<(i64, String)>>,
    name: String,
    timeline: Vec<(i64, String)>,
) -> (r: Option<Vec<(i64, String)>>)
    ensures
        forall|i: int|
            0 <= i < index_entries(*old(map)).len() && (#[trigger] index_entries(*old(map))[i]).0
                == name@ ==> r is Some && r->0.deep_view() == index_entries(*old(map))[i].1
                && index_entries(*final(map)) == index_entries(*old(map)).update(
                i,
                (name@, timeline.deep_view()),
            ),
        (forall|i: int|
            0 <= i < index_entries(*old(map)).len() ==> (#[trigger] index_entries(
                *old(map),
            )[i]).0 != name@) ==> r is None && index_entries(*final(map)) == index_entries(
            *old(map),
        ).push((name@, timeline.deep_view())),
{
    map.insert(name, timeline)
}

/// Whether the snapshots stand in the order of their times, no time twice.
pub open spec fn strictly_increasing(timeline: TimelineModel) -> bool {
    forall|i: int, j: int|
        0 <= i < j < timeline.len() ==> (#[trigger] timeline[i]).0 < (#[trigger] timeline[j]).0
}

/// Whether no playlist name stands twice in the manifest.
pub open spec fn distinct_names(manifest: ManifestModel) -> bool {
    forall|i: int, j: int|
        0 <= i < j < manifest.len() ==> (#[trigger] manifest[i]).0 != (#[trigger] manifest[j]).0
}

/// What holds of every manifest: no name twice, and the snapshots of each
/// name in the order of their times.
pub open spec fn well_formed(manifest: ManifestModel) -> bool {
    &&& distinct_names(manifest)
    &&& forall|i: int| 0 <= i < manifest.len() ==> strictly_increasing((#[trigger] manifest[i]).1)
}

/// The position of the first snapshot captured at `time` or later, or the
/// number of snapshots where all are earlier.
pub open spec fn position(timeline: TimelineModel, time: int) -> int
    decreases timeline.len(),
{
    if timeline.len() == 0 || timeline[0].0 >= time {
        0
    } else {
        1 + position(timeline.skip(1), time)
    }
}

/// The timeline with the snapshot `path` captured at `time`: it replaces a
/// snapshot captured at the same time, and else stands before the first
/// later one.
pub open spec fn timeline_with(timeline: TimelineModel, time: i64, path: Seq<char>)
    -> TimelineModel {
    let k = position(timeline, time as int);
    if k < timeline.len() && timeline[k].0 == time {
        timeline.update(k, (time, path))
    } else {
        timeline.take(k).push((time, path)) + timeline.skip(k)
    }
}

/// The position of `name` in the manifest, or the number of names where it
/// is not among them.
pub open spec fn name_position(manifest: ManifestModel, name: Seq<char>) -> int
    decreases manifest.len(),
{
    if manifest.len() == 0 || manifest[0].0 == name {
        0
    } else {
        1 + name_position(manifest.skip(1), name)
    }
}

/// The snapshots of `name`, if the manifest has that name.
pub open spec fn timeline_of(manifest: ManifestModel, name: Seq<char>) -> Option<TimelineModel> {
    if name_position(manifest, name) < manifest.len() {
        Some(manifest[name_position(manifest, name)].1)
    } else {
        None
    }
}

/// The manifest with the snapshot `path` of `name` captured at `time`: a
/// new name goes to the end.
pub open spec fn manifest_with(
    manifest: ManifestModel,
    time: i64,
    name: Seq<char>,
    path: Seq<char>,
) -> ManifestModel {
    let k = name_position(manifest, name);
    if k < manifest.len() {
        manifest.update(k, (name, timeline_with(manifest[k].1, time, path)))
    } else {
        manifest.push((name, timeline_with(Seq::empty(), time, path)))
    }
}

/// The manifest with `timeline` as the snapshots of `name`, in place of any
/// it had: a new name goes to the end.
pub open spec fn manifest_replacing(
    manifest: ManifestModel,
    name: Seq<char>,
    timeline: TimelineModel,
) -> ManifestModel {
    let k = name_position(manifest, name);
    if k < manifest.len() {
        manifest.update(k, (name, timeline))
    } else {
        manifest.push((name, timeline))
    }
}

/// The last snapshot captured before `time`, if there is one.
pub open spec fn latest_before(timeline: TimelineModel, time: int) -> Option<(i64, Seq<char>)> {
    if position(timeline, time) == 0 {
        None
    } else {
        Some(timeline[position(timeline, time) - 1])
    }
}

/// The first snapshot, if there is one.
pub open spec fn first_snapshot(timeline: TimelineModel) -> Option<(i64, Seq<char>)> {
    if timeline.len() == 0 {
        None
    } else {
        Some(timeline[0])
    }
}

/// The earliest capture time among the first snapshots of the first `n`
/// names, if one of them has a snapshot.
pub open spec fn earliest_among(manifest: ManifestModel, n: int) -> Option<i64>
    decreases n,
{
    if n <= 0 {
        None
    } else {
        let before = earliest_among(manifest, n - 1);
        match first_snapshot(manifest[n - 1].1) {
            None => before,
            Some(first) => match before {
                Some(time) => if time <= first.0 {
                    Some(time)
                } else {
                    Some(first.0)
                },
                None => Some(first.0),
            },
        }
    }
}

/// `position` stays within the timeline; every snapshot before it is
/// earlier than `time`, and the one at it is not.
pub proof fn lemma_position(timeline: TimelineModel, time: int)
    ensures
        0 <= position(timeline, time) <= timeline.len(),
        position(timeline, time) < timeline.len() ==> timeline[position(timeline, time)].0 >= time,
        forall|i: int| 0 <= i < position(timeline, time) ==> (#[trigger] timeline[i]).0 < time,
    decreases timeline.len(),
{
    if timeline.len() > 0 && timeline[0].0 < time {
        lemma_position(timeline.skip(1), time);
        assert forall|i: int| 0 <= i < position(timeline, time) implies (#[trigger] timeline[i]).0
            < time by {
            if i > 0 {
                assert(timeline.skip(1)[i - 1] == timeline[i]);
            }
        }
    }
}

/// Any place that parts the earlier snapshots from the others is
/// `position`.
pub proof fn lemma_position_unique(timeline: TimelineModel, time: int, k: int)
    requires
        0 <= k <= timeline.len(),
        k < timeline.len() ==> timeline[k].0 >= time,
        forall|i: int| 0 <= i < k ==> (#[trigger] timeline[i]).0 < time,
    ensures
        position(timeline, time) == k,
{
    lemma_position(timeline, time);
    let p = position(timeline, time);
    if p < k {
        assert(timeline[p].0 < time);
    } else if p > k {
        assert(timeline[k].0 < time);
    }
}

/// `name_position` stays within the manifest; no name before it is `name`,
/// and the one at it is.
pub proof fn lemma_name_position(manifest: ManifestModel, name: Seq<char>)
    ensures
        0 <= name_position(manifest, name) <= manifest.len(),
        name_position(manifest, name) < manifest.len() ==> manifest[name_position(
            manifest,
            name,
        )].0 == name,
        forall|i: int|
            0 <= i < name_position(manifest, name) ==> (#[trigger] manifest[i]).0 != name,
    decreases manifest.len(),
{
    if manifest.len() > 0 && manifest[0].0 != name {
        lemma_name_position(manifest.skip(1), name);
        assert forall|i: int| 0 <= i < name_position(manifest, name) implies (
        #[trigger] manifest[i]).0 != name by {
            if i > 0 {
                assert(manifest.skip(1)[i - 1] == manifest[i]);
            }
        }
    }
}

/// Any place that holds the first `name` is `name_position`.
pub proof fn lemma_name_position_unique(manifest: ManifestModel, name: Seq<char>, k: int)
    requires
        0 <= k <= manifest.len(),
        k < manifest.len() ==> manifest[k].0 == name,
        forall|i: int| 0 <= i < k ==> (#[trigger] manifest[i]).0 != name,
    ensures
        name_position(manifest, name) == k,
{
    lemma_name_position(manifest, name);
    let p = name_position(manifest, name);
    if p < k {
        assert(manifest[p].0 != name);
    } else if p > k {
        assert(manifest[k].0 != name);
    }
}

/// A snapshot added to an ordered timeline leaves it ordered.
pub proof fn lemma_timeline_with_ordered(timeline: TimelineModel, time: i64, path: Seq<char>)
    requires
        strictly_increasing(timeline),
    ensures
        strictly_increasing(timeline_with(timeline, time, path)),
{
    lemma_position(timeline, time as int);
    let k = position(timeline, time as int);
    let after = timeline_with(timeline, time, path);
    assert forall|i: int, j: int| 0 <= i < j < after.len() implies (#[trigger] after[i]).0 < (
    #[trigger] after[j]).0 by {
        if k < timeline.len() && timeline[k].0 == time {
            assert(after[i].0 == timeline[i].0);
            assert(after[j].0 == timeline[j].0);
        } else {
            if i < k {
                assert(after[i] == timeline[i]);
            }
            if j > k {
                assert(after[j] == timeline[j - 1]);
            }
            if i > k {
                assert(after[i] == timeline[i - 1]);
            }
            if j < k {
                assert(after[j] == timeline[j]);
            }
            if i == k && j > k {
                assert(timeline[k].0 >= time);
                if j - 1 > k {
                    assert(timeline[k].0 < timeline[j - 1].0);
                }
            }
        }
    }
}

/// On an ordered timeline, `latest_before` is the snapshot with the greatest
/// capture time before `time`, and there is none exactly where no snapshot
/// was captured before `time`.
pub proof fn lemma_latest_before(timeline: TimelineModel, time: int)
    requires
        strictly_increasing(timeline),
    ensures
        match latest_before(timeline, time) {
            Some(found) => {
                &&& timeline.contains(found)
                &&& found.0 < time
                &&& forall|i: int|
                    0 <= i < timeline.len() && (#[trigger] timeline[i]).0 < time ==> timeline[i].0
                        <= found.0
            },
            None => forall|i: int| 0 <= i < timeline.len() ==> (#[trigger] timeline[i]).0 >= time,
        },
{
    lemma_position(timeline, time);
    let k = position(timeline, time);
    if k > 0 {
        assert(timeline[k - 1] == latest_before(timeline, time)->0);
        assert forall|i: int| 0 <= i < timeline.len() && (#[trigger] timeline[i]).0 < time implies
            timeline[i].0 <= timeline[k - 1].0 by {
            if i >= k {
                if i > k {
                    assert(timeline[k].0 < timeline[i].0);
                }
            } else if i < k - 1 {
                assert(timeline[i].0 < timeline[k - 1].0);
            }
        }
    } else {
        assert forall|i: int| 0 <= i < timeline.len() implies (#[trigger] timeline[i]).0
            >= time by {
            if i > 0 {
                assert(timeline[0].0 < timeline[i].0);
            }
        }
    }
}

/// `earliest_among` is a capture time of the manifest that no first
/// snapshot precedes, and on a well-formed manifest no snapshot at all;
/// there is none exactly where no name has a snapshot.
pub proof fn lemma_earliest_among(manifest: ManifestModel, n: int)
    requires
        0 <= n <= manifest.len(),
        well_formed(manifest),
    ensures
        match earliest_among(manifest, n) {
            Some(time) => {
                &&& exists|i: int|
                    0 <= i < n && (#[trigger] manifest[i]).1.len() > 0 && manifest[i].1[0].0
                        == time
                &&& forall|i: int, j: int|
                    0 <= i < n && 0 <= j < (#[trigger] manifest[i]).1.len() ==> time <= (
                    #[trigger] manifest[i].1[j]).0
            },
            None => forall|i: int| 0 <= i < n ==> (#[trigger] manifest[i]).1.len() == 0,
        },
    decreases n,
{
    if n > 0 {
        lemma_earliest_among(manifest, n - 1);
        let last = manifest[n - 1].1;
        match earliest_among(manifest, n) {
            Some(time) => {
                if last.len() > 0 && last[0].0 == time {
                    assert(manifest[n - 1].1.len() > 0 && manifest[n - 1].1[0].0 == time);
                } else {
                    let w = choose|i: int|
                        0 <= i < n - 1 && (#[trigger] manifest[i]).1.len() > 0
                            && manifest[i].1[0].0 == time;
                    assert(manifest[w].1.len() > 0 && manifest[w].1[0].0 == time);
                }
                assert forall|i: int, j: int|
                    0 <= i < n && 0 <= j < (#[trigger] manifest[i]).1.len() implies time <= (
                #[trigger] manifest[i].1[j]).0 by {
                    if i == n - 1 {
                        assert(strictly_increasing(manifest[i].1));
                        if j > 0 {
                            assert(manifest[i].1[0].0 < manifest[i].1[j].0);
                        }
                    }
                }
            },
            None => {},
        }
    }
}

/// Adds a snapshot to an ordered timeline, by [`timeline_with`].
pub fn timeline_insert(timeline: &mut Vec<(i64, String)>, time: i64, path: String)
    requires
        strictly_increasing(old(timeline).deep_view()),
    ensures
        final(timeline).deep_view() == timeline_with(old(timeline).deep_view(), time, path@),
        strictly_increasing(final(timeline).deep_view()),
{
    let ghost before = timeline.deep_view();
    let mut k: usize = timeline.len();
    while k > 0 && timeline[k - 1].0 >= time
        invariant
            k <= timeline.len(),
            timeline.deep_view() == before,
            forall|i: int| k <= i < timeline.len() ==> (#[trigger] before[i]).0 >= time,
        decreases k,
    {
        assert(before[k - 1].0 == timeline@[k - 1].0);
        k -= 1;
    }
    proof {
        assert forall|i: int| 0 <= i < k implies (#[trigger] before[i]).0 < time by {
            assert(before[k - 1].0 == timeline@[k - 1].0);
            if i < k - 1 {
                assert(before[i].0 < before[k - 1].0);
            }
        }
        lemma_position_unique(before, time as int, k as int);
        lemma_timeline_with_ordered(before, time, path@);
    }
    if k < timeline.len() && timeline[k].0 == time {
        assert(before[k as int].0 == timeline@[k as int].0);
        timeline.set(k, (time, path));
        assert(timeline.deep_view() =~= before.update(k as int, (time, path@)));
    } else {
        assert(k < timeline.len() ==> before[k as int].0 == timeline@[k as int].0);
        timeline.insert(k, (time, path));
        assert(timeline.deep_view() =~= before.take(k as int).push((time, path@)) + before.skip(
            k as int,
        ));
    }
}

/// The index of playlist snapshots of one recording.
#[derive(Debug)]
pub struct Recording {
    // Snapshot path is keyed by playlist name, then by capture time
    playlists: IndexMap<String, Vec<(i64, String)>>,
}

impl View for Recording {
    type V = ManifestModel;

    closed spec fn view(&self) -> ManifestModel {
        index_entries(self.playlists)
    }
}

impl Default for Recording {
    fn default() -> (r: Self)
        ensures
            r@ == Seq::<(Seq<char>, TimelineModel)>::empty(),
    {
        Recording::new()
    }
}

impl Recording {
    #[verifier::type_invariant]
    spec fn ordered(&self) -> bool {
        well_formed(index_entries(self.playlists))
    }

    /// A manifest without snapshots.
    pub fn new() -> (r: Self)
        ensures
            r@ == Seq::<(Seq<char>, TimelineModel)>::empty(),
    {
        Recording { playlists: index_new() }
    }

    /// Records that the snapshot `playlist_path` of `playlist_name` was
    /// captured at `time`, by [`manifest_with`]. The manifest stays
    /// well-formed.
    pub fn add(&mut self, time: i64, playlist_name: &str, playlist_path: String)
        ensures
            final(self)@ == manifest_with(old(self)@, time, playlist_name@, playlist_path@),
            well_formed(old(self)@),
            well_formed(final(self)@),
    {
        proof {
            use_type_invariant(&*self);
        }
        let ghost before = self@;
        let mut playlists = index_new();
        std::mem::swap(&mut self.playlists, &mut playlists);
        let found = index_of(&playlists, playlist_name);
        proof {
            match found {
                Some(i) => {
                    assert forall|j: int| 0 <= j < i implies (#[trigger] before[j]).0
                        != playlist_name@ by {
                        assert(before[j].0 != before[i as int].0);
                    }
                    lemma_name_position_unique(before, playlist_name@, i as int);
                },
                None => {
                    lemma_name_position_unique(before, playlist_name@, before.len() as int);
                },
            }
        }
        let placeholder: Vec<(i64, String)> = Vec::new();
        let ghost hole = placeholder.deep_view();
        let mut timeline = match found {
            Some(i) => {
                match index_insert(&mut playlists, playlist_name.to_owned(), placeholder) {
                    Some(timeline) => timeline,
                    None => Vec::new(),
                }
            },
            None => Vec::new(),
        };
        let ghost middle = index_entries(playlists);
        assert(found is None ==> timeline.deep_view() =~= Seq::<(i64, Seq<char>)>::empty());
        assert(strictly_increasing(timeline.deep_view())) by {
            if found is Some {
                assert(strictly_increasing(before[found->0 as int].1));
            }
        }
        timeline_insert(&mut timeline, time, playlist_path);
        let ghost after_timeline = timeline.deep_view();
        proof {
            if found is Some {
                assert(middle[found->0 as int].0 == playlist_name@);
            } else {
                assert(middle == before);
            }
        }
        index_insert(&mut playlists, playlist_name.to_owned(), timeline);
        proof {
            let after = index_entries(playlists);
            let target = manifest_with(before, time, playlist_name@, playlist_path@);
            if found is Some {
                let i = found->0 as int;
                assert(before[i].0 == playlist_name@);
                assert(middle == before.update(i, (playlist_name@, hole)));
                assert(after_timeline == timeline_with(before[i].1, time, playlist_path@));
                assert(middle[i].0 == playlist_name@);
                assert(after == middle.update(i, (playlist_name@, after_timeline)));
                assert(after =~= target);
            } else {
                assert(after =~= target);
            }
            assert(well_formed(target)) by {
                assert forall|i: int, j: int| 0 <= i < j < target.len() implies (
                #[trigger] target[i]).0 != (#[trigger] target[j]).0 by {
                    if found is Some {
                        assert(target[i].0 == before[i].0);
                        assert(target[j].0 == before[j].0);
                    } else {
                        if j < before.len() {
                            assert(target[i].0 == before[i].0);
                            assert(target[j].0 == before[j].0);
                        } else {
                            assert(before[i].0 != playlist_name@);
                        }
                    }
                }
                assert forall|i: int| 0 <= i < target.len() implies strictly_increasing(
                    (#[trigger] target[i]).1,
                ) by {
                    if i < before.len() && !(found is Some && i == found->0) {
                        assert(target[i] == before[i]);
                    }
                }
            }
        }
        std::mem::swap(&mut self.playlists, &mut playlists);
    }

    /// The earliest capture time, if there is a snapshot.
    pub fn earliest_time(&self) -> (r: Option<i64>)
        ensures
            r == earliest_among(self@, self@.len() as int),
            well_formed(self@),
    {
        proof {
            use_type_invariant(self);
        }
        let n = index_len(&self.playlists);
        let mut earliest: Option<i64> = None;
        let mut i: usize = 0;
        while i < n
            invariant
                i <= n,
                n == self@.len(),
                self@ == index_entries(self.playlists),
                earliest == earliest_among(self@, i as int),
            decreases n - i,
        {
            match index_get(&self.playlists, i) {
                Some((_, timeline)) => {
                    if timeline.len() > 0 {
                        let first: i64 = timeline[0].0;
                        assert(first == self@[i as int].1[0].0);
                        earliest = match earliest {
                            Some(time) => if time <= first {
                                Some(time)
                            } else {
                                Some(first)
                            },
                            None => Some(first),
                        };
                    }
                },
                None => {},
            }
            i += 1;
        }
        earliest
    }

    /// The first snapshot of `playlist_name`, if it has one.
    pub fn earliest_time_for<'a>(&'a self, playlist_name: &str) -> (r: Option<(i64, &'a str)>)
        ensures
            r.deep_view() == match timeline_of(self@, playlist_name@) {
                Some(timeline) => first_snapshot(timeline),
                None => None,
            },
            well_formed(self@),
    {
        proof {
            use_type_invariant(self);
        }
        match self.timeline(playlist_name) {
            Some(timeline) => {
                if timeline.len() > 0 {
                    let first = &timeline[0];
                    assert(timeline.deep_view()[0] == (first.0, first.1@));
                    Some((first.0, first.1.as_str()))
                } else {
                    None
                }
            },
            None => None,
        }
    }

    /// The last snapshot of `playlist_name` captured before `time`, if
    /// there is one.
    pub fn find_latest_before<'a>(&'a self, playlist_name: &str, time: i64) -> (r: Option<
        (i64, &'a str),
    >)
        ensures
            r.deep_view() == match timeline_of(self@, playlist_name@) {
                Some(timeline) => latest_before(timeline, time as int),
                None => None,
            },
            well_formed(self@),
    {
        self.find_latest_before_instant(playlist_name, time as i128)
    }

    /// The last snapshot of `playlist_name` captured before `time`, if
    /// there is one, for a time that may lie beyond 64 bits.
    pub fn find_latest_before_instant<'a>(&'a self, playlist_name: &str, time: i128) -> (r: Option<
        (i64, &'a str),
    >)
        ensures
            r.deep_view() == match timeline_of(self@, playlist_name@) {
                Some(timeline) => latest_before(timeline, time as int),
                None => None,
            },
            well_formed(self@),
    {
        proof {
            use_type_invariant(self);
        }
        match self.timeline(playlist_name) {
            Some(timeline) => {
                let ghost model = timeline.deep_view();
                let mut k: usize = timeline.len();
                while k > 0 && timeline[k - 1].0 as i128 >= time
                    invariant
                        k <= timeline.len(),
                        model == timeline.deep_view(),
                        forall|i: int| k <= i < timeline.len() ==> (#[trigger] model[i]).0 >= time,
                    decreases k,
                {
                    assert(model[k - 1].0 == timeline@[k - 1].0);
                    k -= 1;
                }
                proof {
                    assert(strictly_increasing(model));
                    assert forall|i: int| 0 <= i < k implies (#[trigger] model[i]).0 < time by {
                        assert(model[k - 1].0 == timeline@[k - 1].0);
                        if i < k - 1 {
                            assert(model[i].0 < model[k - 1].0);
                        }
                    }
                    lemma_position_unique(model, time as int, k as int);
                }
                if k == 0 {
                    None
                } else {
                    let found = &timeline[k - 1];
                    assert(model[k - 1] == (found.0, found.1@));
                    Some((found.0, found.1.as_str()))
                }
            },
            None => None,
        }
    }

    fn timeline<'a>(&'a self, playlist_name: &str) -> (r: Option<&'a Vec<(i64, String)>>)
        ensures
            r.deep_view() == timeline_of(self@, playlist_name@),
            r is Some ==> strictly_increasing(r->0.deep_view()),
    {
        proof {
            use_type_invariant(self);
        }
        let ghost manifest = self@;
        let found = index_of(&self.playlists, playlist_name);
        match found {
            Some(i) => {
                proof {
                    assert forall|j: int| 0 <= j < i implies (#[trigger] manifest[j]).0
                        != playlist_name@ by {
                        assert(manifest[j].0 != manifest[i as int].0);
                    }
                    lemma_name_position_unique(manifest, playlist_name@, i as int);
                    assert(strictly_increasing(manifest[i as int].1));
                }
                match index_get(&self.playlists, i) {
                    Some((_, timeline)) => Some(timeline),
                    None => None,
                }
            },
            None => {
                proof {
                    lemma_name_position_unique(manifest, playlist_name@, manifest.len() as int);
                }
                None
            },
        }
    }
}

/// One snapshot as the manifest file holds it.
#[derive(Debug, Clone, PartialEq, Eq)]
pub struct SerializedPlaylist {
    /// The capture time in milliseconds since the epoch.
    pub time: i64,
    /// The path of the snapshot, relative to the recording.
    pub path: String,
}

impl DeepView for SerializedPlaylist {
    type V = (i64, Seq<char>);

    open spec fn deep_view(&self) -> (i64, Seq<char>) {
        (self.time, self.path@)
    }
}

/// A manifest as the manifest file holds it: the playlist names in their
/// order, each with its snapshots in theirs.
#[derive(Debug, Clone, PartialEq, Eq)]
pub struct SerializedRecording {
    pub playlists: Vec<(String, Vec<SerializedPlaylist>)>,
}

impl DeepView for SerializedRecording {
    type V = ManifestModel;

    open spec fn deep_view(&self) -> ManifestModel {
        self.playlists.deep_view()
    }
}

/// The timeline that holds the first `n` snapshots of `list`: of two with
/// the same time the later one.
pub open spec fn timeline_from(list: TimelineModel, n: int) -> TimelineModel
    decreases n,
{
    if n <= 0 {
        Seq::empty()
    } else {
        timeline_with(timeline_from(list, n - 1), list[n - 1].0, list[n - 1].1)
    }
}

/// The manifest that holds the first `n` names of `file`, each with its
/// snapshots: of two entries with the same name the later one, at the place
/// of the first.
pub open spec fn manifest_from(file: ManifestModel, n: int) -> ManifestModel
    decreases n,
{
    if n <= 0 {
        Seq::empty()
    } else {
        manifest_replacing(
            manifest_from(file, n - 1),
            file[n - 1].0,
            timeline_from(file[n - 1].1, file[n - 1].1.len() as int),
        )
    }
}

/// Whether the calendar can hold every capture time of `file`.
pub open spec fn all_representable(file: ManifestModel) -> bool {
    forall|i: int, j: int|
        0 <= i < file.len() && 0 <= j < file[i].1.len() ==> representable(
            (#[trigger] file[i].1[j]).0,
        )
}

/// A timeline built snapshot by snapshot is ordered.
pub proof fn lemma_timeline_from_ordered(list: TimelineModel, n: int)
    ensures
        strictly_increasing(timeline_from(list, n)),
    decreases n,
{
    if n > 0 {
        lemma_timeline_from_ordered(list, n - 1);
        lemma_timeline_with_ordered(timeline_from(list, n - 1), list[n - 1].0, list[n - 1].1);
    }
}

/// Replacing the snapshots of a name by an ordered timeline leaves a
/// well-formed manifest well-formed.
pub proof fn lemma_manifest_replacing_well_formed(
    manifest: ManifestModel,
    name: Seq<char>,
    timeline: TimelineModel,
)
    requires
        well_formed(manifest),
        strictly_increasing(timeline),
    ensures
        well_formed(manifest_replacing(manifest, name, timeline)),
{
    lemma_name_position(manifest, name);
    let k = name_position(manifest, name);
    let after = manifest_replacing(manifest, name, timeline);
    assert forall|i: int, j: int| 0 <= i < j < after.len() implies (#[trigger] after[i]).0 != (
    #[trigger] after[j]).0 by {
        if k < manifest.len() {
            assert(after[i].0 == manifest[i].0);
            assert(after[j].0 == manifest[j].0);
        } else if j < manifest.len() {
            assert(after[i].0 == manifest[i].0);
            assert(after[j].0 == manifest[j].0);
        } else {
            assert(manifest[i].0 != name);
        }
    }
    assert forall|i: int| 0 <= i < after.len() implies strictly_increasing(
        (#[trigger] after[i]).1,
    ) by {
        if i < manifest.len() && i != k {
            assert(after[i] == manifest[i]);
        }
    }
}

/// A manifest built from a file is well-formed.
pub proof fn lemma_manifest_from_well_formed(file: ManifestModel, n: int)
    ensures
        well_formed(manifest_from(file, n)),
    decreases n,
{
    if n > 0 {
        lemma_manifest_from_well_formed(file, n - 1);
        lemma_timeline_from_ordered(file[n - 1].1, file[n - 1].1.len() as int);
        lemma_manifest_replacing_well_formed(
            manifest_from(file, n - 1),
            file[n - 1].0,
            timeline_from(file[n - 1].1, file[n - 1].1.len() as int),
        );
    }
}

fn times_representable(playlists: &Vec<(String, Vec<SerializedPlaylist>)>) -> (r: bool)
    ensures
        r == all_representable(playlists.deep_view()),
{
    let ghost file = playlists.deep_view();
    let mut i: usize = 0;
    while i < playlists.len()
        invariant
            i <= playlists.len(),
            file == playlists.deep_view(),
            forall|a: int, b: int|
                0 <= a < i && 0 <= b < file[a].1.len() ==> representable(
                    (#[trigger] file[a].1[b]).0,
                ),
        decreases playlists.len() - i,
    {
        let list = &playlists[i].1;
        assert(list.deep_view() == file[i as int].1);
        let mut j: usize = 0;
        while j < list.len()
            invariant
                j <= list.len(),
                i < playlists.len(),
                file == playlists.deep_view(),
                list.deep_view() == file[i as int].1,
                forall|b: int| 0 <= b < j ==> representable((#[trigger] file[i as int].1[b]).0),
            decreases list.len() - j,
        {
            assert(list.deep_view()[j as int].0 == list@[j as int].time);
            if !is_representable(list[j].time) {
                assert(!representable(file[i as int].1[j as int].0));
                return false;
            }
            j += 1;
        }
        i += 1;
    }
    true
}

fn timeline_from_list(list: &Vec<SerializedPlaylist>) -> (r: Vec<(i64, String)>)
    ensures
        r.deep_view() == timeline_from(list.deep_view(), list@.len() as int),
        strictly_increasing(r.deep_view()),
{
    let mut timeline: Vec<(i64, String)> = Vec::new();
    assert(timeline.deep_view() =~= Seq::<(i64, Seq<char>)>::empty());
    let mut j: usize = 0;
    while j < list.len()
        invariant
            j <= list.len(),
            timeline.deep_view() == timeline_from(list.deep_view(), j as int),
            strictly_increasing(timeline.deep_view()),
        decreases list.len() - j,
    {
        assert(list.deep_view()[j as int] == (list@[j as int].time, list@[j as int].path@));
        timeline_insert(&mut timeline, list[j].time, list[j].path.clone());
        j += 1;
    }
    timeline
}

impl Recording {
    /// The manifest as the manifest file holds it: what the manifest
    /// holds, in its order. The capture times of each name rise strictly.
    pub fn to_serialized(&self) -> (r: SerializedRecording)
        ensures
            r.deep_view() == self@,
            well_formed(r.deep_view()),
    {
        proof {
            use_type_invariant(self);
        }
        let n = index_len(&self.playlists);
        let mut playlists: Vec<(String, Vec<SerializedPlaylist>)> = Vec::new();
        let mut i: usize = 0;
        while i < n
            invariant
                i <= n,
                n == self@.len(),
                self@ == index_entries(self.playlists),
                playlists.deep_view() =~= self@.take(i as int),
            decreases n - i,
        {
            let ghost done = playlists.deep_view();
            match index_get(&self.playlists, i) {
                Some((name, timeline)) => {
                    let mut list: Vec<SerializedPlaylist> = Vec::new();
                    let mut j: usize = 0;
                    while j < timeline.len()
                        invariant
                            j <= timeline.len(),
                            list.deep_view() =~= timeline.deep_view().take(j as int),
                        decreases timeline.len() - j,
                    {
                        let ghost before = list.deep_view();
                        let entry = SerializedPlaylist {
                            time: timeline[j].0,
                            path: timeline[j].1.clone(),
                        };
                        list.push(entry);
                        assert(list.deep_view() =~= before.push(entry.deep_view()));
                        j += 1;
                    }
                    assert(timeline.deep_view().take(timeline@.len() as int)
                        =~= timeline.deep_view());
                    let pair = (name.clone(), list);
                    playlists.push(pair);
                    assert(playlists.deep_view() =~= done.push(pair.deep_view()));
                },
                None => {},
            }
            i += 1;
        }
        assert(self@.take(n as int) =~= self@);
        SerializedRecording { playlists }
    }

    /// The manifest that a manifest file denotes, by [`manifest_from`];
    /// `None` exactly where the calendar cannot hold one of its capture
    /// times.
    pub fn from_serialized(serialized: &SerializedRecording) -> (r: Option<Recording>)
        ensures
            r is Some <==> all_representable(serialized.deep_view()),
            r is Some ==> r->0@ == manifest_from(
                serialized.deep_view(),
                serialized.deep_view().len() as int,
            ),
    {
        if !times_representable(&serialized.playlists) {
            return None;
        }
        let ghost file = serialized.deep_view();
        let mut playlists = index_new();
        let mut i: usize = 0;
        while i < serialized.playlists.len()
            invariant
                i <= serialized.playlists.len(),
                file == serialized.playlists.deep_view(),
                index_entries(playlists) == manifest_from(file, i as int),
            decreases serialized.playlists.len() - i,
        {
            let ghost before = index_entries(playlists);
            let name = &serialized.playlists[i].0;
            let timeline = timeline_from_list(&serialized.playlists[i].1);
            assert(file[i as int] == (name@, serialized.playlists@[i as int].1.deep_view()));
            proof {
                lemma_manifest_from_well_formed(file, i as int);
            }
            let found = index_of(&playlists, name.as_str());
            proof {
                match found {
                    Some(k) => {
                        assert forall|j: int| 0 <= j < k implies (#[trigger] before[j]).0
                            != name@ by {
                            assert(before[j].0 != before[k as int].0);
                        }
                        lemma_name_position_unique(before, name@, k as int);
                    },
                    None => {
                        lemma_name_position_unique(before, name@, before.len() as int);
                    },
                }
            }
            index_insert(&mut playlists, name.clone(), timeline);
            assert(index_entries(playlists) =~= manifest_replacing(
                before,
                name@,
                timeline.deep_view(),
            ));
            i += 1;
        }
        proof {
            lemma_manifest_from_well_formed(file, file.len() as int);
        }
        Some(Recording { playlists })
    }
}

/// Building a timeline from snapshots that stand in the order of their
/// times gives those snapshots.
pub proof fn lemma_timeline_from_ordered_list(list: TimelineModel, n: int)
    requires
        strictly_increasing(list),
        0 <= n <= list.len(),
    ensures
        timeline_from(list, n) == list.take(n),
    decreases n,
{
    if n > 0 {
        lemma_timeline_from_ordered_list(list, n - 1);
        let before = list.take(n - 1);
        let added = list[n - 1];
        assert forall|i: int| 0 <= i < before.len() implies (#[trigger] before[i]).0
            < added.0 by {
            assert(before[i] == list[i]);
        }
        lemma_position_unique(before, added.0 as int, n - 1);
        assert(before.take(n - 1) =~= before);
        assert(before.skip(n - 1) =~= Seq::<(i64, Seq<char>)>::empty());
        assert(before.push(added) + Seq::<(i64, Seq<char>)>::empty() =~= list.take(n));
    } else {
        assert(list.take(0) =~= Seq::<(i64, Seq<char>)>::empty());
    }
}

/// Reading back the file of a manifest gives the manifest: what
/// `to_serialized` writes, `from_serialized` reads as it was.
pub proof fn lemma_manifest_round_trip(manifest: ManifestModel, n: int)
    requires
        well_formed(manifest),
        0 <= n <= manifest.len(),
    ensures
        manifest_from(manifest, n) == manifest.take(n),
        n == manifest.len() ==> manifest_from(manifest, n) == manifest,
    decreases n,
{
    if n > 0 {
        lemma_manifest_round_trip(manifest, n - 1);
        let before = manifest.take(n - 1);
        let added = manifest[n - 1];
        assert(strictly_increasing(added.1));
        lemma_timeline_from_ordered_list(added.1, added.1.len() as int);
        assert(added.1.take(added.1.len() as int) =~= added.1);
        assert forall|i: int| 0 <= i < before.len() implies (#[trigger] before[i]).0
            != added.0 by {
            assert(before[i] == manifest[i]);
        }
        lemma_name_position_unique(before, added.0, n - 1);
        assert(before.push(added) =~= manifest.take(n));
    } else {
        assert(manifest.take(0) =~= Seq::<(Seq<char>, TimelineModel)>::empty());
    }
    if n == manifest.len() {
        assert(manifest.take(n) =~= manifest);
    }
}

} // verus!
