//! Recording of a master playlist: which of its variants and renditions
//! are recorded, under which names, and what is fetched for each.

use crate::playlist::{
    AlternativeMedia, AlternativeMediaModel, AlternativeMediaType, AlternativeMediaTypeModel,
    MasterPlaylist, MasterPlaylistModel, QuotedOrUnquoted, QuotedOrUnquotedModel, VariantStream,
    VariantStreamModel,
};
use crate::record::{applies_to, media_applies_to_variant, RecordError, RecordOptions};
use crate::rewrite::{set_attribute, with_attribute, ORIGINAL_URI};
use crate::select::MediaSelect;
use crate::text::{concat_str, decimal, push_decimal, push_str};
use crate::urls::{join_url, url_join};
use vstd::prelude::*;

verus! {

/// The name of a playlist in its directory of the recording.
pub const INDEX_NAME: &'static str = "index.m3u8";

/// One media playlist to record: from where, and into which directory of
/// the recording.
#[derive(Debug, Clone, PartialEq, Eq)]
pub struct ChildRecording {
    /// The absolute URL of the media playlist.
    pub url: String,
    /// The directory of the recording that takes it, with a `/` at its end.
    pub dir: String,
}

/// Model of [`ChildRecording`].
pub ghost struct ChildRecordingModel {
    pub url: Seq<char>,
    pub dir: Seq<char>,
}

impl DeepView for ChildRecording {
    type V = ChildRecordingModel;

    open spec fn deep_view(&self) -> ChildRecordingModel {
        ChildRecordingModel { url: self.url@, dir: self.dir@ }
    }
}

/// What recording a master playlist comes to.
#[derive(Debug, Clone, PartialEq, Eq)]
pub struct MasterRecording {
    /// The selected variants and renditions, with their local names.
    pub playlist: MasterPlaylist,
    /// For each variant of `playlist`, its index in the playlist that was
    /// fetched.
    pub variant_origins: Vec<usize>,
    /// For each rendition of `playlist`, its index in the playlist that was
    /// fetched.
    pub alternative_origins: Vec<usize>,
    /// The media playlists to record: those of the variants, then those of
    /// the renditions that have one.
    pub children: Vec<ChildRecording>,
}

/// Model of [`MasterRecording`].
pub ghost struct MasterRecordingModel {
    pub playlist: MasterPlaylistModel,
    pub variant_origins: Seq<int>,
    pub alternative_origins: Seq<int>,
    pub children: Seq<ChildRecordingModel>,
}

/// The indices as integers.
pub open spec fn as_ints(indices: Seq<usize>) -> Seq<int> {
    Seq::new(indices.len(), |k: int| indices[k] as int)
}

impl DeepView for MasterRecording {
    type V = MasterRecordingModel;

    open spec fn deep_view(&self) -> MasterRecordingModel {
        MasterRecordingModel {
            playlist: self.playlist.deep_view(),
            variant_origins: as_ints(self.variant_origins@),
            alternative_origins: as_ints(self.alternative_origins@),
            children: self.children.deep_view(),
        }
    }
}

/// Whether a rendition stays when the selected variants are `variants`: it
/// belongs to a group that one of them names for its kind, or it is of a
/// kind that variants do not name groups for.
pub open spec fn kept_media(media: AlternativeMediaModel, variants: Seq<VariantStreamModel>)
    -> bool {
    media.media_type is Other || exists|k: int|
        0 <= k < variants.len() && applies_to(media, #[trigger] variants[k])
}

/// The kinds of renditions, in the order in which a recorded master
/// playlist lists them.
pub open spec fn kind_of(media_type: AlternativeMediaTypeModel) -> int {
    match media_type {
        AlternativeMediaTypeModel::Audio => 0,
        AlternativeMediaTypeModel::Video => 1,
        AlternativeMediaTypeModel::Subtitles => 2,
        AlternativeMediaTypeModel::ClosedCaptions => 3,
        AlternativeMediaTypeModel::Other(_) => 4,
    }
}

/// The indices of the renditions of `kind` among the first `n` that stay,
/// in their order.
pub open spec fn candidates(
    alternatives: Seq<AlternativeMediaModel>,
    variants: Seq<VariantStreamModel>,
    kind: int,
    n: int,
) -> Seq<int>
    decreases n,
{
    if n <= 0 {
        Seq::empty()
    } else {
        let before = candidates(alternatives, variants, kind, n - 1);
        if kind_of(alternatives[n - 1].media_type) == kind && kept_media(
            alternatives[n - 1],
            variants,
        ) {
            before.push(n - 1)
        } else {
            before
        }
    }
}

/// The renditions at `indices`.
pub open spec fn media_at(alternatives: Seq<AlternativeMediaModel>, indices: Seq<int>) -> Seq<
    AlternativeMediaModel,
> {
    Seq::new(indices.len(), |k: int| alternatives[indices[k]])
}

/// The indices of the renditions of `kind` that are recorded: of those that
/// stay, the ones that `select` selects.
pub open spec fn chosen(
    alternatives: Seq<AlternativeMediaModel>,
    variants: Seq<VariantStreamModel>,
    select: MediaSelect,
    kind: int,
) -> Seq<int> {
    let all = candidates(alternatives, variants, kind, alternatives.len() as int);
    all.subrange(
        select.range(media_at(alternatives, all)).0,
        select.range(media_at(alternatives, all)).1,
    )
}

/// The indices of the renditions that are recorded: audio, video and
/// subtitles as the options select them, then all closed captions and all
/// renditions of other kinds that stay.
pub open spec fn selected_media(
    alternatives: Seq<AlternativeMediaModel>,
    variants: Seq<VariantStreamModel>,
    options: RecordOptions,
) -> Seq<int> {
    chosen(alternatives, variants, options.audio, 0) + chosen(
        alternatives,
        variants,
        options.video,
        1,
    ) + chosen(alternatives, variants, options.subtitle, 2) + candidates(
        alternatives,
        variants,
        3,
        alternatives.len() as int,
    ) + candidates(alternatives, variants, 4, alternatives.len() as int)
}

/// The directory of the variant at position `i` of the recorded playlist.
pub open spec fn variant_dir(i: nat) -> Seq<char> {
    "variant"@ + decimal(i) + "/"@
}

/// The directory of the rendition of the group `group_id` at position `i`
/// of the recorded playlist.
pub open spec fn media_dir(group_id: Seq<char>, i: nat) -> Seq<char> {
    "media-"@ + group_id + "-"@ + decimal(i) + "/"@
}

/// The name of the playlist in the directory `dir`.
pub open spec fn index_in(dir: Seq<char>) -> Seq<char> {
    dir + INDEX_NAME@
}

/// The variant at position `i` as the recorded playlist holds it, where it
/// is fetched from `url`.
pub open spec fn recorded_variant(variant: VariantStreamModel, i: nat, url: Seq<char>)
    -> VariantStreamModel {
    VariantStreamModel {
        uri: index_in(variant_dir(i)),
        other_attributes: with_attribute(
            variant.other_attributes,
            ORIGINAL_URI@,
            QuotedOrUnquotedModel::Quoted(url),
        ),
        ..variant
    }
}

/// The rendition at position `i` as the recorded playlist holds it: as it
/// is where it has no URI, and with its local name where it has one.
/// `None` where its URI does not resolve against `base`.
pub open spec fn recorded_media(media: AlternativeMediaModel, i: nat, base: Seq<char>) -> Option<
    AlternativeMediaModel,
> {
    match media.uri {
        None => Some(media),
        Some(uri) => match url_join(base, uri) {
            None => None,
            Some(url) => Some(
                AlternativeMediaModel {
                    uri: Some(index_in(media_dir(media.group_id, i))),
                    other_attributes: with_attribute(
                        media.other_attributes,
                        ORIGINAL_URI@,
                        QuotedOrUnquotedModel::Quoted(url),
                    ),
                    ..media
                },
            ),
        },
    }
}

/// The first `n` variants as the recorded playlist holds them, and the
/// media playlists to record for them. `None` where the URI of one of them
/// does not resolve against `base`.
pub open spec fn recorded_variants(variants: Seq<VariantStreamModel>, base: Seq<char>, n: int)
    -> Option<(Seq<VariantStreamModel>, Seq<ChildRecordingModel>)>
    decreases n,
{
    if n <= 0 {
        Some((Seq::empty(), Seq::empty()))
    } else {
        match (recorded_variants(variants, base, n - 1), url_join(base, variants[n - 1].uri)) {
            (Some((done, children)), Some(url)) => Some(
                (
                    done.push(recorded_variant(variants[n - 1], (n - 1) as nat, url)),
                    children.push(ChildRecordingModel { url, dir: variant_dir((n - 1) as nat) }),
                ),
            ),
            _ => None,
        }
    }
}

/// The first `n` renditions as the recorded playlist holds them, and the
/// media playlists to record for those that have one. `None` where the
/// URI of one of them does not resolve against `base`.
pub open spec fn recorded_medias(medias: Seq<AlternativeMediaModel>, base: Seq<char>, n: int)
    -> Option<(Seq<AlternativeMediaModel>, Seq<ChildRecordingModel>)>
    decreases n,
{
    if n <= 0 {
        Some((Seq::empty(), Seq::empty()))
    } else {
        match (
            recorded_medias(medias, base, n - 1),
            recorded_media(medias[n - 1], (n - 1) as nat, base),
        ) {
            (Some((done, children)), Some(media)) => Some(
                (
                    done.push(media),
                    match medias[n - 1].uri {
                        Some(uri) => children.push(
                            ChildRecordingModel {
                                url: url_join(base, uri).unwrap(),
                                dir: media_dir(medias[n - 1].group_id, (n - 1) as nat),
                            },
                        ),
                        None => children,
                    },
                ),
            ),
            _ => None,
        }
    }
}

/// How recording a master playlist ends.
pub ghost enum MasterOutcome {
    /// The options select no variant.
    NoVariants,
    /// A URI of a selected variant or rendition does not resolve.
    BadUrl,
    /// The playlist is recorded.
    Recorded(MasterRecordingModel),
}

/// What recording the master playlist fetched from `base` comes to: the
/// selected variants and the renditions that go with them get local names
/// and keep the URL they came from in an `X-ORIGINAL-URI` attribute, and a
/// media playlist is recorded for each variant and for each rendition with a
/// URI.
pub open spec fn master_outcome(
    master: MasterPlaylistModel,
    base: Seq<char>,
    options: RecordOptions,
) -> MasterOutcome {
    let range = options.variant_select.range(master.variants);
    let variants = master.variants.subrange(range.0, range.1);
    let indices = selected_media(master.alternatives, variants, options);
    let medias = media_at(master.alternatives, indices);
    if variants.len() == 0 {
        MasterOutcome::NoVariants
    } else {
        match (
            recorded_variants(variants, base, variants.len() as int),
            recorded_medias(medias, base, medias.len() as int),
        ) {
            (Some((recorded, children)), Some((renditions, more))) => MasterOutcome::Recorded(
                MasterRecordingModel {
                    playlist: MasterPlaylistModel { variants: recorded, alternatives: renditions },
                    variant_origins: Seq::new(variants.len(), |k: int| range.0 + k),
                    alternative_origins: indices,
                    children: children + more,
                },
            ),
            _ => MasterOutcome::BadUrl,
        }
    }
}

fn is_kept(media: &AlternativeMedia, variants: &Vec<VariantStream>) -> (r: bool)
    ensures
        r == kept_media(media.deep_view(), variants.deep_view()),
{
    match &media.media_type {
        AlternativeMediaType::Other(_) => {
            return true;
        },
        _ => {},
    }
    let ghost models = variants.deep_view();
    let mut k: usize = 0;
    while k < variants.len()
        invariant
            k <= variants.len(),
            models == variants.deep_view(),
            forall|j: int| 0 <= j < k ==> !applies_to(media.deep_view(), #[trigger] models[j]),
        decreases variants.len() - k,
    {
        assert(models[k as int] == variants@[k as int].deep_view());
        if media_applies_to_variant(media, &variants[k]) {
            return true;
        }
        k += 1;
    }
    false
}

fn kind(media_type: &AlternativeMediaType) -> (r: u8)
    ensures
        r == kind_of(media_type.deep_view()),
{
    match media_type {
        AlternativeMediaType::Audio => 0,
        AlternativeMediaType::Video => 1,
        AlternativeMediaType::Subtitles => 2,
        AlternativeMediaType::ClosedCaptions => 3,
        AlternativeMediaType::Other(_) => 4,
    }
}

fn candidate_indices(
    alternatives: &Vec<AlternativeMedia>,
    variants: &Vec<VariantStream>,
    wanted: u8,
) -> (r: Vec<usize>)
    ensures
        as_ints(r@) == candidates(
            alternatives.deep_view(),
            variants.deep_view(),
            wanted as int,
            alternatives@.len() as int,
        ),
        forall|k: int| 0 <= k < r@.len() ==> (#[trigger] r@[k]) < alternatives@.len(),
{
    let ghost models = alternatives.deep_view();
    let mut out: Vec<usize> = Vec::new();
    assert(as_ints(out@) =~= Seq::<int>::empty());
    let mut i: usize = 0;
    while i < alternatives.len()
        invariant
            i <= alternatives.len(),
            models == alternatives.deep_view(),
            as_ints(out@) == candidates(models, variants.deep_view(), wanted as int, i as int),
            forall|k: int| 0 <= k < out@.len() ==> (#[trigger] out@[k]) < alternatives@.len(),
        decreases alternatives.len() - i,
    {
        assert(models[i as int] == alternatives@[i as int].deep_view());
        let ghost before = as_ints(out@);
        if kind(&alternatives[i].media_type) == wanted && is_kept(&alternatives[i], variants) {
            out.push(i);
            assert(as_ints(out@) =~= before.push(i as int));
        }
        i += 1;
    }
    out
}

fn clone_media_at(alternatives: &Vec<AlternativeMedia>, indices: &Vec<usize>) -> (r: Vec<
    AlternativeMedia,
>)
    requires
        forall|k: int| 0 <= k < indices@.len() ==> (#[trigger] indices@[k]) < alternatives@.len(),
    ensures
        r.deep_view() == media_at(alternatives.deep_view(), as_ints(indices@)),
{
    let ghost target = media_at(alternatives.deep_view(), as_ints(indices@));
    let mut out: Vec<AlternativeMedia> = Vec::new();
    let mut k: usize = 0;
    while k < indices.len()
        invariant
            k <= indices.len(),
            target == media_at(alternatives.deep_view(), as_ints(indices@)),
            forall|j: int|
                0 <= j < indices@.len() ==> (#[trigger] indices@[j]) < alternatives@.len(),
            out.deep_view() =~= target.take(k as int),
        decreases indices.len() - k,
    {
        let ghost before = out.deep_view();
        let copy = alternatives[indices[k]].clone();
        assert(copy.deep_view() == target[k as int]);
        out.push(copy);
        assert(out.deep_view() =~= before.push(copy.deep_view()));
        k += 1;
    }
    assert(target.take(indices@.len() as int) =~= target);
    out
}

fn choose_indices(
    alternatives: &Vec<AlternativeMedia>,
    variants: &Vec<VariantStream>,
    select: MediaSelect,
    wanted: u8,
    selected: &mut Vec<usize>,
)
    requires
        forall|k: int|
            0 <= k < old(selected)@.len() ==> (#[trigger] old(selected)@[k]) < alternatives@.len(),
    ensures
        as_ints(final(selected)@) == as_ints(old(selected)@) + chosen(
            alternatives.deep_view(),
            variants.deep_view(),
            select,
            wanted as int,
        ),
        forall|k: int|
            0 <= k < final(selected)@.len() ==> (#[trigger] final(selected)@[k])
                < alternatives@.len(),
{
    let all = candidate_indices(alternatives, variants, wanted);
    let group = clone_media_at(alternatives, &all);
    let range = select.media_range(group.as_slice());
    let ghost before = as_ints(selected@);
    let ghost target = chosen(
        alternatives.deep_view(),
        variants.deep_view(),
        select,
        wanted as int,
    );
    assert(before + target.take(0) =~= before);
    let mut k: usize = range.0;
    while k < range.1
        invariant
            range.0 <= k <= range.1 <= all@.len(),
            target == as_ints(all@).subrange(range.0 as int, range.1 as int),
            as_ints(selected@) == before + target.take(k - range.0),
            forall|j: int| 0 <= j < all@.len() ==> (#[trigger] all@[j]) < alternatives@.len(),
            forall|j: int|
                0 <= j < selected@.len() ==> (#[trigger] selected@[j]) < alternatives@.len(),
        decreases range.1 - k,
    {
        let ghost done = as_ints(selected@);
        selected.push(all[k]);
        assert(as_ints(selected@) =~= done.push(all@[k as int] as int));
        assert(done.push(all@[k as int] as int) =~= before + target.take(k - range.0 + 1));
        k += 1;
    }
    assert(target.take(range.1 - range.0) =~= target);
}

fn append_indices(selected: &mut Vec<usize>, more: &Vec<usize>)
    ensures
        as_ints(final(selected)@) == as_ints(old(selected)@) + as_ints(more@),
        final(selected)@ == old(selected)@ + more@,
{
    let ghost before = selected@;
    assert(before + more@.take(0) =~= before);
    let mut k: usize = 0;
    while k < more.len()
        invariant
            k <= more.len(),
            selected@ == before + more@.take(k as int),
        decreases more.len() - k,
    {
        selected.push(more[k]);
        assert(selected@ =~= before + more@.take(k + 1));
        k += 1;
    }
    assert(more@.take(more@.len() as int) =~= more@);
    assert(as_ints(selected@) =~= as_ints(before) + as_ints(more@));
}

/// The indices of the renditions that are recorded, by [`selected_media`].
pub fn select_media(
    alternatives: &Vec<AlternativeMedia>,
    variants: &Vec<VariantStream>,
    options: RecordOptions,
) -> (r: Vec<usize>)
    ensures
        as_ints(r@) == selected_media(alternatives.deep_view(), variants.deep_view(), options),
        forall|k: int| 0 <= k < r@.len() ==> (#[trigger] r@[k]) < alternatives@.len(),
{
    let mut selected: Vec<usize> = Vec::new();
    assert(as_ints(selected@) =~= Seq::<int>::empty());
    choose_indices(alternatives, variants, options.audio, 0, &mut selected);
    choose_indices(alternatives, variants, options.video, 1, &mut selected);
    choose_indices(alternatives, variants, options.subtitle, 2, &mut selected);
    let cc_renditions = candidate_indices(alternatives, variants, 3);
    append_indices(&mut selected, &cc_renditions);
    let other_renditions = candidate_indices(alternatives, variants, 4);
    append_indices(&mut selected, &other_renditions);
    assert(as_ints(selected@) =~= selected_media(
        alternatives.deep_view(),
        variants.deep_view(),
        options,
    ));
    selected
}

/// The parse error for a URI of the master playlist that does not resolve:
/// its message names the URI.
fn bad_url(uri: &str) -> (r: RecordError)
    ensures
        r is Parse,
        r->Parse_0@ == "Bad URL: "@ + uri@,
{
    RecordError::Parse(concat_str("Bad URL: ", uri))
}

fn variant_directory(i: usize) -> (r: String)
    ensures
        r@ == variant_dir(i as nat),
{
    let mut dir = "variant".to_owned();
    push_decimal(&mut dir, i as u64);
    push_str(&mut dir, "/");
    dir
}

fn media_directory(group_id: &str, i: usize) -> (r: String)
    ensures
        r@ == media_dir(group_id@, i as nat),
{
    let mut dir = "media-".to_owned();
    push_str(&mut dir, group_id);
    push_str(&mut dir, "-");
    push_decimal(&mut dir, i as u64);
    push_str(&mut dir, "/");
    dir
}

/// Once the first `n` variants cannot be recorded, no longer run can.
pub proof fn lemma_recorded_variants_none(
    variants: Seq<VariantStreamModel>,
    base: Seq<char>,
    n: int,
    m: int,
)
    requires
        n <= m,
        recorded_variants(variants, base, n) is None,
    ensures
        recorded_variants(variants, base, m) is None,
    decreases m - n,
{
    if n < m {
        lemma_recorded_variants_none(variants, base, n, m - 1);
    }
}

/// Once the first `n` renditions cannot be recorded, no longer run can.
pub proof fn lemma_recorded_medias_none(
    medias: Seq<AlternativeMediaModel>,
    base: Seq<char>,
    n: int,
    m: int,
)
    requires
        n <= m,
        recorded_medias(medias, base, n) is None,
    ensures
        recorded_medias(medias, base, m) is None,
    decreases m - n,
{
    if n < m {
        lemma_recorded_medias_none(medias, base, n, m - 1);
    }
}

/// Gives the selected variants their local names, by [`recorded_variants`].
pub fn record_variants(url: &str, variants: Vec<VariantStream>) -> (r: Result<
    (Vec<VariantStream>, Vec<ChildRecording>),
    RecordError,
>)
    ensures
        match recorded_variants(variants.deep_view(), url@, variants@.len() as int) {
            Some((recorded, children)) => r is Ok && r->Ok_0.0.deep_view() == recorded
                && r->Ok_0.1.deep_view() == children,
            None => r is Err && r->Err_0 is Parse,
        },
{
    let ghost models = variants.deep_view();
    let mut recorded: Vec<VariantStream> = Vec::new();
    let mut children: Vec<ChildRecording> = Vec::new();
    assert(recorded.deep_view() =~= Seq::<VariantStreamModel>::empty());
    assert(children.deep_view() =~= Seq::<ChildRecordingModel>::empty());
    let count: usize = variants.len();
    let mut i: usize = 0;
    for variant in it: variants
        invariant
            it.seq() == variants@,
            variants@.len() == count,
            models == variants.deep_view(),
            i == it.index(),
            recorded_variants(models, url@, i as int) == Some(
                (recorded.deep_view(), children.deep_view()),
            ),
    {
        let ghost done = recorded.deep_view();
        let ghost spawned = children.deep_view();
        assert(variant.deep_view() == models[i as int]);
        let mut variant = variant;
        let variant_url = match join_url(url, variant.uri.as_str()) {
            Some(variant_url) => variant_url,
            None => {
                proof {
                    lemma_recorded_variants_none(models, url@, i + 1, models.len() as int);
                }
                return Err(bad_url(variant.uri.as_str()));
            },
        };
        let variant_dir = variant_directory(i);
        let mut attributes = Vec::new();
        std::mem::swap(&mut variant.other_attributes, &mut attributes);
        set_attribute(&mut attributes, ORIGINAL_URI, QuotedOrUnquoted::Quoted(variant_url.clone()));
        variant.other_attributes = attributes;
        variant.uri = concat_str(variant_dir.as_str(), INDEX_NAME);
        let child = ChildRecording { url: variant_url, dir: variant_dir };
        recorded.push(variant);
        children.push(child);
        assert(recorded.deep_view() =~= done.push(variant.deep_view()));
        assert(children.deep_view() =~= spawned.push(child.deep_view()));
        i += 1;
    }
    Ok((recorded, children))
}

/// Gives the selected renditions their local names, by [`recorded_medias`].
pub fn record_medias(url: &str, medias: Vec<AlternativeMedia>) -> (r: Result<
    (Vec<AlternativeMedia>, Vec<ChildRecording>),
    RecordError,
>)
    ensures
        match recorded_medias(medias.deep_view(), url@, medias@.len() as int) {
            Some((recorded, children)) => r is Ok && r->Ok_0.0.deep_view() == recorded
                && r->Ok_0.1.deep_view() == children,
            None => r is Err && r->Err_0 is Parse,
        },
{
    let ghost models = medias.deep_view();
    let mut recorded: Vec<AlternativeMedia> = Vec::new();
    let mut children: Vec<ChildRecording> = Vec::new();
    assert(recorded.deep_view() =~= Seq::<AlternativeMediaModel>::empty());
    assert(children.deep_view() =~= Seq::<ChildRecordingModel>::empty());
    let count: usize = medias.len();
    let mut i: usize = 0;
    for media in it: medias
        invariant
            it.seq() == medias@,
            medias@.len() == count,
            models == medias.deep_view(),
            i == it.index(),
            recorded_medias(models, url@, i as int) == Some(
                (recorded.deep_view(), children.deep_view()),
            ),
    {
        let ghost done = recorded.deep_view();
        let ghost spawned = children.deep_view();
        assert(media.deep_view() == models[i as int]);
        let mut media = media;
        let media_uri = media.uri.take();
        match media_uri {
            None => {
                assert(media.deep_view() == models[i as int]);
            },
            Some(media_uri) => {
                let media_url = match join_url(url, media_uri.as_str()) {
                    Some(media_url) => media_url,
                    None => {
                        proof {
                            lemma_recorded_medias_none(models, url@, i + 1, models.len() as int);
                        }
                        return Err(bad_url(media_uri.as_str()));
                    },
                };
                let media_dir = media_directory(media.group_id.as_str(), i);
                let mut attributes = Vec::new();
                std::mem::swap(&mut media.other_attributes, &mut attributes);
                set_attribute(
                    &mut attributes,
                    ORIGINAL_URI,
                    QuotedOrUnquoted::Quoted(media_url.clone()),
                );
                media.other_attributes = attributes;
                media.uri = Some(concat_str(media_dir.as_str(), INDEX_NAME));
                let child = ChildRecording { url: media_url, dir: media_dir };
                children.push(child);
                assert(children.deep_view() =~= spawned.push(child.deep_view()));
            },
        }
        recorded.push(media);
        assert(recorded.deep_view() =~= done.push(media.deep_view()));
        i += 1;
    }
    Ok((recorded, children))
}

fn clone_variants(variants: &Vec<VariantStream>, from: usize, to: usize) -> (r: Vec<VariantStream>)
    requires
        from <= to <= variants@.len(),
    ensures
        r.deep_view() == variants.deep_view().subrange(from as int, to as int),
{
    let ghost target = variants.deep_view().subrange(from as int, to as int);
    let mut out: Vec<VariantStream> = Vec::new();
    let mut k: usize = from;
    while k < to
        invariant
            from <= k <= to <= variants@.len(),
            target == variants.deep_view().subrange(from as int, to as int),
            out.deep_view() =~= target.take(k - from),
        decreases to - k,
    {
        let ghost before = out.deep_view();
        let copy = variants[k].clone();
        out.push(copy);
        assert(out.deep_view() =~= before.push(copy.deep_view()));
        k += 1;
    }
    assert(target.take(to - from) =~= target);
    out
}

fn index_run(from: usize, to: usize) -> (r: Vec<usize>)
    requires
        from <= to,
    ensures
        as_ints(r@) == Seq::new((to - from) as nat, |k: int| from + k),
{
    let mut out: Vec<usize> = Vec::new();
    let mut k: usize = from;
    while k < to
        invariant
            from <= k <= to,
            out@.len() == k - from,
            forall|j: int| 0 <= j < out@.len() ==> (#[trigger] out@[j]) == from + j,
        decreases to - k,
    {
        out.push(k);
        k += 1;
    }
    assert(as_ints(out@) =~= Seq::new((to - from) as nat, |k: int| from + k));
    out
}

/// Plans the recording of the master playlist fetched from `url`, by
/// [`master_outcome`]. Fails with a configuration error, and only then,
/// where the options select no variant; with a parse error, and only then,
/// where they select one and the URI of a selected variant or rendition
/// does not resolve against `url`.
pub fn record_master_playlist(url: &str, options: RecordOptions, master_playlist: &MasterPlaylist)
    -> (r: Result<MasterRecording, RecordError>)
    ensures
        match master_outcome(master_playlist.deep_view(), url@, options) {
            MasterOutcome::NoVariants => r is Err && r->Err_0 is Config && r->Err_0->Config_0@
                == "No variant streams selected."@,
            MasterOutcome::BadUrl => r is Err && r->Err_0 is Parse,
            MasterOutcome::Recorded(recording) => r is Ok && r->Ok_0.deep_view() == recording,
        },
{
    // Select variant streams
    let range = options.variant_select.variant_range(master_playlist.variants.as_slice());
    if range.0 == range.1 {
        return Err(RecordError::Config("No variant streams selected.".to_owned()));
    }
    let variants = clone_variants(&master_playlist.variants, range.0, range.1);
    // Select renditions
    let indices = select_media(&master_playlist.alternatives, &variants, options);
    let alternatives = clone_media_at(&master_playlist.alternatives, &indices);
    // Name the selected variant streams and renditions
    let (variants, mut children) = match record_variants(url, variants) {
        Ok(recorded) => recorded,
        Err(e) => {
            return Err(e);
        },
    };
    let (alternatives, mut more) = match record_medias(url, alternatives) {
        Ok(recorded) => recorded,
        Err(e) => {
            return Err(e);
        },
    };
    let ghost first = children.deep_view();
    let ghost second = more.deep_view();
    children.append(&mut more);
    assert(children.deep_view() =~= first + second);
    Ok(
        MasterRecording {
            playlist: MasterPlaylist { variants, alternatives },
            variant_origins: index_run(range.0, range.1),
            alternative_origins: indices,
            children,
        },
    )
}

} // verus!
