//! The parts of HLS playlists that recording and replay read and change,
//! held as plain values.
//!
//! Each type has a mathematical model, reached by `deep_view()`, in which
//! text is a `Seq<char>` and a list is a `Seq`. All contracts of the crate
//! speak of these models.

use vstd::prelude::*;

verus! {

/// A tag that the playlist format does not define: `#EXT-<tag>[:<rest>]`.
#[derive(Debug, PartialEq, Eq)]
pub struct ExtTag {
    pub tag: String,
    pub rest: Option<String>,
}

/// Model of [`ExtTag`].
pub ghost struct ExtTagModel {
    pub tag: Seq<char>,
    pub rest: Option<Seq<char>>,
}

impl DeepView for ExtTag {
    type V = ExtTagModel;

    open spec fn deep_view(&self) -> ExtTagModel {
        ExtTagModel { tag: self.tag@, rest: self.rest.deep_view() }
    }
}

impl Clone for ExtTag {
    fn clone(&self) -> (r: Self)
        ensures
            r.deep_view() == self.deep_view(),
    {
        ExtTag { tag: self.tag.clone(), rest: clone_text(&self.rest) }
    }
}

/// A copy of an optional text.
pub fn clone_text(text: &Option<String>) -> (r: Option<String>)
    ensures
        r.deep_view() == text.deep_view(),
{
    match text {
        Some(s) => Some(s.clone()),
        None => None,
    }
}

/// The value of an attribute, with or without quotes around it.
#[derive(Debug, PartialEq, Eq)]
pub enum QuotedOrUnquoted {
    Unquoted(String),
    Quoted(String),
}

/// Model of [`QuotedOrUnquoted`].
pub ghost enum QuotedOrUnquotedModel {
    Unquoted(Seq<char>),
    Quoted(Seq<char>),
}

impl DeepView for QuotedOrUnquoted {
    type V = QuotedOrUnquotedModel;

    open spec fn deep_view(&self) -> QuotedOrUnquotedModel {
        match self {
            QuotedOrUnquoted::Unquoted(s) => QuotedOrUnquotedModel::Unquoted(s@),
            QuotedOrUnquoted::Quoted(s) => QuotedOrUnquotedModel::Quoted(s@),
        }
    }
}

impl QuotedOrUnquotedModel {
    /// The text of the value, without its quotes.
    pub open spec fn text(self) -> Seq<char> {
        match self {
            QuotedOrUnquotedModel::Unquoted(s) => s,
            QuotedOrUnquotedModel::Quoted(s) => s,
        }
    }
}

impl QuotedOrUnquoted {
    /// The text of the value, without its quotes.
    pub fn as_str(&self) -> (r: &str)
        ensures
            r@ == self.deep_view().text(),
    {
        match self {
            QuotedOrUnquoted::Unquoted(s) => s.as_str(),
            QuotedOrUnquoted::Quoted(s) => s.as_str(),
        }
    }
}

impl Clone for QuotedOrUnquoted {
    fn clone(&self) -> (r: Self)
        ensures
            r.deep_view() == self.deep_view(),
    {
        match self {
            QuotedOrUnquoted::Unquoted(s) => QuotedOrUnquoted::Unquoted(s.clone()),
            QuotedOrUnquoted::Quoted(s) => QuotedOrUnquoted::Quoted(s.clone()),
        }
    }
}

/// One attribute of a tag, beyond those that the playlist types hold in
/// fields of their own.
#[derive(Debug, PartialEq, Eq)]
pub struct Attribute {
    pub name: String,
    pub value: QuotedOrUnquoted,
}

/// Model of [`Attribute`].
pub ghost struct AttributeModel {
    pub name: Seq<char>,
    pub value: QuotedOrUnquotedModel,
}

impl DeepView for Attribute {
    type V = AttributeModel;

    open spec fn deep_view(&self) -> AttributeModel {
        AttributeModel { name: self.name@, value: self.value.deep_view() }
    }
}

impl Clone for Attribute {
    fn clone(&self) -> (r: Self)
        ensures
            r.deep_view() == self.deep_view(),
    {
        Attribute { name: self.name.clone(), value: self.value.clone() }
    }
}

/// A byte range as a playlist gives it: the offset may be left out, and then
/// the range starts where the one before it ended.
#[derive(Debug, Clone, Copy, PartialEq, Eq, Structural)]
pub struct M3u8ByteRange {
    pub length: u64,
    pub offset: Option<u64>,
}

impl DeepView for M3u8ByteRange {
    type V = M3u8ByteRange;

    open spec fn deep_view(&self) -> M3u8ByteRange {
        *self
    }
}

/// How the segments that follow a key are encrypted.
#[derive(Debug, Clone, PartialEq, Eq)]
pub enum KeyMethod {
    Unencrypted,
    AES128,
    SampleAES,
    Other(String),
}

/// Model of [`KeyMethod`].
pub ghost enum KeyMethodModel {
    Unencrypted,
    AES128,
    SampleAES,
    Other(Seq<char>),
}

impl DeepView for KeyMethod {
    type V = KeyMethodModel;

    open spec fn deep_view(&self) -> KeyMethodModel {
        match self {
            KeyMethod::Unencrypted => KeyMethodModel::Unencrypted,
            KeyMethod::AES128 => KeyMethodModel::AES128,
            KeyMethod::SampleAES => KeyMethodModel::SampleAES,
            KeyMethod::Other(s) => KeyMethodModel::Other(s@),
        }
    }
}

/// The encryption key in effect from a segment on.
#[derive(Debug, Clone, PartialEq, Eq)]
pub struct Key {
    pub method: KeyMethod,
    pub uri: Option<String>,
    pub iv: Option<String>,
    pub keyformat: Option<String>,
    pub keyformatversions: Option<String>,
}

/// Model of [`Key`].
pub ghost struct KeyModel {
    pub method: KeyMethodModel,
    pub uri: Option<Seq<char>>,
    pub iv: Option<Seq<char>>,
    pub keyformat: Option<Seq<char>>,
    pub keyformatversions: Option<Seq<char>>,
}

impl DeepView for Key {
    type V = KeyModel;

    open spec fn deep_view(&self) -> KeyModel {
        KeyModel {
            method: self.method.deep_view(),
            uri: self.uri.deep_view(),
            iv: self.iv.deep_view(),
            keyformat: self.keyformat.deep_view(),
            keyformatversions: self.keyformatversions.deep_view(),
        }
    }
}

/// The initialization section in effect from a segment on.
#[derive(Debug, Clone, PartialEq, Eq)]
pub struct InitMap {
    pub uri: String,
    pub byte_range: Option<M3u8ByteRange>,
    pub other_attributes: Vec<Attribute>,
}

/// Model of [`InitMap`].
pub ghost struct InitMapModel {
    pub uri: Seq<char>,
    pub byte_range: Option<M3u8ByteRange>,
    pub other_attributes: Seq<AttributeModel>,
}

impl DeepView for InitMap {
    type V = InitMapModel;

    open spec fn deep_view(&self) -> InitMapModel {
        InitMapModel {
            uri: self.uri@,
            byte_range: self.byte_range,
            other_attributes: self.other_attributes.deep_view(),
        }
    }
}

/// One media segment of a media playlist.
#[derive(Debug, Clone, PartialEq, Eq)]
pub struct MediaSegment {
    pub uri: String,
    /// The segment's duration in milliseconds.
    pub duration: u64,
    pub byte_range: Option<M3u8ByteRange>,
    pub key: Option<Key>,
    pub map: Option<InitMap>,
    pub unknown_tags: Vec<ExtTag>,
}

/// Model of [`MediaSegment`].
pub ghost struct MediaSegmentModel {
    pub uri: Seq<char>,
    pub duration: u64,
    pub byte_range: Option<M3u8ByteRange>,
    pub key: Option<KeyModel>,
    pub map: Option<InitMapModel>,
    pub unknown_tags: Seq<ExtTagModel>,
}

impl DeepView for MediaSegment {
    type V = MediaSegmentModel;

    open spec fn deep_view(&self) -> MediaSegmentModel {
        MediaSegmentModel {
            uri: self.uri@,
            duration: self.duration,
            byte_range: self.byte_range,
            key: self.key.deep_view(),
            map: self.map.deep_view(),
            unknown_tags: self.unknown_tags.deep_view(),
        }
    }
}

/// A media playlist: a window of consecutive segments, the first of which
/// has the sequence number `media_sequence`.
#[derive(Debug, Clone, PartialEq, Eq)]
pub struct MediaPlaylist {
    pub media_sequence: u64,
    pub segments: Vec<MediaSegment>,
    pub end_list: bool,
    /// The longest segment duration that the playlist announces, in seconds.
    pub target_duration: u64,
    pub unknown_tags: Vec<ExtTag>,
}

/// Model of [`MediaPlaylist`].
pub ghost struct MediaPlaylistModel {
    pub media_sequence: u64,
    pub segments: Seq<MediaSegmentModel>,
    pub end_list: bool,
    pub target_duration: u64,
    pub unknown_tags: Seq<ExtTagModel>,
}

impl DeepView for MediaPlaylist {
    type V = MediaPlaylistModel;

    open spec fn deep_view(&self) -> MediaPlaylistModel {
        MediaPlaylistModel {
            media_sequence: self.media_sequence,
            segments: self.segments.deep_view(),
            end_list: self.end_list,
            target_duration: self.target_duration,
            unknown_tags: self.unknown_tags.deep_view(),
        }
    }
}

/// The closed-captions attribute of a variant stream.
#[derive(Debug, PartialEq, Eq)]
pub enum ClosedCaptionGroupId {
    /// The variant has no closed captions.
    NoCaptions,
    /// The group of the variant's closed captions.
    GroupId(String),
    /// A value that is neither.
    Other(String),
}

/// Model of [`ClosedCaptionGroupId`].
pub ghost enum ClosedCaptionGroupIdModel {
    NoCaptions,
    GroupId(Seq<char>),
    Other(Seq<char>),
}

impl DeepView for ClosedCaptionGroupId {
    type V = ClosedCaptionGroupIdModel;

    open spec fn deep_view(&self) -> ClosedCaptionGroupIdModel {
        match self {
            ClosedCaptionGroupId::NoCaptions => ClosedCaptionGroupIdModel::NoCaptions,
            ClosedCaptionGroupId::GroupId(s) => ClosedCaptionGroupIdModel::GroupId(s@),
            ClosedCaptionGroupId::Other(s) => ClosedCaptionGroupIdModel::Other(s@),
        }
    }
}

/// One variant of a master playlist.
#[derive(Debug, PartialEq, Eq)]
pub struct VariantStream {
    pub uri: String,
    pub bandwidth: u64,
    pub audio: Option<String>,
    pub video: Option<String>,
    pub subtitles: Option<String>,
    pub closed_captions: Option<ClosedCaptionGroupId>,
    pub other_attributes: Vec<Attribute>,
}

/// Model of [`VariantStream`].
pub ghost struct VariantStreamModel {
    pub uri: Seq<char>,
    pub bandwidth: u64,
    pub audio: Option<Seq<char>>,
    pub video: Option<Seq<char>>,
    pub subtitles: Option<Seq<char>>,
    pub closed_captions: Option<ClosedCaptionGroupIdModel>,
    pub other_attributes: Seq<AttributeModel>,
}

impl DeepView for VariantStream {
    type V = VariantStreamModel;

    open spec fn deep_view(&self) -> VariantStreamModel {
        VariantStreamModel {
            uri: self.uri@,
            bandwidth: self.bandwidth,
            audio: self.audio.deep_view(),
            video: self.video.deep_view(),
            subtitles: self.subtitles.deep_view(),
            closed_captions: self.closed_captions.deep_view(),
            other_attributes: self.other_attributes.deep_view(),
        }
    }
}

/// The kind of an alternative rendition.
#[derive(Debug, PartialEq, Eq)]
pub enum AlternativeMediaType {
    Audio,
    Video,
    Subtitles,
    ClosedCaptions,
    Other(String),
}

/// Model of [`AlternativeMediaType`].
pub ghost enum AlternativeMediaTypeModel {
    Audio,
    Video,
    Subtitles,
    ClosedCaptions,
    Other(Seq<char>),
}

impl DeepView for AlternativeMediaType {
    type V = AlternativeMediaTypeModel;

    open spec fn deep_view(&self) -> AlternativeMediaTypeModel {
        match self {
            AlternativeMediaType::Audio => AlternativeMediaTypeModel::Audio,
            AlternativeMediaType::Video => AlternativeMediaTypeModel::Video,
            AlternativeMediaType::Subtitles => AlternativeMediaTypeModel::Subtitles,
            AlternativeMediaType::ClosedCaptions => AlternativeMediaTypeModel::ClosedCaptions,
            AlternativeMediaType::Other(s) => AlternativeMediaTypeModel::Other(s@),
        }
    }
}

/// One alternative rendition of a master playlist.
#[derive(Debug, PartialEq, Eq)]
pub struct AlternativeMedia {
    pub media_type: AlternativeMediaType,
    pub uri: Option<String>,
    pub group_id: String,
    pub default: bool,
    pub other_attributes: Vec<Attribute>,
}

/// Model of [`AlternativeMedia`].
pub ghost struct AlternativeMediaModel {
    pub media_type: AlternativeMediaTypeModel,
    pub uri: Option<Seq<char>>,
    pub group_id: Seq<char>,
    pub default: bool,
    pub other_attributes: Seq<AttributeModel>,
}

impl DeepView for AlternativeMedia {
    type V = AlternativeMediaModel;

    open spec fn deep_view(&self) -> AlternativeMediaModel {
        AlternativeMediaModel {
            media_type: self.media_type.deep_view(),
            uri: self.uri.deep_view(),
            group_id: self.group_id@,
            default: self.default,
            other_attributes: self.other_attributes.deep_view(),
        }
    }
}

/// A master playlist: its variants and its alternative renditions.
#[derive(Debug, Clone, PartialEq, Eq)]
pub struct MasterPlaylist {
    pub variants: Vec<VariantStream>,
    pub alternatives: Vec<AlternativeMedia>,
}

/// Model of [`MasterPlaylist`].
pub ghost struct MasterPlaylistModel {
    pub variants: Seq<VariantStreamModel>,
    pub alternatives: Seq<AlternativeMediaModel>,
}

impl DeepView for MasterPlaylist {
    type V = MasterPlaylistModel;

    open spec fn deep_view(&self) -> MasterPlaylistModel {
        MasterPlaylistModel {
            variants: self.variants.deep_view(),
            alternatives: self.alternatives.deep_view(),
        }
    }
}

/// A copy of a list of attributes.
pub fn clone_attributes(attributes: &Vec<Attribute>) -> (r: Vec<Attribute>)
    ensures
        r.deep_view() == attributes.deep_view(),
{
    let mut out: Vec<Attribute> = Vec::new();
    let mut i: usize = 0;
    while i < attributes.len()
        invariant
            i <= attributes.len(),
            out.deep_view() =~= attributes.deep_view().take(i as int),
        decreases attributes.len() - i,
    {
        let ghost before = out.deep_view();
        let copy = attributes[i].clone();
        out.push(copy);
        assert(out.deep_view() =~= before.push(copy.deep_view()));
        i += 1;
    }
    assert(attributes.deep_view().take(attributes@.len() as int) =~= attributes.deep_view());
    out
}

impl Clone for ClosedCaptionGroupId {
    fn clone(&self) -> (r: Self)
        ensures
            r.deep_view() == self.deep_view(),
    {
        match self {
            ClosedCaptionGroupId::NoCaptions => ClosedCaptionGroupId::NoCaptions,
            ClosedCaptionGroupId::GroupId(s) => ClosedCaptionGroupId::GroupId(s.clone()),
            ClosedCaptionGroupId::Other(s) => ClosedCaptionGroupId::Other(s.clone()),
        }
    }
}

impl Clone for VariantStream {
    fn clone(&self) -> (r: Self)
        ensures
            r.deep_view() == self.deep_view(),
    {
        VariantStream {
            uri: self.uri.clone(),
            bandwidth: self.bandwidth,
            audio: clone_text(&self.audio),
            video: clone_text(&self.video),
            subtitles: clone_text(&self.subtitles),
            closed_captions: match &self.closed_captions {
                Some(group) => Some(group.clone()),
                None => None,
            },
            other_attributes: clone_attributes(&self.other_attributes),
        }
    }
}

impl Clone for AlternativeMediaType {
    fn clone(&self) -> (r: Self)
        ensures
            r.deep_view() == self.deep_view(),
    {
        match self {
            AlternativeMediaType::Audio => AlternativeMediaType::Audio,
            AlternativeMediaType::Video => AlternativeMediaType::Video,
            AlternativeMediaType::Subtitles => AlternativeMediaType::Subtitles,
            AlternativeMediaType::ClosedCaptions => AlternativeMediaType::ClosedCaptions,
            AlternativeMediaType::Other(s) => AlternativeMediaType::Other(s.clone()),
        }
    }
}

impl Clone for AlternativeMedia {
    fn clone(&self) -> (r: Self)
        ensures
            r.deep_view() == self.deep_view(),
    {
        AlternativeMedia {
            media_type: self.media_type.clone(),
            uri: clone_text(&self.uri),
            group_id: self.group_id.clone(),
            default: self.default,
            other_attributes: clone_attributes(&self.other_attributes),
        }
    }
}

} // verus!
