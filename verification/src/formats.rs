//! The formats that yt-dlp reports for a URL, and the ones that are offered to users.

use crate::lists::lemma_filter_keeps_all;
use crate::size::{human_readable_bytes, size_text};
use crate::text::{opt_str, opt_text, same_text};
use vstd::prelude::*;
use vstd::string::*;

verus! {

/// A codec as yt-dlp reports it.
#[derive(Debug)]
pub enum Codec {
    /// The stream is absent.
    Absent,
    /// The name of the codec.
    Named(String),
}

/// A resolution as yt-dlp reports it.
#[derive(Debug)]
pub enum Resolution {
    /// There is no picture.
    Absent,
    /// The resolution.
    Named(String),
}

impl Codec {
    /// The name of the codec, where there is one.
    pub open spec fn name(self) -> Option<Seq<char>> {
        match self {
            Codec::Absent => None,
            Codec::Named(x) => Some(x@),
        }
    }

    /// What yt-dlp means by a codec name: `none` says that the stream is absent.
    pub fn from_name(name: String) -> (r: Codec)
        ensures
            r.name() == (if name@ == "none"@ {
                None
            } else {
                Some(name@)
            }),
            name@ == "none"@ ==> r is Absent,
            name@ != "none"@ ==> r == Codec::Named(name),
    {
        if same_text(name.as_str(), "none") {
            Codec::Absent
        } else {
            Codec::Named(name)
        }
    }

    /// The name of the codec, where there is one.
    pub fn as_option(&self) -> (r: Option<&str>)
        ensures
            opt_str(r) == self.name(),
            match (r, *self) {
                (Some(s), Codec::Named(x)) => s@ == x@,
                (None, Codec::Absent) => true,
                _ => false,
            },
    {
        match self {
            Codec::Absent => None,
            Codec::Named(x) => Some(x.as_str()),
        }
    }
}

impl Resolution {
    /// The resolution, where there is one.
    pub open spec fn name(self) -> Option<Seq<char>> {
        match self {
            Resolution::Absent => None,
            Resolution::Named(x) => Some(x@),
        }
    }

    /// What yt-dlp means by a resolution: `audio only` says that there is no picture.
    pub fn from_name(name: String) -> (r: Resolution)
        ensures
            r.name() == (if name@ == "audio only"@ {
                None
            } else {
                Some(name@)
            }),
            name@ == "audio only"@ ==> r is Absent,
            name@ != "audio only"@ ==> r == Resolution::Named(name),
    {
        if same_text(name.as_str(), "audio only") {
            Resolution::Absent
        } else {
            Resolution::Named(name)
        }
    }

    /// The resolution, where there is one.
    pub fn as_option(&self) -> (r: Option<&str>)
        ensures
            opt_str(r) == self.name(),
            match (r, *self) {
                (Some(s), Resolution::Named(x)) => s@ == x@,
                (None, Resolution::Absent) => true,
                _ => false,
            },
    {
        match self {
            Resolution::Absent => None,
            Resolution::Named(x) => Some(x.as_str()),
        }
    }
}

/// A format as yt-dlp reports it.
#[derive(Debug)]
pub struct RawFormat {
    pub format_id: String,
    pub acodec: Option<Codec>,
    pub vcodec: Option<Codec>,
    pub resolution: Resolution,
    pub filesize_approx: Option<u64>,
}

/// What is known of a format: the streams that it holds and its size.
pub struct FormatFacts {
    pub format_id: Seq<char>,
    pub acodec: Option<Seq<char>>,
    pub vcodec: Option<Seq<char>>,
    pub resolution: Option<Seq<char>>,
    pub filesize_approx: Option<u64>,
}

/// The name of a codec that may not have been reported at all.
pub open spec fn codec_name(c: Option<Codec>) -> Option<Seq<char>> {
    match c {
        Some(c) => c.name(),
        None => None,
    }
}

impl View for RawFormat {
    type V = FormatFacts;

    open spec fn view(&self) -> FormatFacts {
        FormatFacts {
            format_id: self.format_id@,
            acodec: codec_name(self.acodec),
            vcodec: codec_name(self.vcodec),
            resolution: self.resolution.name(),
            filesize_approx: self.filesize_approx,
        }
    }
}

impl FormatFacts {
    /// A format is of use where it holds sound or a picture and its size is known.
    pub open spec fn useful(self) -> bool {
        (self.acodec is Some || self.vcodec is Some) && self.filesize_approx is Some
    }
}

impl RawFormat {
    /// The sound codec, where there is sound.
    pub fn acodec(&self) -> (r: Option<&str>)
        ensures
            opt_str(r) == self@.acodec,
    {
        match &self.acodec {
            Some(x) => x.as_option(),
            None => None,
        }
    }

    /// The picture codec, where there is a picture.
    pub fn vcodec(&self) -> (r: Option<&str>)
        ensures
            opt_str(r) == self@.vcodec,
    {
        match &self.vcodec {
            Some(x) => x.as_option(),
            None => None,
        }
    }

    /// The resolution, where there is a picture.
    pub fn resolution(&self) -> (r: Option<&str>)
        ensures
            opt_str(r) == self@.resolution,
    {
        self.resolution.as_option()
    }

    /// The approximate size, where it is known.
    pub fn filesize_approx(&self) -> (r: Option<u64>)
        ensures
            r == self@.filesize_approx,
    {
        self.filesize_approx
    }

    /// The approximate size for people to read, where it is known.
    pub fn filesize_approx_human(&self) -> (r: Option<String>)
        ensures
            opt_text(r) == (match self@.filesize_approx {
                Some(n) => Some(size_text(n as nat)),
                None => None,
            }),
    {
        match self.filesize_approx {
            Some(n) => Some(human_readable_bytes(n)),
            None => None,
        }
    }

    /// Whether the format is worth offering.
    fn is_useful(&self) -> (r: bool)
        ensures
            r == self@.useful(),
    {
        (self.acodec().is_some() || self.vcodec().is_some()) && self.filesize_approx().is_some()
    }
}

/// What yt-dlp reports for a URL.
#[derive(Debug)]
pub struct RawDump {
    pub title: String,
    pub formats: Vec<RawFormat>,
    pub thumbnail: Option<String>,
}

/// The facts of each format, in order.
pub open spec fn facts(formats: Seq<RawFormat>) -> Seq<FormatFacts> {
    formats.map_values(|f: RawFormat| f@)
}

/// The formats that are of use, in the order in which they were reported.
pub open spec fn useful_ones(formats: Seq<FormatFacts>) -> Seq<FormatFacts> {
    formats.filter(|f: FormatFacts| f.useful())
}

impl RawDump {
    /// Drops the formats without sound and picture and those of unknown size.
    pub fn strip_useless_formats(&mut self)
        ensures
            facts(final(self).formats@) == useful_ones(facts(old(self).formats@)),
            final(self).formats@ == old(self).formats@.filter(|f: RawFormat| f@.useful()),
            final(self).title == old(self).title,
            final(self).thumbnail == old(self).thumbnail,
    {
        let mut all: Vec<RawFormat> = Vec::new();
        std::mem::swap(&mut all, &mut self.formats);
        let ghost whole = all@;
        let ghost pred = |f: RawFormat| f@.useful();
        let ghost pred_facts = |f: FormatFacts| f.useful();
        let mut kept: Vec<RawFormat> = Vec::new();
        for f in iter: all
            invariant
                iter.seq() == whole,
                pred == (|f: RawFormat| f@.useful()),
                pred_facts == (|f: FormatFacts| f.useful()),
                kept@ == whole.take(iter.index()).filter(pred),
                facts(kept@) == facts(whole.take(iter.index())).filter(pred_facts),
        {
            let ghost i = iter.index();
            proof {
                let part = whole.take(i + 1);
                assert(part.drop_last() =~= whole.take(i));
                reveal(Seq::filter);
                assert(facts(part).drop_last() =~= facts(whole.take(i)));
            }
            if f.is_useful() {
                kept.push(f);
            }
        }
        proof {
            assert(whole.take(whole.len() as int) =~= whole);
        }
        self.formats = kept;
    }
}

/// Why a format cannot be offered.
#[derive(Debug, Clone, Copy, PartialEq, Eq, Structural)]
pub enum FormatError {
    /// There is a picture, but its resolution is unknown.
    NoResolution,
    /// There is neither sound nor picture.
    NoCodec,
}

impl FormatError {
    /// The sentence for this error.
    pub open spec fn text(self) -> Seq<char> {
        match self {
            FormatError::NoResolution => "No resolution for video"@,
            FormatError::NoCodec => "No audio or video codec"@,
        }
    }

    /// The sentence for this error.
    pub fn message(&self) -> (r: String)
        ensures
            r@ == self.text(),
    {
        match self {
            FormatError::NoResolution => "No resolution for video".to_owned(),
            FormatError::NoCodec => "No audio or video codec".to_owned(),
        }
    }
}

/// The picture of a format.
#[derive(Debug)]
pub struct Video {
    pub codec: String,
    pub resolution: String,
}

/// The streams of a format.
#[derive(Debug)]
pub enum FormatKind {
    Video(Video),
    Audio(String),
    Both { video: Video, audio: String },
}

/// The streams of a format: codec and resolution of the picture, codec of the sound.
pub enum Streams {
    Video(Seq<char>, Seq<char>),
    Audio(Seq<char>),
    Both(Seq<char>, Seq<char>, Seq<char>),
}

impl View for FormatKind {
    type V = Streams;

    open spec fn view(&self) -> Streams {
        match self {
            FormatKind::Video(v) => Streams::Video(v.codec@, v.resolution@),
            FormatKind::Audio(a) => Streams::Audio(a@),
            FormatKind::Both { video, audio } => Streams::Both(
                video.codec@,
                video.resolution@,
                audio@,
            ),
        }
    }
}

/// The approximate size of a file.
#[derive(Debug)]
pub struct Filesize {
    pub bytes: u64,
    pub human_readable: String,
}

/// A format as it is offered.
#[derive(Debug)]
pub struct YtdlFormat {
    pub format_id: String,
    pub kind: FormatKind,
    pub filesize_approx: Filesize,
}

/// A format as it is offered.
pub struct Offer {
    pub format_id: Seq<char>,
    pub kind: Streams,
    pub bytes: u64,
    pub human_readable: Seq<char>,
}

impl View for YtdlFormat {
    type V = Offer;

    open spec fn view(&self) -> Offer {
        Offer {
            format_id: self.format_id@,
            kind: self.kind@,
            bytes: self.filesize_approx.bytes,
            human_readable: self.filesize_approx.human_readable@,
        }
    }
}

/// The streams of a format, or why it cannot be offered.
pub open spec fn streams(f: FormatFacts) -> Result<Streams, FormatError> {
    match (f.acodec, f.vcodec) {
        (Some(audio), Some(video)) => match f.resolution {
            Some(resolution) => Ok(Streams::Both(video, resolution, audio)),
            None => Err(FormatError::NoResolution),
        },
        (Some(audio), None) => Ok(Streams::Audio(audio)),
        (None, Some(video)) => match f.resolution {
            Some(resolution) => Ok(Streams::Video(video, resolution)),
            None => Err(FormatError::NoResolution),
        },
        (None, None) => Err(FormatError::NoCodec),
    }
}

/// How a format is offered, or why it cannot be. An unknown size is offered as no bytes,
/// with an empty text.
pub open spec fn offer(f: FormatFacts) -> Result<Offer, FormatError> {
    match streams(f) {
        Ok(kind) => Ok(
            Offer {
                format_id: f.format_id,
                kind,
                bytes: match f.filesize_approx {
                    Some(n) => n,
                    None => 0,
                },
                human_readable: match f.filesize_approx {
                    Some(n) => size_text(n as nat),
                    None => Seq::empty(),
                },
            },
        ),
        Err(e) => Err(e),
    }
}

/// The offers for those formats that can be offered, in order.
pub open spec fn offers(formats: Seq<FormatFacts>) -> Seq<Offer>
    decreases formats.len(),
{
    if formats.len() == 0 {
        Seq::empty()
    } else {
        let rest = offers(formats.drop_last());
        match offer(formats.last()) {
            Ok(o) => rest.push(o),
            Err(_) => rest,
        }
    }
}

impl YtdlFormat {
    /// The picture of a format with this codec.
    fn video_of(codec: &str, resolution: Option<&str>) -> (r: Result<Video, FormatError>)
        ensures
            match (r, opt_str(resolution)) {
                (Ok(v), Some(t)) => v.codec@ == codec@ && v.resolution@ == t,
                (Err(e), None) => e == FormatError::NoResolution,
                _ => false,
            },
    {
        match resolution {
            Some(t) => Ok(Video { codec: codec.to_owned(), resolution: t.to_owned() }),
            None => Err(FormatError::NoResolution),
        }
    }

    /// The streams of a format.
    fn kind_of(format: &RawFormat) -> (r: Result<FormatKind, FormatError>)
        ensures
            match (r, streams(format@)) {
                (Ok(a), Ok(b)) => a@ == b,
                (Err(a), Err(b)) => a == b,
                _ => false,
            },
    {
        match (format.acodec(), format.vcodec()) {
            (Some(audio), Some(video)) => match Self::video_of(video, format.resolution()) {
                Ok(video) => Ok(FormatKind::Both { video, audio: audio.to_owned() }),
                Err(e) => Err(e),
            },
            (Some(audio), None) => Ok(FormatKind::Audio(audio.to_owned())),
            (None, Some(video)) => match Self::video_of(video, format.resolution()) {
                Ok(video) => Ok(FormatKind::Video(video)),
                Err(e) => Err(e),
            },
            (None, None) => Err(FormatError::NoCodec),
        }
    }

    /// Makes the offer for a format.
    pub fn try_from(format: RawFormat) -> (r: Result<YtdlFormat, FormatError>)
        ensures
            match (r, offer(format@)) {
                (Ok(a), Ok(b)) => a@ == b,
                (Err(a), Err(b)) => a == b,
                _ => false,
            },
    {
        let kind = match Self::kind_of(&format) {
            Ok(kind) => kind,
            Err(e) => {
                return Err(e);
            },
        };
        let bytes: u64 = match format.filesize_approx() {
            Some(n) => n,
            None => 0,
        };
        let human_readable = match format.filesize_approx_human() {
            Some(t) => t,
            None => String::new(),
        };
        Ok(
            YtdlFormat {
                format_id: format.format_id,
                kind,
                filesize_approx: Filesize { bytes, human_readable },
            },
        )
    }
}

/// What is offered for a URL.
#[derive(Debug)]
pub struct YtdlDump {
    pub title: String,
    pub formats: Vec<YtdlFormat>,
    pub thumbnail: Option<String>,
}

impl YtdlDump {
    /// The offers, in order.
    pub open spec fn offered(self) -> Seq<Offer> {
        self.formats@.map_values(|f: YtdlFormat| f@)
    }

    /// Makes the offers for what yt-dlp reports; formats that cannot be offered are left out.
    pub fn from(dump: RawDump) -> (r: YtdlDump)
        ensures
            r.title == dump.title,
            r.thumbnail == dump.thumbnail,
            r.offered() == offers(facts(dump.formats@)),
    {
        let ghost whole = dump.formats@;
        let mut formats: Vec<YtdlFormat> = Vec::new();
        for f in iter: dump.formats
            invariant
                iter.seq() == whole,
                formats@.map_values(|f: YtdlFormat| f@) == offers(facts(whole.take(iter.index()))),
        {
            let ghost i = iter.index();
            let ghost done = formats@.map_values(|f: YtdlFormat| f@);
            proof {
                let part = facts(whole.take(i + 1));
                assert(part.drop_last() =~= facts(whole.take(i)));
                assert(part.last() == f@);
            }
            match YtdlFormat::try_from(f) {
                Ok(y) => {
                    formats.push(y);
                    assert(formats@.map_values(|f: YtdlFormat| f@) =~= done.push(y@));
                },
                Err(_) => {},
            }
        }
        assert(whole.take(whole.len() as int) =~= whole);
        YtdlDump { title: dump.title, formats, thumbnail: dump.thumbnail }
    }
}

/// Why formats cannot be offered, for each that cannot be, in order.
pub open spec fn refusals(formats: Seq<FormatFacts>) -> Seq<FormatError>
    decreases formats.len(),
{
    if formats.len() == 0 {
        Seq::empty()
    } else {
        let rest = refusals(formats.drop_last());
        match offer(formats.last()) {
            Ok(_) => rest,
            Err(e) => rest.push(e),
        }
    }
}

/// Why useful formats are left out of the answer to a query, for each that is, in order.
pub fn refused_formats(dump: &RawDump) -> (r: Vec<FormatError>)
    ensures
        r@ == refusals(useful_ones(facts(dump.formats@))),
{
    let ghost all = facts(dump.formats@);
    let mut r: Vec<FormatError> = Vec::new();
    let mut i: usize = 0;
    proof {
        reveal(Seq::filter);
    }
    assert(useful_ones(all.take(0)) =~= Seq::<FormatFacts>::empty());
    while i < dump.formats.len()
        invariant
            i <= dump.formats@.len(),
            all == facts(dump.formats@),
            r@ == refusals(useful_ones(all.take(i as int))),
        decreases dump.formats@.len() - i,
    {
        let ghost done = useful_ones(all.take(i as int));
        proof {
            reveal(Seq::filter);
            let part = all.take(i + 1);
            assert(part.drop_last() =~= all.take(i as int));
            assert(part.last() == dump.formats@[i as int]@);
            assert(done.push(part.last()).drop_last() =~= done);
        }
        if dump.formats[i].is_useful() {
            match YtdlFormat::kind_of(&dump.formats[i]) {
                Ok(_) => {},
                Err(e) => r.push(e),
            }
        }
        i += 1;
    }
    assert(all.take(all.len() as int) =~= all);
    r
}

/// Answers a query for formats from yt-dlp's output and what was read from it: where it
/// could not be read, the output itself is the error.
pub fn get_formats(output: &str, dump: Option<RawDump>) -> (r: Result<YtdlDump, String>)
    ensures
        match (r, dump) {
            (Ok(y), Some(d)) => {
                &&& y.title == d.title
                &&& y.thumbnail == d.thumbnail
                &&& y.offered() == offers(useful_ones(facts(d.formats@)))
            },
            (Err(e), None) => e@ == output@,
            _ => false,
        },
{
    match dump {
        Some(d) => {
            let mut d = d;
            d.strip_useless_formats();
            Ok(YtdlDump::from(d))
        },
        None => Err(output.to_owned()),
    }
}

proof fn lemma_useful_ones_are_useful(formats: Seq<FormatFacts>, i: int)
    requires
        0 <= i < useful_ones(formats).len(),
    ensures
        useful_ones(formats)[i].useful(),
        formats.contains(useful_ones(formats)[i]),
{
    let pred = |f: FormatFacts| f.useful();
    formats.lemma_filter_pred(pred, i);
    formats.lemma_filter_contains_rev(pred, formats.filter(pred)[i]);
}

/// Every offer stems from a reported format.
proof fn lemma_offers_stem_from_formats(formats: Seq<FormatFacts>, i: int) -> (j: int)
    requires
        0 <= i < offers(formats).len(),
    ensures
        0 <= j < formats.len(),
        offer(formats[j]) == Ok::<Offer, FormatError>(offers(formats)[i]),
    decreases formats.len(),
{
    let rest = offers(formats.drop_last());
    if i < rest.len() {
        lemma_offers_stem_from_formats(formats.drop_last(), i)
    } else {
        formats.len() - 1
    }
}

/// Dropping useless formats a second time drops nothing.
pub proof fn law_strip_twice(formats: Seq<FormatFacts>)
    ensures
        useful_ones(useful_ones(formats)) == useful_ones(formats),
{
    let once = useful_ones(formats);
    assert forall|i: int| 0 <= i < once.len() implies once[i].useful() by {
        lemma_useful_ones_are_useful(formats, i);
    }
    lemma_filter_keeps_all(once, |f: FormatFacts| f.useful());
}

/// Every format in the answer to a query was reported, holds sound or a picture, and carries
/// the size that was reported for it.
pub proof fn law_offers_are_useful(formats: Seq<FormatFacts>, i: int)
    requires
        0 <= i < offers(useful_ones(formats)).len(),
    ensures
        exists|j: int|
            0 <= j < formats.len() && (#[trigger] formats[j]).useful() && offer(formats[j]) == Ok::<
                Offer,
                FormatError,
            >(offers(useful_ones(formats))[i]) && formats[j].filesize_approx == Some(
                offers(useful_ones(formats))[i].bytes,
            ),
{
    let k = lemma_offers_stem_from_formats(useful_ones(formats), i);
    lemma_useful_ones_are_useful(formats, k);
    let f = useful_ones(formats)[k];
    let j = choose|j: int| 0 <= j < formats.len() && formats[j] == f;
    assert(formats[j].useful());
}

/// Every offer carries what was reported for its format, unchanged: its id, the codecs and the
/// resolution of its streams, and its size. A format with sound and picture is offered as both,
/// one with a single stream as that one.
pub proof fn law_offers_carry_what_was_reported(f: FormatFacts)
    ensures
        offer(f) matches Ok(o) ==> {
            &&& o.format_id == f.format_id
            &&& match o.kind {
                Streams::Both(v, r, a) => f.vcodec == Some(v) && f.resolution == Some(r) && f.acodec
                    == Some(a),
                Streams::Video(v, r) => f.acodec is None && f.vcodec == Some(v) && f.resolution
                    == Some(r),
                Streams::Audio(a) => f.vcodec is None && f.acodec == Some(a),
            }
            &&& f.filesize_approx matches Some(n) ==> o.bytes == n && o.human_readable == size_text(
                n as nat,
            )
            &&& f.filesize_approx is None ==> o.bytes == 0 && o.human_readable.len() == 0
        },
        offer(f) is Ok <==> (f.acodec is Some && f.vcodec is None) || (f.vcodec is Some
            && f.resolution is Some),
{
}

/// The same of the formats themselves: what stands in an offer is what stands in the report, field
/// by field.
pub proof fn law_offered_fields_are_reported_fields(f: RawFormat, y: YtdlFormat)
    requires
        offer(f@) == Ok::<Offer, FormatError>(y@),
    ensures
        y.format_id@ == f.format_id@,
        match y.kind {
            FormatKind::Both { video, audio } => {
                &&& f.acodec matches Some(Codec::Named(a)) && a@ == audio@
                &&& f.vcodec matches Some(Codec::Named(v)) && v@ == video.codec@
                &&& f.resolution matches Resolution::Named(t) && t@ == video.resolution@
            },
            FormatKind::Video(video) => {
                &&& !(f.acodec matches Some(Codec::Named(_)))
                &&& f.vcodec matches Some(Codec::Named(v)) && v@ == video.codec@
                &&& f.resolution matches Resolution::Named(t) && t@ == video.resolution@
            },
            FormatKind::Audio(audio) => {
                &&& f.acodec matches Some(Codec::Named(a)) && a@ == audio@
                &&& !(f.vcodec matches Some(Codec::Named(_)))
            },
        },
        f.filesize_approx matches Some(n) ==> y.filesize_approx.bytes == n
            && y.filesize_approx.human_readable@ == size_text(n as nat),
        f.filesize_approx is None ==> y.filesize_approx.bytes == 0
            && y.filesize_approx.human_readable@.len() == 0,
{
}

/// A format is refused for want of a codec exactly where it has neither sound nor picture, and for
/// want of a resolution exactly where it has a picture without one.
pub proof fn law_reasons_for_refusing(f: RawFormat)
    ensures
        offer(f@) == Err::<Offer, FormatError>(FormatError::NoCodec) <==> !(
        f.acodec matches Some(Codec::Named(_))) && !(f.vcodec matches Some(Codec::Named(_))),
        offer(f@) == Err::<Offer, FormatError>(FormatError::NoResolution) <==> (
        f.vcodec matches Some(Codec::Named(_))) && f.resolution is Absent,
        FormatError::NoCodec.text() == "No audio or video codec"@,
        FormatError::NoResolution.text() == "No resolution for video"@,
{
}

/// A format is of use exactly where it names a codec for sound or for a picture and its size is
/// known.
pub proof fn law_useful_formats(f: RawFormat)
    ensures
        f@.useful() <==> {
            &&& (f.acodec matches Some(Codec::Named(_))) || (f.vcodec matches Some(Codec::Named(_)))
            &&& f.filesize_approx is Some
        },
        f@.format_id == f.format_id@,
        f@.filesize_approx == f.filesize_approx,
        f@.acodec == (match f.acodec {
            Some(Codec::Named(x)) => Some(x@),
            _ => None,
        }),
        f@.vcodec == (match f.vcodec {
            Some(Codec::Named(x)) => Some(x@),
            _ => None,
        }),
        f@.resolution == (match f.resolution {
            Resolution::Named(x) => Some(x@),
            _ => None,
        }),
{
}

/// Each format is judged by itself: what is of use, what is offered and what is refused of a list
/// is what is of use, offered and refused of its parts, in order.
pub proof fn law_formats_are_judged_one_by_one(a: Seq<FormatFacts>, b: Seq<FormatFacts>, f: FormatFacts)
    ensures
        useful_ones(a + b) == useful_ones(a) + useful_ones(b),
        useful_ones(seq![f]) == (if (f.acodec is Some || f.vcodec is Some) && f.filesize_approx is Some {
            seq![f]
        } else {
            Seq::empty()
        }),
        offers(a + b) == offers(a) + offers(b),
        refusals(a + b) == refusals(a) + refusals(b),
        match offer(f) {
            Ok(o) => offers(seq![f]) == seq![o] && refusals(seq![f]).len() == 0,
            Err(e) => offers(seq![f]).len() == 0 && refusals(seq![f]) == seq![e],
        },
    decreases b.len(),
{
    Seq::filter_distributes_over_add(a, b, |f: FormatFacts| f.useful());
    assert(seq![f].drop_last() =~= Seq::<FormatFacts>::empty());
    reveal(Seq::filter);
    assert(useful_ones(seq![f].drop_last()) =~= Seq::<FormatFacts>::empty());
    assert(offers(seq![f].drop_last()) =~= Seq::<Offer>::empty());
    assert(refusals(seq![f].drop_last()) =~= Seq::<FormatError>::empty());
    if f.useful() {
        assert(useful_ones(seq![f]) =~= seq![f]);
    } else {
        assert(useful_ones(seq![f]) =~= Seq::<FormatFacts>::empty());
    }
    if b.len() == 0 {
        assert(a + b =~= a);
        assert(offers(a) + offers(b) =~= offers(a));
        assert(refusals(a) + refusals(b) =~= refusals(a));
    } else {
        law_formats_are_judged_one_by_one(a, b.drop_last(), f);
        assert((a + b).drop_last() =~= a + b.drop_last());
        assert((a + b).last() == b.last());
        assert(offers(a + b) =~= offers(a) + offers(b));
        assert(refusals(a + b) =~= refusals(a) + refusals(b));
    }
}

/// A list of formats is seen format by format, and so is a list of offers.
pub proof fn law_lists_of_formats(formats: Seq<RawFormat>, dump: YtdlDump)
    ensures
        facts(formats).len() == formats.len(),
        forall|i: int| 0 <= i < formats.len() ==> #[trigger] facts(formats)[i] == formats[i]@,
        dump.offered().len() == dump.formats@.len(),
        forall|i: int|
            0 <= i < dump.formats@.len() ==> #[trigger] dump.offered()[i] == dump.formats@[i]@,
{
}

/// Every format is either offered or refused; none is passed over.
pub proof fn law_no_format_is_passed_over(formats: Seq<FormatFacts>)
    ensures
        offers(formats).len() + refusals(formats).len() == formats.len(),
    decreases formats.len(),
{
    if formats.len() > 0 {
        law_no_format_is_passed_over(formats.drop_last());
    }
}

/// A useful format is left out of the answer only where it has a picture of unknown
/// resolution.
pub proof fn law_useful_formats_are_offered(f: FormatFacts)
    requires
        f.useful(),
    ensures
        offer(f) is Err <==> f.vcodec is Some && f.resolution is None,
        offer(f) matches Err(e) ==> e == FormatError::NoResolution,
{
}

} // verus!
