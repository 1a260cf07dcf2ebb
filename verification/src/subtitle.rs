//! Embedded-subtitle extraction: locate a subtitle stream, gather the
//! cues of its packets, and convert their timing to seconds.
//!
//! The demuxing engine opens the container, enumerates streams and
//! packets, and decodes subtitle payloads into rectangles; the host shell
//! records those observations as plain [`ContainerInfo`] values. This
//! module holds the verified pipeline over them: stream location, the
//! kind check, per-packet text accumulation, timestamp conversion, and
//! the ordered assembly of the result.

use crate::av::{StreamInfo, StreamKind};
use crate::util::{spec_to_seconds, timestamp_to_seconds, Seconds};
use vstd::prelude::*;
use vstd::string::StringExecFns;

verus! {

/// One decoded caption unit of a subtitle packet: plain text, ASS markup
/// text, or bitmap image data (whose pixels are not surfaced).
#[derive(Debug, Clone, PartialEq, Eq)]
pub enum SubtitleRect {
    Text(String),
    Ass(String),
    Bitmap,
}

/// What the host shell reads off one demuxed packet: the stream it
/// belongs to, the optional presentation timestamp and the duration in
/// container ticks, and the subtitle rectangles its payload decodes to.
#[derive(Debug, Clone, PartialEq, Eq)]
pub struct PacketInfo {
    /// Position of the stream this packet belongs to.
    pub stream_index: usize,
    /// Presentation timestamp in ticks, when the packet carries one.
    pub pts: Option<i64>,
    /// Duration in ticks.
    pub duration: i64,
    /// Decoded subtitle rectangles, in decode order.
    pub rects: Vec<SubtitleRect>,
}

/// An opened container as observed by the host shell: its streams and its
/// packets, both in container order.
#[derive(Debug, Clone, PartialEq, Eq)]
pub struct ContainerInfo {
    pub streams: Vec<StreamInfo>,
    pub packets: Vec<PacketInfo>,
}

/// One decoded subtitle cue: presentation time and duration in seconds,
/// and the cue's textual content (empty when the packet held only
/// non-textual rects).
#[derive(Debug, Clone, PartialEq, Eq)]
pub struct SubtitleEntry {
    pub pts: Seconds,
    pub duration: Seconds,
    pub text: String,
}

/// The mathematical value of a [`SubtitleEntry`].
pub struct SubtitleEntryView {
    pub pts: Seconds,
    pub duration: Seconds,
    pub text: Seq<char>,
}

impl View for SubtitleEntry {
    type V = SubtitleEntryView;

    open spec fn view(&self) -> SubtitleEntryView {
        SubtitleEntryView { pts: self.pts, duration: self.duration, text: self.text@ }
    }
}

/// A fully extracted subtitle stream: the decoder's raw format header,
/// kept as opaque text, and the cues in packet-arrival order.
#[derive(Debug, Clone, PartialEq, Eq)]
pub struct ParsedSubtitle {
    pub header: String,
    pub lines: Vec<SubtitleEntry>,
}

/// The mathematical value of a [`ParsedSubtitle`].
pub struct ParsedSubtitleView {
    pub header: Seq<char>,
    pub lines: Seq<SubtitleEntryView>,
}

impl View for ParsedSubtitle {
    type V = ParsedSubtitleView;

    open spec fn view(&self) -> ParsedSubtitleView {
        ParsedSubtitleView {
            header: self.header@,
            lines: self.lines@.map_values(|e: SubtitleEntry| e@),
        }
    }
}

/// The texts of the textual rects of one packet, in rect order; bitmap
/// rects contribute nothing.
pub open spec fn spec_rect_texts(rects: Seq<SubtitleRect>) -> Seq<Seq<char>>
    decreases rects.len(),
{
    if rects.len() == 0 {
        Seq::empty()
    } else {
        let rest = spec_rect_texts(rects.drop_last());
        match rects.last() {
            SubtitleRect::Text(s) => rest.push(s@),
            SubtitleRect::Ass(s) => rest.push(s@),
            SubtitleRect::Bitmap => rest,
        }
    }
}

/// Lines joined with newline separators; no input joins to the empty
/// string.
pub open spec fn spec_join_lines(texts: Seq<Seq<char>>) -> Seq<char>
    decreases texts.len(),
{
    if texts.len() == 0 {
        Seq::empty()
    } else if texts.len() == 1 {
        texts.last()
    } else {
        spec_join_lines(texts.drop_last()) + seq!['\n'] + texts.last()
    }
}

/// The tick count taken as a packet's presentation timestamp: its own, or
/// the maximum representable tick as a sentinel when it carries none.
pub open spec fn spec_pts_ticks(p: PacketInfo) -> i64 {
    match p.pts {
        Some(t) => t,
        None => i64::MAX,
    }
}

/// The cue one packet yields under the timebase `num / den`.
pub open spec fn spec_entry(p: PacketInfo, num: i64, den: i64) -> SubtitleEntryView {
    SubtitleEntryView {
        pts: spec_to_seconds(spec_pts_ticks(p), num, den),
        duration: spec_to_seconds(p.duration, num, den),
        text: spec_join_lines(spec_rect_texts(p.rects@)),
    }
}

/// The cues of the packets that belong to stream `index`, in
/// packet-arrival order.
pub open spec fn spec_lines(packets: Seq<PacketInfo>, index: usize, num: i64, den: i64) -> Seq<
    SubtitleEntryView,
>
    decreases packets.len(),
{
    if packets.len() == 0 {
        Seq::empty()
    } else {
        let rest = spec_lines(packets.drop_last(), index, num, den);
        if packets.last().stream_index == index {
            rest.push(spec_entry(packets.last(), num, den))
        } else {
            rest
        }
    }
}

/// The first stream at position `index`, if any.
pub open spec fn spec_find_stream(streams: Seq<StreamInfo>, index: usize) -> Option<StreamInfo>
    decreases streams.len(),
{
    if streams.len() == 0 {
        None
    } else if streams.first().index == index {
        Some(streams.first())
    } else {
        spec_find_stream(streams.drop_first(), index)
    }
}

/// What extraction returns: nothing for a container that failed to open,
/// an absent stream, or a stream of the wrong kind; otherwise the header
/// and the cues of the target stream's packets.
pub open spec fn spec_extract(container: Option<&ContainerInfo>, index: usize) -> Option<
    ParsedSubtitleView,
> {
    match container {
        None => None,
        Some(ci) => match spec_find_stream(ci.streams@, index) {
            None => None,
            Some(s) => if s.spec_kind() != StreamKind::Subtitle {
                None
            } else {
                Some(
                    ParsedSubtitleView {
                        header: match s.subtitle_header {
                            Some(h) => h@,
                            None => Seq::empty(),
                        },
                        lines: spec_lines(ci.packets@, index, s.time_base_num, s.time_base_den),
                    },
                )
            },
        },
    }
}

/// The demuxing engine's side of the bargain for extraction: when the
/// located stream classifies as a subtitle stream, a subtitle decoder
/// could be built for it (its header is at hand) and its timebase
/// denominator is non-zero. A decoder that fails to build for a confirmed
/// subtitle stream would be an internal invariant violation, which the
/// library refuses to reach.
pub open spec fn extraction_target_ok(container: Option<&ContainerInfo>, index: usize) -> bool {
    match container {
        None => true,
        Some(ci) => match spec_find_stream(ci.streams@, index) {
            None => true,
            Some(s) => s.spec_kind() == StreamKind::Subtitle ==> (s.subtitle_header is Some
                && s.time_base_den != 0),
        },
    }
}

/// Join text lines with newline separators into one string.
fn join_text_lines(texts: &Vec<String>) -> (r: String)
    ensures
        r@ == spec_join_lines(texts@.map_values(|s: String| s@)),
{
    let ghost tv = texts@.map_values(|s: String| s@);
    let mut r = String::new();
    let mut i: usize = 0;
    proof {
        assert(tv.take(0) =~= Seq::<Seq<char>>::empty());
    }
    while i < texts.len()
        invariant
            0 <= i <= texts.len(),
            tv == texts@.map_values(|s: String| s@),
            r@ == spec_join_lines(tv.take(i as int)),
        decreases texts@.len() - i,
    {
        if i > 0 {
            r.append("\n");
        }
        r.append(texts[i].as_str());
        proof {
            reveal_strlit("\n");
            assert("\n"@ =~= seq!['\n']);
            assert(tv.take(i as int + 1).drop_last() =~= tv.take(i as int));
            assert(tv.take(i as int + 1).last() == tv[i as int]);
            assert(r@ =~= spec_join_lines(tv.take(i as int + 1)));
        }
        i += 1;
    }
    proof {
        assert(tv.take(tv.len() as int) =~= tv);
    }
    r
}

/// Collect the textual content of a packet's rects in rect order and join
/// it with newlines; bitmap rects are skipped silently.
pub fn packet_text(rects: &Vec<SubtitleRect>) -> (r: String)
    ensures
        r@ == spec_join_lines(spec_rect_texts(rects@)),
{
    let mut texts: Vec<String> = Vec::new();
    let mut i: usize = 0;
    proof {
        assert(texts@.map_values(|s: String| s@) =~= spec_rect_texts(rects@.take(0)));
    }
    while i < rects.len()
        invariant
            0 <= i <= rects.len(),
            texts@.map_values(|s: String| s@) == spec_rect_texts(rects@.take(i as int)),
        decreases rects@.len() - i,
    {
        match &rects[i] {
            SubtitleRect::Text(s) => texts.push(s.clone()),
            SubtitleRect::Ass(s) => texts.push(s.clone()),
            SubtitleRect::Bitmap => (),
        }
        proof {
            assert(rects@.take(i as int + 1).drop_last() =~= rects@.take(i as int));
            assert(rects@.take(i as int + 1).last() == rects@[i as int]);
            assert(texts@.map_values(|s: String| s@) =~= spec_rect_texts(
                rects@.take(i as int + 1),
            ));
        }
        i += 1;
    }
    proof {
        assert(rects@.take(rects@.len() as int) =~= rects@);
    }
    join_text_lines(&texts)
}

/// The cue one packet yields: presentation timestamp (with the maximum
/// tick as sentinel when absent) and duration converted under the
/// timebase, and the joined text of its rects.
pub fn packet_entry(packet: &PacketInfo, num: i64, den: i64) -> (e: SubtitleEntry)
    requires
        den != 0,
    ensures
        e@ == spec_entry(*packet, num, den),
{
    let pts_ticks: i64 = match packet.pts {
        Some(t) => t,
        None => i64::MAX,
    };
    let pts = timestamp_to_seconds(pts_ticks, num, den);
    let duration = timestamp_to_seconds(packet.duration, num, den);
    let text = packet_text(&packet.rects);
    SubtitleEntry { pts, duration, text }
}

/// Locate the first stream at position `index`.
fn find_stream(streams: &Vec<StreamInfo>, index: usize) -> (r: Option<&StreamInfo>)
    ensures
        match r {
            Some(s) => spec_find_stream(streams@, index) == Some(*s),
            None => spec_find_stream(streams@, index) is None,
        },
{
    let mut i: usize = 0;
    proof {
        assert(streams@.skip(0) =~= streams@);
    }
    while i < streams.len()
        invariant
            0 <= i <= streams.len(),
            spec_find_stream(streams@, index) == spec_find_stream(streams@.skip(i as int), index),
        decreases streams@.len() - i,
    {
        proof {
            assert(streams@.skip(i as int).first() == streams@[i as int]);
        }
        if streams[i].index == index {
            return Some(&streams[i]);
        }
        proof {
            assert(streams@.skip(i as int).drop_first() =~= streams@.skip(i as int + 1));
        }
        i += 1;
    }
    None
}

/// Extract the cues of the subtitle stream at position `index`.
///
/// Returns `None` when the container failed to open, when no stream has
/// that position, or when the stream there is not a subtitle stream —
/// extraction is refused rather than attempted on the wrong kind. On
/// success the result carries the decoder's raw format header and one cue
/// per packet of the target stream, in packet-arrival order; a packet
/// whose rects yield no text still contributes a cue with empty text.
pub fn get_embedded_subtitle(container: Option<&ContainerInfo>, index: usize) -> (r: Option<
    ParsedSubtitle,
>)
    requires
        extraction_target_ok(container, index),
    ensures
        match r {
            Some(p) => spec_extract(container, index) == Some(p@),
            None => spec_extract(container, index) is None,
        },
{
    let ci = match container {
        Some(c) => c,
        None => {
            return None;
        },
    };
    let stream = match find_stream(&ci.streams, index) {
        Some(s) => s,
        None => {
            return None;
        },
    };
    if stream.kind() != StreamKind::Subtitle {
        return None;
    }
    let header = match &stream.subtitle_header {
        Some(h) => h.clone(),
        None => {
            // Unreachable: the precondition guarantees a header for a
            // stream that classified as a subtitle stream.
            proof {
                assert(false);
            }
            String::new()
        },
    };
    let num = stream.time_base_num;
    let den = stream.time_base_den;
    let mut lines: Vec<SubtitleEntry> = Vec::new();
    let mut i: usize = 0;
    proof {
        assert(lines@.map_values(|e: SubtitleEntry| e@) =~= spec_lines(
            ci.packets@.take(0),
            index,
            num,
            den,
        ));
    }
    while i < ci.packets.len()
        invariant
            den != 0,
            0 <= i <= ci.packets.len(),
            lines@.map_values(|e: SubtitleEntry| e@) == spec_lines(
                ci.packets@.take(i as int),
                index,
                num,
                den,
            ),
        decreases ci.packets@.len() - i,
    {
        if ci.packets[i].stream_index == index {
            let entry = packet_entry(&ci.packets[i], num, den);
            lines.push(entry);
        }
        proof {
            assert(ci.packets@.take(i as int + 1).drop_last() =~= ci.packets@.take(i as int));
            assert(ci.packets@.take(i as int + 1).last() == ci.packets@[i as int]);
            assert(lines@.map_values(|e: SubtitleEntry| e@) =~= spec_lines(
                ci.packets@.take(i as int + 1),
                index,
                num,
                den,
            ));
        }
        i += 1;
    }
    proof {
        assert(ci.packets@.take(ci.packets@.len() as int) =~= ci.packets@);
    }
    Some(ParsedSubtitle { header, lines })
}

/// Number of packets that belong to stream `index`.
pub open spec fn spec_matching_count(packets: Seq<PacketInfo>, index: usize) -> nat
    decreases packets.len(),
{
    if packets.len() == 0 {
        0
    } else {
        spec_matching_count(packets.drop_last(), index) + if packets.last().stream_index
            == index {
            1nat
        } else {
            0nat
        }
    }
}

/// Extraction is complete: the cue sequence holds exactly one entry per
/// packet of the target stream — a packet whose rects yield no text still
/// contributes its (empty-text) cue.
pub proof fn lemma_lines_complete(packets: Seq<PacketInfo>, index: usize, num: i64, den: i64)
    ensures
        spec_lines(packets, index, num, den).len() == spec_matching_count(packets, index),
    decreases packets.len(),
{
    if packets.len() > 0 {
        lemma_lines_complete(packets.drop_last(), index, num, den);
    }
}

/// Extraction preserves packet-arrival order: the cue of the packet at
/// position `j` stands in the cue sequence at the position that packet
/// has among the packets of the target stream.
pub proof fn lemma_lines_ordered(packets: Seq<PacketInfo>, index: usize, num: i64, den: i64, j: int)
    requires
        0 <= j < packets.len(),
        packets[j].stream_index == index,
    ensures
        spec_matching_count(packets.take(j), index) < spec_lines(packets, index, num, den).len(),
        spec_lines(packets, index, num, den)[spec_matching_count(packets.take(j), index) as int]
            == spec_entry(packets[j], num, den),
    decreases packets.len(),
{
    let n = packets.len() - 1;
    if j == n {
        lemma_lines_complete(packets.drop_last(), index, num, den);
        assert(packets.take(j) =~= packets.drop_last());
    } else {
        lemma_lines_ordered(packets.drop_last(), index, num, den, j);
        assert(packets.drop_last().take(j) =~= packets.take(j));
    }
}

/// Extraction is deterministic: two results drawn from the same container
/// observation agree, so repeating extraction on an unmodified container
/// reproduces the same value.
pub proof fn lemma_extraction_idempotent(
    container: Option<&ContainerInfo>,
    index: usize,
    r1: Option<ParsedSubtitle>,
    r2: Option<ParsedSubtitle>,
)
    requires
        match r1 {
            Some(p) => spec_extract(container, index) == Some(p@),
            None => spec_extract(container, index) is None,
        },
        match r2 {
            Some(p) => spec_extract(container, index) == Some(p@),
            None => spec_extract(container, index) is None,
        },
    ensures
        match (r1, r2) {
            (Some(p1), Some(p2)) => p1@ == p2@,
            (None, None) => true,
            _ => false,
        },
{
}

} // verus!
