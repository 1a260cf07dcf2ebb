//! End-to-end tests of the discovery and extraction pipeline on
//! hand-built container observations.

use avsub::av::{
    discover_streams, MediaType, StreamInfo, StreamKind, StreamMeta, StreamMetaValue, Streams,
};
use avsub::subtitle::{
    get_embedded_subtitle, ContainerInfo, PacketInfo, ParsedSubtitle, SubtitleRect,
};
use avsub::util::{timestamp_to_seconds, Seconds};

fn seconds_f64(s: &Seconds) -> f64 {
    match s {
        Seconds::Exact(v) => *v as f64,
        Seconds::Approx {
            timestamp,
            num,
            den,
        } => *timestamp as f64 * (*num as f64 / *den as f64),
    }
}

fn stream(
    id: i64,
    index: usize,
    media: Option<MediaType>,
    header: Option<&str>,
    tags: &[(&str, &str)],
) -> StreamInfo {
    StreamInfo {
        id,
        index,
        media,
        time_base_num: 1,
        time_base_den: 1000,
        subtitle_header: header.map(|h| h.to_string()),
        tags: tags
            .iter()
            .map(|(k, v)| (k.to_string(), v.to_string()))
            .collect(),
    }
}

fn text_value(m: &StreamMeta, key: &str) -> Option<String> {
    match m.get(&key.to_string()) {
        Some(StreamMetaValue::Text(s)) => Some(s.clone()),
        _ => None,
    }
}

fn number_value(m: &StreamMeta, key: &str) -> Option<i64> {
    match m.get(&key.to_string()) {
        Some(StreamMetaValue::Number(n)) => Some(*n),
        _ => None,
    }
}

#[test]
fn timebase_exact_divisible() {
    let s = timestamp_to_seconds(200, 1, 100);
    assert_eq!(s, Seconds::Exact(2));
    assert_eq!(seconds_f64(&s), 2.0);
}

#[test]
fn timebase_exact_negative_operands() {
    assert_eq!(timestamp_to_seconds(-200, 1, 100), Seconds::Exact(-2));
    assert_eq!(timestamp_to_seconds(200, 1, -100), Seconds::Exact(-2));
    assert_eq!(timestamp_to_seconds(-200, 1, -100), Seconds::Exact(2));
    assert_eq!(timestamp_to_seconds(0, 7, 9), Seconds::Exact(0));
}

#[test]
fn timebase_exact_large_num() {
    // 90000 ticks at 1001/30000 seconds per tick: 3 * 1001 seconds.
    assert_eq!(
        timestamp_to_seconds(90000, 1001, 30000),
        Seconds::Exact(3003)
    );
}

#[test]
fn timebase_extreme_magnitudes() {
    assert_eq!(
        timestamp_to_seconds(i64::MIN, 1, 1),
        Seconds::Exact(i64::MIN as i128)
    );
    // The quotient of the two extremes does not fit an i64; the exact
    // result is still produced.
    assert_eq!(
        timestamp_to_seconds(i64::MIN, 1, -1),
        Seconds::Exact(-(i64::MIN as i128))
    );
    assert_eq!(
        timestamp_to_seconds(i64::MAX, i64::MAX, 1),
        Seconds::Exact(i64::MAX as i128 * i64::MAX as i128)
    );
}

#[test]
fn timebase_approx_non_divisible() {
    let s = timestamp_to_seconds(201, 1, 100);
    assert_eq!(
        s,
        Seconds::Approx {
            timestamp: 201,
            num: 1,
            den: 100
        }
    );
    assert!((seconds_f64(&s) - 2.01).abs() < 1e-12);
}

#[test]
fn discovery_on_missing_file() {
    // A container that failed to open yields the empty result, not an error.
    let r: Streams = discover_streams(None);
    assert!(r.video.is_empty());
    assert!(r.audio.is_empty());
    assert!(r.subtitle.is_empty());
}

#[test]
fn discovery_bucketing() {
    let streams = vec![
        stream(101, 0, Some(MediaType::Video), None, &[("title", "main")]),
        stream(102, 1, Some(MediaType::Audio), None, &[("language", "eng")]),
        stream(103, 2, Some(MediaType::Audio), None, &[("language", "jpn")]),
        stream(104, 3, Some(MediaType::Subtitle), Some("hdr"), &[]),
    ];
    let r = discover_streams(Some(&streams));
    assert_eq!(r.video.len(), 1);
    assert_eq!(r.audio.len(), 2);
    assert_eq!(r.subtitle.len(), 1);
    assert_eq!(number_value(&r.video[0], "id"), Some(101));
    assert_eq!(number_value(&r.video[0], "index"), Some(0));
    assert_eq!(text_value(&r.video[0], "title"), Some("main".to_string()));
    // Container order is kept within a bucket.
    assert_eq!(text_value(&r.audio[0], "language"), Some("eng".to_string()));
    assert_eq!(text_value(&r.audio[1], "language"), Some("jpn".to_string()));
    assert_eq!(number_value(&r.subtitle[0], "index"), Some(3));
}

#[test]
fn discovery_drops_unknown_streams() {
    let streams = vec![
        stream(1, 0, None, None, &[]),
        stream(2, 1, Some(MediaType::Data), None, &[]),
        stream(3, 2, Some(MediaType::Attachment), None, &[]),
        stream(4, 3, Some(MediaType::Other), None, &[]),
    ];
    let r = discover_streams(Some(&streams));
    assert!(r.video.is_empty());
    assert!(r.audio.is_empty());
    assert!(r.subtitle.is_empty());
}

#[test]
fn metadata_allowlist_enforcement() {
    let s = stream(
        7,
        2,
        Some(MediaType::Audio),
        None,
        &[("encoder", "lavc"), ("language", "eng"), ("comment", "x")],
    );
    let m = s.meta();
    assert_eq!(m.get(&"encoder".to_string()), None);
    assert_eq!(m.get(&"comment".to_string()), None);
    assert_eq!(text_value(&m, "language"), Some("eng".to_string()));
    assert_eq!(number_value(&m, "id"), Some(7));
    assert_eq!(number_value(&m, "index"), Some(2));
    // id, index, language and nothing else.
    assert_eq!(m.len(), 3);
}

#[test]
fn metadata_title_kept() {
    let s = stream(1, 0, Some(MediaType::Video), None, &[("title", "Main")]);
    let m = s.meta();
    assert_eq!(text_value(&m, "title"), Some("Main".to_string()));
    assert_eq!(m.len(), 3);
}

#[test]
fn classification_maps_media_types() {
    assert_eq!(
        stream(1, 0, Some(MediaType::Video), None, &[]).kind(),
        StreamKind::Video
    );
    assert_eq!(
        stream(1, 0, Some(MediaType::Audio), None, &[]).kind(),
        StreamKind::Audio
    );
    assert_eq!(
        stream(1, 0, Some(MediaType::Subtitle), None, &[]).kind(),
        StreamKind::Subtitle
    );
    assert_eq!(
        stream(1, 0, Some(MediaType::Data), None, &[]).kind(),
        StreamKind::Unknown
    );
    assert_eq!(
        stream(1, 0, Some(MediaType::Attachment), None, &[]).kind(),
        StreamKind::Unknown
    );
    assert_eq!(
        stream(1, 0, Some(MediaType::Other), None, &[]).kind(),
        StreamKind::Unknown
    );
    // Failed codec resolution classifies as Unknown.
    assert_eq!(stream(1, 0, None, None, &[]).kind(), StreamKind::Unknown);
}

fn subtitle_container() -> ContainerInfo {
    ContainerInfo {
        streams: vec![
            stream(11, 0, Some(MediaType::Video), None, &[]),
            stream(12, 1, Some(MediaType::Subtitle), Some("[Script Info]"), &[]),
        ],
        packets: vec![
            PacketInfo {
                stream_index: 1,
                pts: Some(1000),
                duration: 2000,
                rects: vec![
                    SubtitleRect::Ass("first".to_string()),
                    SubtitleRect::Text("second".to_string()),
                ],
            },
            PacketInfo {
                stream_index: 0,
                pts: Some(0),
                duration: 40,
                rects: vec![],
            },
            PacketInfo {
                stream_index: 1,
                pts: Some(3000),
                duration: 1000,
                rects: vec![SubtitleRect::Bitmap],
            },
            PacketInfo {
                stream_index: 1,
                pts: None,
                duration: 500,
                rects: vec![SubtitleRect::Text("last".to_string())],
            },
        ],
    }
}

#[test]
fn extraction_on_wrong_kind() {
    let c = subtitle_container();
    // Index 0 is the video stream: extraction is refused.
    assert!(get_embedded_subtitle(Some(&c), 0).is_none());
}

#[test]
fn extraction_on_absent_index() {
    let c = subtitle_container();
    assert!(get_embedded_subtitle(Some(&c), 9).is_none());
}

#[test]
fn extraction_on_missing_file() {
    assert!(get_embedded_subtitle(None, 1).is_none());
}

#[test]
fn extraction_ordering_and_completeness() {
    let c = subtitle_container();
    let p: ParsedSubtitle = get_embedded_subtitle(Some(&c), 1).unwrap();
    assert_eq!(p.header, "[Script Info]");
    // One entry per packet of stream 1, in packet-arrival order; the
    // bitmap-only packet still contributes an empty-text cue.
    assert_eq!(p.lines.len(), 3);
    assert_eq!(p.lines[0].text, "first\nsecond");
    assert_eq!(p.lines[0].pts, Seconds::Exact(1));
    assert_eq!(p.lines[0].duration, Seconds::Exact(2));
    assert_eq!(p.lines[1].text, "");
    assert_eq!(p.lines[1].pts, Seconds::Exact(3));
    assert_eq!(p.lines[2].text, "last");
    // A packet without a presentation timestamp gets the maximum tick as
    // sentinel; 1000 does not divide i64::MAX, so the value stays rational.
    assert_eq!(
        p.lines[2].pts,
        Seconds::Approx {
            timestamp: i64::MAX,
            num: 1,
            den: 1000
        }
    );
    assert_eq!(
        p.lines[2].duration,
        Seconds::Approx {
            timestamp: 500,
            num: 1,
            den: 1000
        }
    );
}

#[test]
fn repeated_calls_produce_identical_results() {
    let streams = vec![
        stream(101, 0, Some(MediaType::Video), None, &[("title", "main")]),
        stream(104, 1, Some(MediaType::Subtitle), Some("hdr"), &[]),
    ];
    let r1 = discover_streams(Some(&streams));
    let r2 = discover_streams(Some(&streams));
    assert_eq!(r1, r2);

    let c = subtitle_container();
    let p1 = get_embedded_subtitle(Some(&c), 1);
    let p2 = get_embedded_subtitle(Some(&c), 1);
    assert_eq!(p1, p2);
}

#[test]
fn meta_value_constructors() {
    assert_eq!(
        StreamMetaValue::string("eng".to_string()),
        StreamMetaValue::Text("eng".to_string())
    );
    assert_eq!(StreamMetaValue::number(5), StreamMetaValue::Number(5));
}

#[test]
fn stream_meta_insert_and_get() {
    let mut m = StreamMeta::new();
    assert_eq!(m.len(), 0);
    assert_eq!(m.get(&"id".to_string()), None);
    m.insert("id".to_string(), StreamMetaValue::number(3));
    m.insert("language".to_string(), StreamMetaValue::string("fra".to_string()));
    assert_eq!(m.len(), 2);
    assert_eq!(
        m.get(&"language".to_string()),
        Some(&StreamMetaValue::Text("fra".to_string()))
    );
    assert_eq!(
        m.get(&"id".to_string()),
        Some(&StreamMetaValue::Number(3))
    );
}

#[test]
fn streams_accumulators() {
    let mut s = Streams::new();
    assert!(s.video.is_empty() && s.audio.is_empty() && s.subtitle.is_empty());
    let mut m = StreamMeta::new();
    m.insert("id".to_string(), StreamMetaValue::number(1));
    s.add_video(m.clone());
    s.add_audio(m.clone());
    s.add_audio(m.clone());
    s.add_subtitle(m);
    assert_eq!(s.video.len(), 1);
    assert_eq!(s.audio.len(), 2);
    assert_eq!(s.subtitle.len(), 1);
}

#[test]
fn packet_text_joins_in_rect_order() {
    let rects = vec![
        SubtitleRect::Text("a".to_string()),
        SubtitleRect::Bitmap,
        SubtitleRect::Ass("b".to_string()),
        SubtitleRect::Text("c".to_string()),
    ];
    assert_eq!(avsub::subtitle::packet_text(&rects), "a\nb\nc");
    assert_eq!(avsub::subtitle::packet_text(&vec![]), "");
    assert_eq!(
        avsub::subtitle::packet_text(&vec![SubtitleRect::Bitmap]),
        ""
    );
}

#[test]
fn packet_entry_sentinel_and_conversion() {
    let p = PacketInfo {
        stream_index: 4,
        pts: None,
        duration: 3000,
        rects: vec![],
    };
    let e = avsub::subtitle::packet_entry(&p, 1, 1);
    // Timebase 1/1: the sentinel converts to i64::MAX whole seconds.
    assert_eq!(e.pts, Seconds::Exact(i64::MAX as i128));
    assert_eq!(e.duration, Seconds::Exact(3000));
    assert_eq!(e.text, "");
}
