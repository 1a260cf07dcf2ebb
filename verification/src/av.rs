//! Stream discovery: classification, metadata projection, and bucketing.
//!
//! The demuxing engine owns the container; the host shell enumerates its
//! streams and hands each one to this module as a plain [`StreamInfo`]
//! value. Everything from there on — classifying a stream by the media
//! type its codec parameters resolved to, projecting the allow-listed
//! metadata, and bucketing streams by kind — is verified logic.

use vstd::prelude::*;

verus! {

/// The kind a container stream is classified as.
#[derive(Debug, Clone, Copy, PartialEq, Eq, Structural)]
pub enum StreamKind {
    Video,
    Audio,
    Subtitle,
    Unknown,
}

/// The media type a stream's codec parameters resolve to, as the demuxing
/// engine reports it.
#[derive(Debug, Clone, Copy, PartialEq, Eq, Structural)]
pub enum MediaType {
    Video,
    Audio,
    Subtitle,
    Data,
    Attachment,
    Other,
}

/// One value in a projected stream-metadata mapping: descriptive tags are
/// text, the fixed `id` and `index` fields are numbers.
#[derive(Debug, Clone, PartialEq, Eq)]
pub enum StreamMetaValue {
    Text(String),
    Number(i64),
}

/// The mathematical value of a [`StreamMetaValue`].
pub enum MetaValue {
    Text(Seq<char>),
    Number(int),
}

impl View for StreamMetaValue {
    type V = MetaValue;

    open spec fn view(&self) -> MetaValue {
        match self {
            StreamMetaValue::Text(s) => MetaValue::Text(s@),
            StreamMetaValue::Number(n) => MetaValue::Number(*n as int),
        }
    }
}

impl StreamMetaValue {
    /// A textual metadata value.
    pub fn string(value: String) -> (r: Self)
        ensures
            r@ == MetaValue::Text(value@),
    {
        Self::Text(value)
    }

    /// A numeric metadata value.
    pub fn number(value: i64) -> (r: Self)
        ensures
            r@ == MetaValue::Number(value as int),
    {
        Self::Number(value)
    }
}

/// The projected metadata of one stream: an association of string keys to
/// values, in insertion order. Key uniqueness is a property of how the
/// projection fills it, not of the container itself.
#[derive(Debug, Clone, PartialEq, Eq)]
pub struct StreamMeta {
    entries: Vec<(String, StreamMetaValue)>,
}

impl View for StreamMeta {
    type V = Seq<(Seq<char>, MetaValue)>;

    closed spec fn view(&self) -> Seq<(Seq<char>, MetaValue)> {
        self.entries@.map_values(|e: (String, StreamMetaValue)| (e.0@, e.1@))
    }
}

/// The first value bound to `key` in an association list, if any.
pub open spec fn spec_lookup(entries: Seq<(Seq<char>, MetaValue)>, key: Seq<char>) -> Option<
    MetaValue,
>
    decreases entries.len(),
{
    if entries.len() == 0 {
        None
    } else if entries.first().0 == key {
        Some(entries.first().1)
    } else {
        spec_lookup(entries.drop_first(), key)
    }
}

impl StreamMeta {
    /// An empty metadata mapping.
    pub fn new() -> (m: Self)
        ensures
            m@ == Seq::<(Seq<char>, MetaValue)>::empty(),
    {
        let m = StreamMeta { entries: Vec::new() };
        proof {
            assert(m@ =~= Seq::<(Seq<char>, MetaValue)>::empty());
        }
        m
    }

    /// Bind `key` to `value`, appending to the mapping.
    pub fn insert(&mut self, key: String, value: StreamMetaValue)
        ensures
            final(self)@ == old(self)@.push((key@, value@)),
    {
        let ghost before = self@;
        let ghost pair = (key@, value@);
        self.entries.push((key, value));
        proof {
            assert(self@ =~= before.push(pair));
        }
    }

    /// The entries of the mapping, in insertion order.
    pub fn entries(&self) -> (r: &Vec<(String, StreamMetaValue)>)
        ensures
            r@.map_values(|e: (String, StreamMetaValue)| (e.0@, e.1@)) == self@,
    {
        &self.entries
    }

    /// The number of entries.
    pub fn len(&self) -> (n: usize)
        ensures
            n == self@.len(),
    {
        self.entries.len()
    }

    /// The first value bound to `key`, if any.
    pub fn get(&self, key: &String) -> (r: Option<&StreamMetaValue>)
        ensures
            match r {
                Some(v) => spec_lookup(self@, key@) == Some(v@),
                None => spec_lookup(self@, key@) is None,
            },
    {
        let mut i: usize = 0;
        proof {
            assert(self@.skip(0) =~= self@);
        }
        while i < self.entries.len()
            invariant
                0 <= i <= self.entries.len(),
                spec_lookup(self@, key@) == spec_lookup(self@.skip(i as int), key@),
            decreases self.entries.len() - i,
        {
            proof {
                assert(self@.skip(i as int).first() == self@[i as int]);
                assert(self@[i as int] == (self.entries@[i as int].0@, self.entries@[i as int].1@));
            }
            if self.entries[i].0 == *key {
                return Some(&self.entries[i].1);
            }
            proof {
                assert(self@.skip(i as int).drop_first() =~= self@.skip(i as int + 1));
            }
            i += 1;
        }
        proof {
            assert(self@.skip(i as int).len() == 0);
        }
        None
    }
}

/// The result of stream discovery: per-kind ordered sequences of projected
/// stream metadata. Order within each sequence is container order. Empty
/// sequences are valid; a container that failed to open yields all three
/// empty.
#[derive(Debug, Clone, PartialEq, Eq)]
pub struct Streams {
    pub video: Vec<StreamMeta>,
    pub audio: Vec<StreamMeta>,
    pub subtitle: Vec<StreamMeta>,
}

/// The views of a sequence of projected metadata mappings.
pub open spec fn metas_view(v: Seq<StreamMeta>) -> Seq<Seq<(Seq<char>, MetaValue)>> {
    v.map_values(|m: StreamMeta| m@)
}

impl Streams {
    /// A discovery result with no streams of any kind.
    pub fn new() -> (s: Self)
        ensures
            s.video@ == Seq::<StreamMeta>::empty(),
            s.audio@ == Seq::<StreamMeta>::empty(),
            s.subtitle@ == Seq::<StreamMeta>::empty(),
    {
        Streams { video: Vec::new(), audio: Vec::new(), subtitle: Vec::new() }
    }

    /// Append a projected video stream.
    pub fn add_video(&mut self, stream: StreamMeta)
        ensures
            final(self).video@ == old(self).video@.push(stream),
            final(self).audio == old(self).audio,
            final(self).subtitle == old(self).subtitle,
    {
        self.video.push(stream)
    }

    /// Append a projected audio stream.
    pub fn add_audio(&mut self, stream: StreamMeta)
        ensures
            final(self).audio@ == old(self).audio@.push(stream),
            final(self).video == old(self).video,
            final(self).subtitle == old(self).subtitle,
    {
        self.audio.push(stream)
    }

    /// Append a projected subtitle stream.
    pub fn add_subtitle(&mut self, stream: StreamMeta)
        ensures
            final(self).subtitle@ == old(self).subtitle@.push(stream),
            final(self).video == old(self).video,
            final(self).audio == old(self).audio,
    {
        self.subtitle.push(stream)
    }
}

/// What the host shell reads off one container stream before handing it to
/// the library: identity, position, the outcome of codec resolution, the
/// rational timebase, the subtitle decoder's format header when one could
/// be built, and the raw metadata tags in container order.
#[derive(Debug, Clone, PartialEq, Eq)]
pub struct StreamInfo {
    /// The container-level stream identifier.
    pub id: i64,
    /// Zero-based position of the stream in the container.
    pub index: usize,
    /// Media type of the stream's resolved codec context; `None` when no
    /// decoding context could be built from the codec parameters.
    pub media: Option<MediaType>,
    /// Timebase numerator: one tick of this stream is `num / den` seconds.
    pub time_base_num: i64,
    /// Timebase denominator; the demuxing engine supplies non-zero values.
    pub time_base_den: i64,
    /// The subtitle decoder's raw format header, when a subtitle decoder
    /// could be built for this stream.
    pub subtitle_header: Option<String>,
    /// Raw metadata tags of the stream, in container order.
    pub tags: Vec<(String, String)>,
}

/// Raw metadata keys that projection surfaces; everything else is dropped.
pub open spec fn allowed_key(key: Seq<char>) -> bool {
    key == "language"@ || key == "title"@
}

/// The allow-listed tags of a stream, projected in order.
pub open spec fn spec_projected_tags(tags: Seq<(String, String)>) -> Seq<(Seq<char>, MetaValue)>
    decreases tags.len(),
{
    if tags.len() == 0 {
        Seq::empty()
    } else {
        let rest = spec_projected_tags(tags.drop_last());
        if allowed_key(tags.last().0@) {
            rest.push((tags.last().0@, MetaValue::Text(tags.last().1@)))
        } else {
            rest
        }
    }
}

/// The full projected metadata of one stream: `id` and `index` first, then
/// the allow-listed tags in container order.
pub open spec fn spec_meta(s: StreamInfo) -> Seq<(Seq<char>, MetaValue)> {
    seq![("id"@, MetaValue::Number(s.id as int)), ("index"@, MetaValue::Number(s.index as int))]
        + spec_projected_tags(s.tags@)
}

impl StreamInfo {
    /// The stream position fits a numeric metadata value.
    pub open spec fn index_fits(&self) -> bool {
        self.index as int <= i64::MAX as int
    }

    /// The kind this stream classifies as.
    pub open spec fn spec_kind(&self) -> StreamKind {
        match self.media {
            None => StreamKind::Unknown,
            Some(MediaType::Video) => StreamKind::Video,
            Some(MediaType::Audio) => StreamKind::Audio,
            Some(MediaType::Subtitle) => StreamKind::Subtitle,
            Some(_) => StreamKind::Unknown,
        }
    }

    /// Classify the stream by the media type of its resolved codec
    /// context. A stream whose codec parameters could not be resolved is
    /// `Unknown`, as is any media type beyond video, audio and subtitle.
    /// Side-effect-free: repeated calls agree.
    pub fn kind(&self) -> (k: StreamKind)
        ensures
            k == self.spec_kind(),
    {
        match self.media {
            None => StreamKind::Unknown,
            Some(MediaType::Video) => StreamKind::Video,
            Some(MediaType::Audio) => StreamKind::Audio,
            Some(MediaType::Subtitle) => StreamKind::Subtitle,
            Some(_) => StreamKind::Unknown,
        }
    }

    /// Project the stream's metadata: always `id` and `index` as numbers;
    /// a raw tag only when its key is on the allow-list.
    pub fn meta(&self) -> (m: StreamMeta)
        requires
            self.index_fits(),
        ensures
            m@ == spec_meta(*self),
    {
        let mut m = StreamMeta::new();
        m.insert("id".to_string(), StreamMetaValue::number(self.id));
        m.insert("index".to_string(), StreamMetaValue::number(self.index as i64));
        let language_key: String = "language".to_string();
        let title_key: String = "title".to_string();
        let ghost base = seq![
            ("id"@, MetaValue::Number(self.id as int)),
            ("index"@, MetaValue::Number(self.index as int)),
        ];
        proof {
            assert(m@ =~= base + spec_projected_tags(self.tags@.take(0)));
        }
        let mut i: usize = 0;
        while i < self.tags.len()
            invariant
                0 <= i <= self.tags.len(),
                language_key@ == "language"@,
                title_key@ == "title"@,
                m@ == base + spec_projected_tags(self.tags@.take(i as int)),
            decreases self.tags@.len() - i,
        {
            if self.tags[i].0 == language_key || self.tags[i].0 == title_key {
                m.insert(self.tags[i].0.clone(), StreamMetaValue::string(self.tags[i].1.clone()));
            }
            proof {
                assert(self.tags@.take(i as int + 1).drop_last() =~= self.tags@.take(i as int));
                assert(self.tags@.take(i as int + 1).last() == self.tags@[i as int]);
                assert(m@ =~= base + spec_projected_tags(self.tags@.take(i as int + 1)));
            }
            i += 1;
        }
        proof {
            assert(self.tags@.take(self.tags@.len() as int) =~= self.tags@);
        }
        m
    }
}

/// The projected metadata of the streams of kind `k`, in container order.
pub open spec fn spec_bucket(streams: Seq<StreamInfo>, k: StreamKind) -> Seq<
    Seq<(Seq<char>, MetaValue)>,
>
    decreases streams.len(),
{
    if streams.len() == 0 {
        Seq::empty()
    } else {
        let rest = spec_bucket(streams.drop_last(), k);
        if streams.last().spec_kind() == k {
            rest.push(spec_meta(streams.last()))
        } else {
            rest
        }
    }
}

/// Discover the streams of a container: classify each enumerated stream,
/// project its metadata, and bucket it by kind, keeping container order.
/// `None` models a container that failed to open — a benign outcome that
/// yields the empty result, never an error. Streams that classify as
/// `Unknown` are dropped from all three buckets.
pub fn discover_streams(container: Option<&Vec<StreamInfo>>) -> (r: Streams)
    requires
        match container {
            Some(streams) => forall|i: int|
                0 <= i < streams@.len() ==> (#[trigger] streams@[i]).index_fits(),
            None => true,
        },
    ensures
        match container {
            None => r.video@ == Seq::<StreamMeta>::empty() && r.audio@ == Seq::<
                StreamMeta,
            >::empty() && r.subtitle@ == Seq::<StreamMeta>::empty(),
            Some(streams) => metas_view(r.video@) == spec_bucket(streams@, StreamKind::Video)
                && metas_view(r.audio@) == spec_bucket(streams@, StreamKind::Audio)
                && metas_view(r.subtitle@) == spec_bucket(streams@, StreamKind::Subtitle),
        },
{
    let streams_in = match container {
        Some(s) => s,
        None => {
            return Streams::new();
        },
    };
    let mut result = Streams::new();
    proof {
        assert(metas_view(result.video@) =~= spec_bucket(
            streams_in@.take(0),
            StreamKind::Video,
        ));
        assert(metas_view(result.audio@) =~= spec_bucket(
            streams_in@.take(0),
            StreamKind::Audio,
        ));
        assert(metas_view(result.subtitle@) =~= spec_bucket(
            streams_in@.take(0),
            StreamKind::Subtitle,
        ));
    }
    let mut i: usize = 0;
    while i < streams_in.len()
        invariant
            0 <= i <= streams_in.len(),
            forall|j: int| 0 <= j < streams_in@.len() ==> (#[trigger] streams_in@[j]).index_fits(),
            metas_view(result.video@) == spec_bucket(streams_in@.take(i as int), StreamKind::Video),
            metas_view(result.audio@) == spec_bucket(streams_in@.take(i as int), StreamKind::Audio),
            metas_view(result.subtitle@) == spec_bucket(
                streams_in@.take(i as int),
                StreamKind::Subtitle,
            ),
        decreases streams_in@.len() - i,
    {
        let stream = &streams_in[i];
        let m = stream.meta();
        match stream.kind() {
            StreamKind::Video => result.add_video(m),
            StreamKind::Audio => result.add_audio(m),
            StreamKind::Subtitle => result.add_subtitle(m),
            StreamKind::Unknown => (),
        }
        proof {
            assert(streams_in@.take(i as int + 1).drop_last() =~= streams_in@.take(i as int));
            assert(streams_in@.take(i as int + 1).last() == streams_in@[i as int]);
            assert(metas_view(result.video@) =~= spec_bucket(
                streams_in@.take(i as int + 1),
                StreamKind::Video,
            ));
            assert(metas_view(result.audio@) =~= spec_bucket(
                streams_in@.take(i as int + 1),
                StreamKind::Audio,
            ));
            assert(metas_view(result.subtitle@) =~= spec_bucket(
                streams_in@.take(i as int + 1),
                StreamKind::Subtitle,
            ));
        }
        i += 1;
    }
    proof {
        assert(streams_in@.take(streams_in@.len() as int) =~= streams_in@);
    }
    result
}

proof fn lemma_projected_tags_allowed(tags: Seq<(String, String)>, i: int)
    requires
        0 <= i < spec_projected_tags(tags).len(),
    ensures
        allowed_key(spec_projected_tags(tags)[i].0),
    decreases tags.len(),
{
    let rest = spec_projected_tags(tags.drop_last());
    if allowed_key(tags.last().0@) {
        if i < rest.len() {
            lemma_projected_tags_allowed(tags.drop_last(), i);
        }
    } else {
        lemma_projected_tags_allowed(tags.drop_last(), i);
    }
}

/// Allow-list enforcement, absence half: every key of a projected
/// metadata mapping is `id`, `index`, or a member of the allow-list; a
/// raw tag with any other key is never surfaced.
pub proof fn lemma_meta_allowlist_only(s: StreamInfo, i: int)
    requires
        0 <= i < spec_meta(s).len(),
    ensures
        spec_meta(s)[i].0 == "id"@ || spec_meta(s)[i].0 == "index"@ || allowed_key(
            spec_meta(s)[i].0,
        ),
{
    if i >= 2 {
        lemma_projected_tags_allowed(s.tags@, i - 2);
    }
}

proof fn lemma_projected_tags_keeps(tags: Seq<(String, String)>, j: int)
    requires
        0 <= j < tags.len(),
        allowed_key(tags[j].0@),
    ensures
        exists|i: int|
            0 <= i < spec_projected_tags(tags).len() && spec_projected_tags(tags)[i] == (
            tags[j].0@,
            MetaValue::Text(tags[j].1@),
            ),
    decreases tags.len(),
{
    let proj = spec_projected_tags(tags);
    let rest = spec_projected_tags(tags.drop_last());
    let pair = (tags[j].0@, MetaValue::Text(tags[j].1@));
    if j == tags.len() - 1 {
        assert(proj[rest.len() as int] == pair);
    } else {
        lemma_projected_tags_keeps(tags.drop_last(), j);
        let i = choose|i: int|
            0 <= i < rest.len() && rest[i] == (
            tags.drop_last()[j].0@,
            MetaValue::Text(tags.drop_last()[j].1@),
            );
        assert(proj[i] == pair);
    }
}

/// Allow-list enforcement, presence half: each raw tag whose key is on
/// the allow-list appears in the projected metadata with its value as
/// text.
pub proof fn lemma_meta_keeps_allowed(s: StreamInfo, j: int)
    requires
        0 <= j < s.tags@.len(),
        allowed_key(s.tags@[j].0@),
    ensures
        exists|i: int|
            0 <= i < spec_meta(s).len() && spec_meta(s)[i] == (
            s.tags@[j].0@,
            MetaValue::Text(s.tags@[j].1@),
            ),
{
    lemma_projected_tags_keeps(s.tags@, j);
    let proj = spec_projected_tags(s.tags@);
    let pair = (s.tags@[j].0@, MetaValue::Text(s.tags@[j].1@));
    let i = choose|i: int| 0 <= i < proj.len() && proj[i] == pair;
    assert(spec_meta(s)[i + 2] == pair);
}

proof fn lemma_projected_tags_origin(tags: Seq<(String, String)>, i: int)
    requires
        0 <= i < spec_projected_tags(tags).len(),
    ensures
        exists|a: int|
            0 <= a < tags.len() && spec_projected_tags(tags)[i] == (
            tags[a].0@,
            MetaValue::Text(tags[a].1@),
            ),
    decreases tags.len(),
{
    let proj = spec_projected_tags(tags);
    let rest = spec_projected_tags(tags.drop_last());
    let n = tags.len() - 1;
    if allowed_key(tags.last().0@) && i == rest.len() {
        assert(proj[i] == (tags[n].0@, MetaValue::Text(tags[n].1@)));
    } else {
        lemma_projected_tags_origin(tags.drop_last(), i);
        let a = choose|a: int|
            0 <= a < tags.drop_last().len() && rest[i] == (
            tags.drop_last()[a].0@,
            MetaValue::Text(tags.drop_last()[a].1@),
            );
        assert(proj[i] == (tags[a].0@, MetaValue::Text(tags[a].1@)));
    }
}

proof fn lemma_projected_tags_origins_ordered(tags: Seq<(String, String)>, i: int, j: int)
    requires
        0 <= i < j < spec_projected_tags(tags).len(),
    ensures
        exists|a: int, b: int|
            0 <= a < b < tags.len() && spec_projected_tags(tags)[i] == (
            tags[a].0@,
            MetaValue::Text(tags[a].1@),
            ) && spec_projected_tags(tags)[j] == (tags[b].0@, MetaValue::Text(tags[b].1@)),
    decreases tags.len(),
{
    let proj = spec_projected_tags(tags);
    let rest = spec_projected_tags(tags.drop_last());
    let n = tags.len() - 1;
    if allowed_key(tags.last().0@) && j == rest.len() {
        lemma_projected_tags_origin(tags.drop_last(), i);
        let a = choose|a: int|
            0 <= a < tags.drop_last().len() && rest[i] == (
            tags.drop_last()[a].0@,
            MetaValue::Text(tags.drop_last()[a].1@),
            );
        assert(0 <= a < n < tags.len() && proj[i] == (tags[a].0@, MetaValue::Text(tags[a].1@))
            && proj[j] == (tags[n].0@, MetaValue::Text(tags[n].1@)));
    } else {
        lemma_projected_tags_origins_ordered(tags.drop_last(), i, j);
        let (a, b) = choose|a: int, b: int|
            0 <= a < b < tags.drop_last().len() && rest[i] == (
            tags.drop_last()[a].0@,
            MetaValue::Text(tags.drop_last()[a].1@),
            ) && rest[j] == (tags.drop_last()[b].0@, MetaValue::Text(tags.drop_last()[b].1@));
        assert(0 <= a < b < tags.len() && proj[i] == (tags[a].0@, MetaValue::Text(tags[a].1@))
            && proj[j] == (tags[b].0@, MetaValue::Text(tags[b].1@)));
    }
}

/// Projected metadata never repeats a key, provided the raw tags
/// themselves hold at most one value per key, as the demuxing engine's
/// metadata dictionaries do: `id` and `index` differ from each other and
/// from every allow-listed key, and distinct surviving tags keep their
/// distinct keys.
pub proof fn lemma_meta_keys_unique(s: StreamInfo, i: int, j: int)
    requires
        0 <= i < j < spec_meta(s).len(),
        forall|a: int, b: int| 0 <= a < b < s.tags@.len() ==> s.tags@[a].0@ != s.tags@[b].0@,
    ensures
        spec_meta(s)[i].0 != spec_meta(s)[j].0,
{
    reveal_strlit("id");
    reveal_strlit("index");
    reveal_strlit("language");
    reveal_strlit("title");
    assert("index"@[0] == 'i' && "title"@[0] == 't');
    if j < 2 {
        assert("id"@.len() != "index"@.len());
    } else if i < 2 {
        lemma_projected_tags_allowed(s.tags@, j - 2);
        assert(spec_meta(s)[j].0 == spec_projected_tags(s.tags@)[j - 2].0);
    } else {
        lemma_projected_tags_origins_ordered(s.tags@, i - 2, j - 2);
        let (a, b) = choose|a: int, b: int|
            0 <= a < b < s.tags@.len() && spec_projected_tags(s.tags@)[i - 2] == (
            s.tags@[a].0@,
            MetaValue::Text(s.tags@[a].1@),
            ) && spec_projected_tags(s.tags@)[j - 2] == (
            s.tags@[b].0@,
            MetaValue::Text(s.tags@[b].1@),
            );
        assert(s.tags@[a].0@ != s.tags@[b].0@);
    }
}

/// Number of streams that classify as `k`.
pub open spec fn spec_count_kind(streams: Seq<StreamInfo>, k: StreamKind) -> nat
    decreases streams.len(),
{
    if streams.len() == 0 {
        0
    } else {
        spec_count_kind(streams.drop_last(), k) + if streams.last().spec_kind() == k {
            1nat
        } else {
            0nat
        }
    }
}

/// Bucketing is complete: each kind's bucket holds exactly one projected
/// mapping per stream of that kind.
pub proof fn lemma_bucket_len(streams: Seq<StreamInfo>, k: StreamKind)
    ensures
        spec_bucket(streams, k).len() == spec_count_kind(streams, k),
    decreases streams.len(),
{
    if streams.len() > 0 {
        lemma_bucket_len(streams.drop_last(), k);
    }
}

/// Bucketing preserves container order: the projected mapping of the
/// stream at position `j` stands in its kind's bucket at the position
/// that stream has among the streams of its kind.
pub proof fn lemma_bucket_ordered(streams: Seq<StreamInfo>, k: StreamKind, j: int)
    requires
        0 <= j < streams.len(),
        streams[j].spec_kind() == k,
    ensures
        spec_count_kind(streams.take(j), k) < spec_bucket(streams, k).len(),
        spec_bucket(streams, k)[spec_count_kind(streams.take(j), k) as int] == spec_meta(
            streams[j],
        ),
    decreases streams.len(),
{
    let n = streams.len() - 1;
    if j == n {
        lemma_bucket_len(streams.drop_last(), k);
        assert(streams.take(j) =~= streams.drop_last());
    } else {
        lemma_bucket_ordered(streams.drop_last(), k, j);
        assert(streams.drop_last().take(j) =~= streams.take(j));
    }
}

/// Every projected mapping opens with the stream's identity: `id` first,
/// `index` second, whatever the raw tags hold.
pub proof fn lemma_meta_has_identity(s: StreamInfo)
    ensures
        spec_meta(s).len() >= 2,
        spec_meta(s)[0] == ("id"@, MetaValue::Number(s.id as int)),
        spec_meta(s)[1] == ("index"@, MetaValue::Number(s.index as int)),
{
}

/// Discovery is deterministic: two results drawn from the same stream
/// enumeration carry identical buckets, so repeating discovery on an
/// unmodified container reproduces the same value.
pub proof fn lemma_discovery_idempotent(streams: Seq<StreamInfo>, r1: Streams, r2: Streams)
    requires
        metas_view(r1.video@) == spec_bucket(streams, StreamKind::Video),
        metas_view(r1.audio@) == spec_bucket(streams, StreamKind::Audio),
        metas_view(r1.subtitle@) == spec_bucket(streams, StreamKind::Subtitle),
        metas_view(r2.video@) == spec_bucket(streams, StreamKind::Video),
        metas_view(r2.audio@) == spec_bucket(streams, StreamKind::Audio),
        metas_view(r2.subtitle@) == spec_bucket(streams, StreamKind::Subtitle),
    ensures
        metas_view(r1.video@) == metas_view(r2.video@),
        metas_view(r1.audio@) == metas_view(r2.audio@),
        metas_view(r1.subtitle@) == metas_view(r2.subtitle@),
{
}

} // verus!
