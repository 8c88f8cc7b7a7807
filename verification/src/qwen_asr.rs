//! Qwen3-ASR-Flash speech-to-text: the streaming state, the WAV encoding of
//! a segment, and the request and reply pieces that the HTTP client uses.
//!
//! The audio pipeline provides 16 kHz mono PCM; buffering five seconds keeps
//! each request well below the service's input limit. Sending requests and
//! reading the clock are done by the caller, which hands in the current time
//! in milliseconds and performs the returned actions.
use base64::Engine;
use vstd::prelude::*;

use crate::text::{
    chars_eq, chars_of, has_at, join, join_chars, char_views, push_all, push_str, slice_of,
    stop, stop_index, string_of, tail, tail_index, lemma_stop_bounds, lemma_tail_bounds, trim,
    trim_back, trim_chars, trimmed_back, Strip,
};

verus! {

/// Samples per second of the PCM the pipeline delivers.
pub open spec fn sample_rate() -> int {
    16000
}

/// Samples in one segment: five seconds of audio.
pub open spec fn segment_samples() -> int {
    80000
}

/// The little-endian bytes of a 16-bit value.
pub open spec fn le16(v: int) -> Seq<u8> {
    seq![(v % 256) as u8, ((v / 256) % 256) as u8]
}

/// The little-endian bytes of a 32-bit value.
pub open spec fn le32(v: int) -> Seq<u8> {
    seq![
        (v % 256) as u8,
        ((v / 256) % 256) as u8,
        ((v / 65536) % 256) as u8,
        ((v / 16777216) % 256) as u8,
    ]
}

/// The bytes of the samples, each as a little-endian two's-complement
/// 16-bit value.
pub open spec fn pcm_bytes(samples: Seq<i16>) -> Seq<u8>
    decreases samples.len(),
{
    if samples.len() == 0 {
        Seq::empty()
    } else {
        pcm_bytes(samples.drop_last()) + le16(samples.last() as u16 as int)
    }
}

/// The 44-byte RIFF/WAVE header of `n` mono 16-bit samples at 16 kHz.
pub open spec fn wav_header(n: int) -> Seq<u8> {
    seq![82u8, 73u8, 70u8, 70u8] + le32(36 + 2 * n) + seq![87u8, 65u8, 86u8, 69u8] + seq![
        102u8,
        109u8,
        116u8,
        32u8,
    ] + le32(16) + le16(1) + le16(1) + le32(sample_rate()) + le32(2 * sample_rate()) + le16(2)
        + le16(16) + seq![100u8, 97u8, 116u8, 97u8] + le32(2 * n)
}

/// The WAV file of a segment.
pub open spec fn wav_file(samples: Seq<i16>) -> Seq<u8> {
    wav_header(samples.len() as int) + pcm_bytes(samples)
}

fn push_le16(buf: &mut Vec<u8>, v: u16)
    ensures
        final(buf)@ == old(buf)@ + le16(v as int),
{
    let lo = (v & 0xff) as u8;
    let hi = (v >> 8) as u8;
    assert((v & 0xff) == v % 256) by (bit_vector);
    assert((v >> 8) == v / 256) by (bit_vector);
    buf.push(lo);
    buf.push(hi);
    assert(buf@ =~= old(buf)@ + le16(v as int));
}

fn push_le32(buf: &mut Vec<u8>, v: u32)
    ensures
        final(buf)@ == old(buf)@ + le32(v as int),
{
    assert((v & 0xff) == v % 256) by (bit_vector);
    assert(((v >> 8) & 0xff) == (v / 256) % 256) by (bit_vector);
    assert(((v >> 16) & 0xff) == (v / 65536) % 256) by (bit_vector);
    assert((v >> 24) == (v / 16777216) % 256) by (bit_vector);
    buf.push((v & 0xff) as u8);
    buf.push(((v >> 8) & 0xff) as u8);
    buf.push(((v >> 16) & 0xff) as u8);
    buf.push((v >> 24) as u8);
    assert(buf@ =~= old(buf)@ + le32(v as int));
}

fn push_tag(buf: &mut Vec<u8>, a: u8, b: u8, c: u8, d: u8)
    ensures
        final(buf)@ == old(buf)@ + seq![a, b, c, d],
{
    buf.push(a);
    buf.push(b);
    buf.push(c);
    buf.push(d);
    assert(buf@ =~= old(buf)@ + seq![a, b, c, d]);
}

/// Encodes 16 kHz mono PCM as a WAV file.
pub fn encode_wav(samples: &[i16]) -> (r: Vec<u8>)
    requires
        44 + 2 * samples@.len() <= u32::MAX,
    ensures
        r@ == wav_file(samples@),
        r@.len() == 44 + 2 * samples@.len(),
{
    let n = samples.len();
    let data_len = (n * 2) as u32;
    let file_len = 36 + data_len;
    let mut buf: Vec<u8> = Vec::new();
    push_tag(&mut buf, 82, 73, 70, 70);
    push_le32(&mut buf, file_len);
    push_tag(&mut buf, 87, 65, 86, 69);
    push_tag(&mut buf, 102, 109, 116, 32);
    push_le32(&mut buf, 16);
    push_le16(&mut buf, 1);
    push_le16(&mut buf, 1);
    push_le32(&mut buf, 16000);
    push_le32(&mut buf, 32000);
    push_le16(&mut buf, 2);
    push_le16(&mut buf, 16);
    push_tag(&mut buf, 100, 97, 116, 97);
    push_le32(&mut buf, data_len);
    assert(buf@ =~= wav_header(n as int));
    let ghost header = buf@;
    let mut i: usize = 0;
    while i < n
        invariant
            i <= n == samples@.len(),
            header == wav_header(n as int),
            buf@ == header + pcm_bytes(samples@.subrange(0, i as int)),
            buf@.len() == 44 + 2 * i,
        decreases n - i,
    {
        let ghost before = buf@;
        push_le16(&mut buf, samples[i] as u16);
        proof {
            assert(samples@.subrange(0, i + 1).drop_last() =~= samples@.subrange(0, i as int));
            assert(samples@.subrange(0, i + 1).last() == samples@[i as int]);
            assert(buf@ =~= header + pcm_bytes(samples@.subrange(0, i + 1)));
        }
        i = i + 1;
    }
    assert(samples@.subrange(0, n as int) =~= samples@);
    buf
}

/// The base64 text (standard alphabet, with padding) that the `base64`
/// crate's `STANDARD` engine produces for `bytes`.
pub uninterp spec fn base64_standard(bytes: Seq<u8>) -> Seq<char>;

/// Calls `base64::engine::general_purpose::STANDARD.encode`. The text is
/// named by `base64_standard`; its length, four characters for each started
/// group of three bytes, is what the crate allocates and fills.
#[verifier::external_body]
fn base64_encode(bytes: &[u8]) -> (r: String)
    requires
        4 * ((bytes@.len() + 2) / 3) <= usize::MAX,
    ensures
        r@ == base64_standard(bytes@),
        r@.len() == 4 * ((bytes@.len() + 2) / 3),
{
    base64::engine::general_purpose::STANDARD.encode(bytes)
}

/// The data URL of a segment as sent to the service.
pub open spec fn audio_data_url(samples: Seq<i16>) -> Seq<char> {
    "data:audio/wav;base64,"@ + base64_standard(wav_file(samples))
}

/// The `data:` URL that carries a segment as base64 WAV.
pub fn audio_data(samples: &[i16]) -> (r: String)
    requires
        44 + 2 * samples@.len() <= u32::MAX,
        4 * ((44 + 2 * samples@.len() + 2) / 3) <= usize::MAX,
    ensures
        r@ == audio_data_url(samples@),
{
    let wav = encode_wav(samples);
    let encoded = base64_encode(wav.as_slice());
    data_url(encoded.as_str())
}

/// The `data:` URL of base64-encoded WAV audio.
pub fn data_url(encoded: &str) -> (r: String)
    ensures
        r@ == "data:audio/wav;base64,"@ + encoded@,
{
    let mut url = chars_of("data:audio/wav;base64,");
    push_str(&mut url, encoded);
    string_of(&url)
}

/// The language code sent to the service: the part of the configured
/// language before the first `-`, unless it is empty or `auto`.
pub open spec fn language_code(language: Seq<char>) -> Option<Seq<char>> {
    let first = language.subrange(0, stop(language, Strip::Dash, 0));
    if first.len() == 0 || first == "auto"@ {
        None
    } else {
        Some(first)
    }
}

pub fn asr_language_code(language: &str) -> (r: Option<String>)
    ensures
        match r {
            Some(c) => language_code(language@) == Some(c@),
            None => language_code(language@) is None,
        },
{
    let s = chars_of(language);
    let i = stop_index(&s, Strip::Dash, 0);
    proof {
        lemma_stop_bounds(s@, Strip::Dash, 0);
    }
    let first = slice_of(&s, 0, i);
    if first.len() == 0 || chars_eq(&first, &chars_of("auto")) {
        None
    } else {
        Some(string_of(&first))
    }
}

/// The default service base URL.
pub open spec fn default_base_url() -> Seq<char> {
    "https://dashscope.aliyuncs.com/compatible-mode/v1"@
}

/// The chat-completions endpoint: the configured base URL (when set and not
/// blank, else the default) without trailing slashes, then
/// `/chat/completions`.
pub open spec fn endpoint_of(base: Option<Seq<char>>) -> Seq<char> {
    let b = match base {
        Some(v) => if trim(v).len() > 0 {
            v
        } else {
            default_base_url()
        },
        None => default_base_url(),
    };
    trim_back(b, Strip::Slash) + "/chat/completions"@
}

pub fn endpoint(base: Option<&str>) -> (r: String)
    ensures
        r@ == endpoint_of(
            match base {
                Some(v) => Some(v@),
                None => None,
            },
        ),
{
    let b = match base {
        Some(v) => {
            let c = chars_of(v);
            if trim_chars(&c).len() > 0 {
                c
            } else {
                chars_of("https://dashscope.aliyuncs.com/compatible-mode/v1")
            }
        },
        None => chars_of("https://dashscope.aliyuncs.com/compatible-mode/v1"),
    };
    let mut e = trimmed_back(&b, Strip::Slash);
    push_str(&mut e, "/chat/completions");
    string_of(&e)
}

/// `s` with every trailing copy of `suffix` removed
/// (`str::trim_end_matches` with a string pattern).
pub open spec fn strip_suffixes(s: Seq<char>, suffix: Seq<char>) -> Seq<char>
    decreases s.len(),
{
    if suffix.len() > 0 && suffix.len() <= s.len() && has_at(s, suffix, s.len() - suffix.len()) {
        strip_suffixes(s.subrange(0, s.len() - suffix.len()), suffix)
    } else {
        s
    }
}

/// The model-list URL used to test the connection.
pub open spec fn models_url_of(base: Option<Seq<char>>) -> Seq<char> {
    strip_suffixes(endpoint_of(base), "/chat/completions"@) + "/models"@
}

pub fn models_url(base: Option<&str>) -> (r: String)
    ensures
        r@ == models_url_of(
            match base {
                Some(v) => Some(v@),
                None => None,
            },
        ),
{
    let e = endpoint(base);
    let c = chars_of(e.as_str());
    let suffix = chars_of("/chat/completions");
    let mut end = c.len();
    proof {
        reveal_strlit("/chat/completions");
        assert(c@.subrange(0, end as int) =~= c@);
    }
    while suffix.len() <= end && crate::text::matches_at(&c, &suffix, end - suffix.len())
        invariant
            end <= c@.len(),
            suffix@ == "/chat/completions"@,
            suffix@.len() > 0,
            strip_suffixes(c@.subrange(0, end as int), suffix@) == strip_suffixes(c@, suffix@),
        decreases end,
    {
        proof {
            let s = c@.subrange(0, end as int);
            assert(s.subrange(end - suffix@.len(), end as int) =~= c@.subrange(
                end - suffix@.len(),
                end as int,
            ));
            assert(s.subrange(0, end - suffix@.len()) =~= c@.subrange(0, end - suffix@.len()));
        }
        end = end - suffix.len();
    }
    proof {
        let s = c@.subrange(0, end as int);
        if suffix@.len() <= end {
            assert(s.subrange(end - suffix@.len(), end as int) =~= c@.subrange(
                end - suffix@.len(),
                end as int,
            ));
        }
    }
    let mut r = slice_of(&c, 0, end);
    push_str(&mut r, "/models");
    string_of(&r)
}

/// The transcript text of a reply: its text parts concatenated and trimmed.
/// A reply whose content is a single string counts as one part.
pub fn response_text(parts: &Vec<String>) -> (r: String)
    ensures
        r@ == trim(join(parts@.map_values(|s: String| s@), Seq::empty())),
{
    let mut pieces: Vec<Vec<char>> = Vec::new();
    let mut i: usize = 0;
    while i < parts.len()
        invariant
            i <= parts@.len(),
            char_views(pieces@) == parts@.subrange(0, i as int).map_values(|s: String| s@),
        decreases parts.len() - i,
    {
        let p = chars_of(parts[i].as_str());
        let ghost before = char_views(pieces@);
        pieces.push(p);
        assert(char_views(pieces@) =~= before.push(p@));
        i = i + 1;
        assert(parts@.subrange(0, i as int).map_values(|s: String| s@) =~= before.push(p@));
    }
    assert(parts@.subrange(0, parts@.len() as int) =~= parts@);
    let empty: Vec<char> = Vec::new();
    assert(empty@ =~= Seq::<char>::empty());
    let joined = join_chars(&pieces, &empty);
    string_of(&trim_chars(&joined))
}

/// Sum of the squares of the samples.
pub open spec fn sum_squares(s: Seq<i16>) -> int
    decreases s.len(),
{
    if s.len() == 0 {
        0
    } else {
        sum_squares(s.drop_last()) + s.last() * s.last()
    }
}

/// A chunk too quiet to transcribe: non-empty with mean square energy
/// below 0.25 (computed exactly).
pub open spec fn is_quiet(s: Seq<i16>) -> bool {
    s.len() > 0 && 4 * sum_squares(s) < s.len()
}

fn quiet(pcm: &[i16]) -> (r: bool)
    ensures
        r == is_quiet(pcm@),
{
    let n = pcm.len();
    if n == 0 {
        return false;
    }
    let mut sum: u128 = 0;
    let mut i: usize = 0;
    while i < n
        invariant
            i <= n == pcm@.len(),
            sum == sum_squares(pcm@.subrange(0, i as int)),
            sum <= 1073741824 * i,
        decreases n - i,
    {
        let v = pcm[i] as i32;
        proof {
            assert(pcm@.subrange(0, i + 1).drop_last() =~= pcm@.subrange(0, i as int));
            assert(pcm@.subrange(0, i + 1).last() == pcm@[i as int]);
            assert(0 <= v * v <= 1073741824) by (nonlinear_arith)
                requires
                    -32768 <= v <= 32767,
            ;
        }
        let sq = (v * v) as u128;
        assert(sq == pcm@[i as int] * pcm@[i as int]);
        sum = sum + sq;
        i = i + 1;
    }
    assert(pcm@.subrange(0, n as int) =~= pcm@);
    4 * sum < n as u128
}

/// What the caller does after feeding a chunk.
#[derive(Debug)]
pub enum FeedAction {
    /// Nothing to send.
    Nothing,
    /// Show the placeholder `[识别中…]` at `timestamp_ms`, then send the
    /// segment for transcription.
    SendSegment { samples: Vec<i16>, timestamp_ms: u64 },
}

/// The streaming state of the Qwen ASR provider.
pub struct QwenAsrSTT {
    pub api_key: String,
    pub language: String,
    pub is_streaming: bool,
    pub stopped: bool,
    pub started_at_ms: Option<u64>,
    pub audio_buffer: Vec<i16>,
    pub segment_sample_threshold: usize,
}

/// Milliseconds from `start` to `now`, or zero when the clock went back.
pub open spec fn elapsed_ms(now: u64, start: u64) -> int {
    if now >= start {
        now - start
    } else {
        0
    }
}

/// Feeding a loud chunk: the buffer grows by the chunk, and once it holds
/// `threshold` samples it is handed out whole as a segment and emptied.
pub open spec fn feed_step(buffer: Seq<i16>, pcm: Seq<i16>, threshold: int) -> (
    Option<Seq<i16>>,
    Seq<i16>,
) {
    let b = buffer + pcm;
    if b.len() >= threshold {
        (Some(b), Seq::empty())
    } else {
        (None, b)
    }
}

/// Feeding loud chunks in turn, from `buffer`: the segments handed out, in
/// order, and the buffer left.
pub open spec fn feed_all(buffer: Seq<i16>, chunks: Seq<Seq<i16>>, threshold: int) -> (
    Seq<Seq<i16>>,
    Seq<i16>,
)
    decreases chunks.len(),
{
    if chunks.len() == 0 {
        (Seq::empty(), buffer)
    } else {
        let (sent, rest) = feed_all(buffer, chunks.drop_last(), threshold);
        let (segment, after) = feed_step(rest, chunks.last(), threshold);
        (
            match segment {
                Some(seg) => sent.push(seg),
                None => sent,
            },
            after,
        )
    }
}

/// The samples of `ss`, one after another.
pub open spec fn concat_all(ss: Seq<Seq<i16>>) -> Seq<i16>
    decreases ss.len(),
{
    if ss.len() == 0 {
        Seq::empty()
    } else {
        concat_all(ss.drop_last()) + ss.last()
    }
}

/// No sample of a loud chunk is lost or repeated: the segments handed out,
/// followed by what is still buffered, are exactly the starting buffer
/// followed by every chunk fed; and every segment holds at least
/// `threshold` samples.
pub proof fn law_segments_keep_every_sample(
    buffer: Seq<i16>,
    chunks: Seq<Seq<i16>>,
    threshold: int,
)
    ensures
        concat_all(feed_all(buffer, chunks, threshold).0) + feed_all(buffer, chunks, threshold).1
            == buffer + concat_all(chunks),
        forall|i: int|
            0 <= i < feed_all(buffer, chunks, threshold).0.len() ==> (#[trigger] feed_all(
                buffer,
                chunks,
                threshold,
            ).0[i]).len() >= threshold,
    decreases chunks.len(),
{
    if chunks.len() > 0 {
        law_segments_keep_every_sample(buffer, chunks.drop_last(), threshold);
        let (sent, rest) = feed_all(buffer, chunks.drop_last(), threshold);
        let b = rest + chunks.last();
        let init = concat_all(chunks.drop_last());
        assert(concat_all(chunks) == init + chunks.last());
        assert((concat_all(sent) + rest) + chunks.last() =~= concat_all(sent) + b);
        assert((buffer + init) + chunks.last() =~= buffer + (init + chunks.last()));
        if b.len() >= threshold {
            assert(concat_all(sent.push(b)) =~= concat_all(sent) + b) by {
                assert(sent.push(b).drop_last() =~= sent);
            }
            assert(concat_all(sent.push(b)) + Seq::<i16>::empty() =~= buffer + concat_all(chunks));
            assert forall|i: int| 0 <= i < sent.push(b).len() implies (#[trigger] sent.push(
                b,
            )[i]).len() >= threshold by {
                if i < sent.len() {
                    assert(sent.push(b)[i] == sent[i]);
                }
            }
        } else {
            assert(concat_all(sent) + b =~= buffer + concat_all(chunks));
        }
    }
}

impl QwenAsrSTT {
    /// A provider without a key, for `en-US`, not streaming.
    pub fn new() -> (r: Self)
        ensures
            r.api_key@ == Seq::<char>::empty(),
            r.language@ == "en-US"@,
            !r.is_streaming,
            !r.stopped,
            r.started_at_ms is None,
            r.audio_buffer@ == Seq::<i16>::empty(),
            r.segment_sample_threshold == segment_samples(),
    {
        QwenAsrSTT {
            api_key: String::new(),
            language: string_of(&chars_of("en-US")),
            is_streaming: false,
            stopped: false,
            started_at_ms: None,
            audio_buffer: Vec::new(),
            segment_sample_threshold: 80000,
        }
    }

    /// A provider with the given key.
    pub fn with_api_key(api_key: &str) -> (r: Self)
        ensures
            r.api_key@ == api_key@,
            r.language@ == "en-US"@,
            !r.is_streaming,
            r.audio_buffer@ == Seq::<i16>::empty(),
            r.segment_sample_threshold == segment_samples(),
    {
        let mut r = Self::new();
        r.api_key = string_of(&chars_of(api_key));
        r
    }

    pub fn set_api_key(&mut self, api_key: &str)
        ensures
            final(self).api_key@ == api_key@,
            final(self).language == old(self).language,
            final(self).is_streaming == old(self).is_streaming,
            final(self).audio_buffer == old(self).audio_buffer,
    {
        self.api_key = string_of(&chars_of(api_key));
    }

    pub fn set_language(&mut self, language: &str)
        ensures
            final(self).language@ == language@,
            final(self).api_key == old(self).api_key,
            final(self).is_streaming == old(self).is_streaming,
            final(self).audio_buffer == old(self).audio_buffer,
    {
        self.language = string_of(&chars_of(language));
    }

    pub fn provider_name(&self) -> (r: &'static str)
        ensures
            r@ == "Qwen ASR"@,
    {
        "Qwen ASR"
    }

    /// Starts a stream at `now_ms`: refused when one is already active or no
    /// key is configured.
    pub fn start_stream(&mut self, now_ms: u64) -> (r: Result<(), String>)
        ensures
            final(self).api_key == old(self).api_key,
            final(self).language == old(self).language,
            final(self).segment_sample_threshold == old(self).segment_sample_threshold,
            if old(self).is_streaming {
                r is Err && r->Err_0@ == "Stream already active"@ && *final(self) == *old(self)
            } else if trim(old(self).api_key@).len() == 0 {
                r is Err && r->Err_0@ == "Qwen API key not configured"@ && *final(self) == *old(self)
            } else {
                &&& r is Ok
                &&& final(self).is_streaming
                &&& !final(self).stopped
                &&& final(self).started_at_ms == Some(now_ms)
                &&& final(self).audio_buffer@ == Seq::<i16>::empty()
            },
    {
        if self.is_streaming {
            return Err(string_of(&chars_of("Stream already active")));
        }
        if trim_chars(&chars_of(self.api_key.as_str())).len() == 0 {
            return Err(string_of(&chars_of("Qwen API key not configured")));
        }
        self.is_streaming = true;
        self.stopped = false;
        self.started_at_ms = Some(now_ms);
        self.audio_buffer.clear();
        Ok(())
    }

    /// Feeds a chunk of PCM captured at `chunk_timestamp_ms`, at time
    /// `now_ms`. Quiet chunks and chunks outside a stream are dropped; once
    /// five seconds are buffered, the buffer is handed out as a segment.
    pub fn feed_audio(&mut self, pcm: &[i16], chunk_timestamp_ms: u64, now_ms: u64) -> (r: FeedAction)
        requires
            old(self).audio_buffer@.len() + pcm@.len() <= usize::MAX,
        ensures
            final(self).api_key == old(self).api_key,
            final(self).language == old(self).language,
            final(self).is_streaming == old(self).is_streaming,
            final(self).stopped == old(self).stopped,
            final(self).started_at_ms == old(self).started_at_ms,
            final(self).segment_sample_threshold == old(self).segment_sample_threshold,
            if !old(self).is_streaming || old(self).stopped || is_quiet(pcm@) {
                r is Nothing && final(self).audio_buffer == old(self).audio_buffer
            } else {
                let (segment, rest) = feed_step(
                    old(self).audio_buffer@,
                    pcm@,
                    old(self).segment_sample_threshold as int,
                );
                &&& final(self).audio_buffer@ == rest
                &&& match segment {
                    Some(seg) => r matches FeedAction::SendSegment { samples, timestamp_ms }
                        && samples@ == seg && timestamp_ms == match old(self).started_at_ms {
                        Some(s) => elapsed_ms(now_ms, s) as u64,
                        None => chunk_timestamp_ms,
                    },
                    None => r is Nothing,
                }
            },
    {
        if !self.is_streaming || self.stopped {
            return FeedAction::Nothing;
        }
        if quiet(pcm) {
            return FeedAction::Nothing;
        }
        let mut i: usize = 0;
        let ghost start = self.audio_buffer@;
        while i < pcm.len()
            invariant
                i <= pcm@.len(),
                self.audio_buffer@ == start + pcm@.subrange(0, i as int),
                self.api_key == old(self).api_key,
                self.language == old(self).language,
                self.is_streaming == old(self).is_streaming,
                self.stopped == old(self).stopped,
                self.started_at_ms == old(self).started_at_ms,
                self.segment_sample_threshold == old(self).segment_sample_threshold,
                start == old(self).audio_buffer@,
            decreases pcm.len() - i,
        {
            self.audio_buffer.push(pcm[i]);
            i = i + 1;
            assert(self.audio_buffer@ =~= start + pcm@.subrange(0, i as int));
        }
        assert(pcm@.subrange(0, pcm@.len() as int) =~= pcm@);
        if self.audio_buffer.len() >= self.segment_sample_threshold {
            let mut segment: Vec<i16> = Vec::new();
            std::mem::swap(&mut segment, &mut self.audio_buffer);
            let timestamp_ms = match self.started_at_ms {
                Some(s) => if now_ms >= s {
                    now_ms - s
                } else {
                    0
                },
                None => chunk_timestamp_ms,
            };
            return FeedAction::SendSegment { samples: segment, timestamp_ms };
        }
        FeedAction::Nothing
    }

    /// Stops the stream at `now_ms`. A partly filled buffer is handed out
    /// as a last segment.
    pub fn stop_stream(&mut self, now_ms: u64) -> (r: Option<(Vec<i16>, u64)>)
        ensures
            final(self).api_key == old(self).api_key,
            final(self).language == old(self).language,
            final(self).segment_sample_threshold == old(self).segment_sample_threshold,
            if !old(self).is_streaming {
                r is None && *final(self) == *old(self)
            } else {
                &&& !final(self).is_streaming
                &&& final(self).stopped
                &&& final(self).started_at_ms is None
                &&& final(self).audio_buffer@ == Seq::<i16>::empty()
                &&& if old(self).audio_buffer@.len() > 0 {
                    r matches Some((samples, timestamp_ms)) && samples@ == old(self).audio_buffer@
                        && timestamp_ms == match old(self).started_at_ms {
                        Some(s) => elapsed_ms(now_ms, s) as u64,
                        None => 0u64,
                    }
                } else {
                    r is None
                }
            },
    {
        if !self.is_streaming {
            return None;
        }
        self.stopped = true;
        let mut last: Option<(Vec<i16>, u64)> = None;
        if self.audio_buffer.len() > 0 {
            let mut segment: Vec<i16> = Vec::new();
            std::mem::swap(&mut segment, &mut self.audio_buffer);
            let timestamp_ms = match self.started_at_ms {
                Some(s) => if now_ms >= s {
                    now_ms - s
                } else {
                    0
                },
                None => 0,
            };
            last = Some((segment, timestamp_ms));
        }
        self.is_streaming = false;
        self.started_at_ms = None;
        last
    }
}

} // verus!
