//! Choosing how a DSD track reaches the DAC: native DSD, DSD over PCM (DoP),
//! or PCM at 44.1 kHz, from what the ALSA stream advertises; and the byte
//! layouts of the first two.

use vstd::prelude::*;
use crate::playback::PlaybackOperationError;
use crate::protocol::PlaybackFailureClass;
use crate::text::{
    chars_of, copy_range, decimal, eq_str, lemma_decimal_digits, lines, lines_of, lower, owned,
    parse_u64, parse_unsigned, push_str, split_chars, split_on, strip_prefix, strip_prefix_chars,
    string_from, to_ascii_lower, trim, trimmed, u64_decimal, views,
};

verus! {

/// How DSD tracks are sent to the DAC.
#[derive(Debug, Clone, Copy, PartialEq, Eq, Structural)]
pub enum DsdOutputPolicy {
    NativeDsd,
    Dop,
}

/// The policy named by `raw`, case and surrounding whitespace ignored; the
/// older names `strict_native` and `native_dop` mean native DSD.
pub open spec fn policy_from(raw: Seq<char>) -> Option<DsdOutputPolicy> {
    let v = lower(trim(raw));
    if v == "native_dsd"@ || v == "strict_native"@ || v == "native_dop"@ {
        Some(DsdOutputPolicy::NativeDsd)
    } else if v == "dop"@ {
        Some(DsdOutputPolicy::Dop)
    } else {
        None
    }
}

/// The name of a policy.
pub open spec fn policy_name(p: DsdOutputPolicy) -> Seq<char> {
    match p {
        DsdOutputPolicy::NativeDsd => "native_dsd"@,
        DsdOutputPolicy::Dop => "dop"@,
    }
}

impl DsdOutputPolicy {
    /// The policy named by `raw`.
    pub fn parse(raw: &str) -> (r: Option<Self>)
        ensures
            r == policy_from(raw@),
    {
        let c = chars_of(raw);
        let t = trimmed(c.as_slice());
        let v = to_ascii_lower(t.as_slice());
        let vs = v.as_slice();
        if eq_str(vs, "native_dsd") || eq_str(vs, "strict_native") || eq_str(vs, "native_dop") {
            Some(DsdOutputPolicy::NativeDsd)
        } else if eq_str(vs, "dop") {
            Some(DsdOutputPolicy::Dop)
        } else {
            None
        }
    }

    /// The name of this policy.
    pub fn as_str(self) -> (r: &'static str)
        ensures
            r@ == policy_name(self),
    {
        match self {
            DsdOutputPolicy::NativeDsd => "native_dsd",
            DsdOutputPolicy::Dop => "dop",
        }
    }
}

/// Reading back the name of a policy gives the policy.
pub proof fn lemma_policy_round_trip(p: DsdOutputPolicy)
    ensures
        policy_from(policy_name(p)) == Some(p),
{
    reveal_strlit("native_dsd");
    reveal_strlit("strict_native");
    reveal_strlit("native_dop");
    reveal_strlit("dop");
    let n = policy_name(p);
    assert(trim(n) == n) by {
        crate::text::lemma_trim_fixed(n);
    }
    assert(lower(n) =~= n);
    assert("native_dsd"@[8] != "native_dop"@[8]);
}

/// The ALSA sample formats that carry native DSD.
#[derive(Debug, Clone, Copy, PartialEq, Eq, Structural)]
pub enum AlsaDsdFormat {
    U8,
    U16Le,
    U16Be,
    U32Le,
    U32Be,
}

/// The `aplay` name of a native DSD format.
pub open spec fn dsd_format_name(f: AlsaDsdFormat) -> Seq<char> {
    match f {
        AlsaDsdFormat::U8 => "DSD_U8"@,
        AlsaDsdFormat::U16Le => "DSD_U16_LE"@,
        AlsaDsdFormat::U16Be => "DSD_U16_BE"@,
        AlsaDsdFormat::U32Le => "DSD_U32_LE"@,
        AlsaDsdFormat::U32Be => "DSD_U32_BE"@,
    }
}

/// How many DSD bits one frame of a native format carries per channel.
pub open spec fn dsd_divisor(f: AlsaDsdFormat) -> u32 {
    match f {
        AlsaDsdFormat::U8 => 8,
        AlsaDsdFormat::U16Le => 16,
        AlsaDsdFormat::U16Be => 16,
        AlsaDsdFormat::U32Le => 32,
        AlsaDsdFormat::U32Be => 32,
    }
}

/// The bytes written for one DSD byte in a native format: the byte in the
/// first (little-endian) or last (big-endian) place, zeros elsewhere.
pub open spec fn dsd_bytes(f: AlsaDsdFormat, b: u8) -> Seq<u8> {
    match f {
        AlsaDsdFormat::U8 => seq![b],
        AlsaDsdFormat::U16Le => seq![b, 0u8],
        AlsaDsdFormat::U16Be => seq![0u8, b],
        AlsaDsdFormat::U32Le => seq![b, 0u8, 0u8, 0u8],
        AlsaDsdFormat::U32Be => seq![0u8, 0u8, 0u8, b],
    }
}

fn push_bytes(out: &mut Vec<u8>, bytes: &[u8])
    ensures
        final(out)@ == old(out)@ + bytes@,
{
    let mut i: usize = 0;
    let ghost start = out@;
    while i < bytes.len()
        invariant
            0 <= i <= bytes.len(),
            out@ == start + bytes@.take(i as int),
        decreases bytes.len() - i,
    {
        out.push(bytes[i]);
        assert(bytes@.take(i as int + 1) =~= bytes@.take(i as int).push(bytes@[i as int]));
        i = i + 1;
    }
    assert(bytes@.take(bytes.len() as int) =~= bytes@);
}

impl AlsaDsdFormat {
    /// The `aplay` name of this format.
    pub fn aplay_format(self) -> (r: &'static str)
        ensures
            r@ == dsd_format_name(self),
    {
        match self {
            AlsaDsdFormat::U8 => "DSD_U8",
            AlsaDsdFormat::U16Le => "DSD_U16_LE",
            AlsaDsdFormat::U16Be => "DSD_U16_BE",
            AlsaDsdFormat::U32Le => "DSD_U32_LE",
            AlsaDsdFormat::U32Be => "DSD_U32_BE",
        }
    }

    /// How many DSD bits one frame carries per channel: the DSD rate divided
    /// by this is the frame rate.
    pub fn sample_rate_divisor(self) -> (r: u32)
        ensures
            r == dsd_divisor(self),
    {
        match self {
            AlsaDsdFormat::U8 => 8,
            AlsaDsdFormat::U16Le => 16,
            AlsaDsdFormat::U16Be => 16,
            AlsaDsdFormat::U32Le => 32,
            AlsaDsdFormat::U32Be => 32,
        }
    }

    /// Appends the bytes for one DSD byte in this format.
    pub fn push_dsd_byte(self, byte: u8, out: &mut Vec<u8>)
        ensures
            final(out)@ == old(out)@ + dsd_bytes(self, byte),
    {
        let bytes: [u8; 4] = match self {
            AlsaDsdFormat::U8 => [byte, 0, 0, 0],
            AlsaDsdFormat::U16Le => [byte, 0, 0, 0],
            AlsaDsdFormat::U16Be => [0, byte, 0, 0],
            AlsaDsdFormat::U32Le => [byte, 0, 0, 0],
            AlsaDsdFormat::U32Be => [0, 0, 0, byte],
        };
        let n: usize = match self {
            AlsaDsdFormat::U8 => 1,
            AlsaDsdFormat::U16Le => 2,
            AlsaDsdFormat::U16Be => 2,
            AlsaDsdFormat::U32Le => 4,
            AlsaDsdFormat::U32Be => 4,
        };
        let all = bytes.as_slice();
        let mut part: Vec<u8> = Vec::new();
        let mut i: usize = 0;
        while i < n
            invariant
                0 <= i <= n,
                n <= 4,
                all@.len() == 4,
                part@ == all@.take(i as int),
            decreases n - i,
        {
            part.push(all[i]);
            assert(all@.take(i as int + 1) =~= all@.take(i as int).push(all@[i as int]));
            i = i + 1;
        }
        assert(part@ =~= dsd_bytes(self, byte));
        push_bytes(out, part.as_slice());
    }

    /// The bytes of a block of the DSD stream in this format, each DSD byte
    /// in turn.
    pub fn pack_native(self, block: &[u8]) -> (r: Vec<u8>)
        ensures
            r@ == native_bytes(self, block@),
    {
        let mut out: Vec<u8> = Vec::new();
        let mut i: usize = 0;
        while i < block.len()
            invariant
                i <= block@.len(),
                out@ == native_bytes(self, block@.take(i as int)),
            decreases block@.len() - i,
        {
            assert(block@.take(i + 1).drop_last() =~= block@.take(i as int));
            self.push_dsd_byte(block[i], &mut out);
            i = i + 1;
        }
        assert(block@.take(block@.len() as int) =~= block@);
        out
    }
}

/// The bytes of the DSD stream `data` in the native format `f`.
pub open spec fn native_bytes(f: AlsaDsdFormat, data: Seq<u8>) -> Seq<u8>
    decreases data.len(),
{
    if data.len() == 0 {
        Seq::empty()
    } else {
        native_bytes(f, data.drop_last()) + dsd_bytes(f, data.last())
    }
}

/// Whether a native DSD format stores its samples big-endian.
pub open spec fn big_endian(f: AlsaDsdFormat) -> bool {
    f is U16Be || f is U32Be
}

/// A native sample is as wide as the format's bits per frame and channel; the
/// DSD byte stands in its last byte in a big-endian format and in its first
/// byte otherwise, and every other byte is zero.
pub proof fn lemma_native_sample_layout(f: AlsaDsdFormat, b: u8)
    ensures
        dsd_bytes(f, b).len() * 8 == dsd_divisor(f),
        big_endian(f) ==> dsd_bytes(f, b).last() == b && forall|k: int|
            0 <= k < dsd_bytes(f, b).len() - 1 ==> #[trigger] dsd_bytes(f, b)[k] == 0,
        !big_endian(f) ==> dsd_bytes(f, b)[0] == b && forall|k: int|
            0 < k < dsd_bytes(f, b).len() ==> #[trigger] dsd_bytes(f, b)[k] == 0,
{
}

/// A packed native stream holds one sample per DSD byte, in order: sample `k`
/// is the sample of byte `k`.
pub proof fn lemma_native_stream_layout(f: AlsaDsdFormat, data: Seq<u8>)
    ensures
        native_bytes(f, data).len() == data.len() * (dsd_divisor(f) / 8),
        forall|k: int| 0 <= k < data.len() ==> native_bytes(f, data).subrange(
            k * (dsd_divisor(f) / 8),
            (k + 1) * (dsd_divisor(f) / 8),
        ) == dsd_bytes(f, #[trigger] data[k]),
    decreases data.len(),
{
    let w = dsd_divisor(f) / 8;
    assert(dsd_bytes(f, 0).len() == w);
    if data.len() > 0 {
        let rest = data.drop_last();
        lemma_native_stream_layout(f, rest);
        let n = rest.len() as int;
        let head = native_bytes(f, rest);
        let tail = dsd_bytes(f, data.last());
        assert(tail.len() == w);
        assert(head.len() == n * w);
        assert((n + 1) * w == n * w + w) by (nonlinear_arith);
        assert forall|k: int| 0 <= k < data.len() implies native_bytes(f, data).subrange(k * w, (k + 1) * w)
            == dsd_bytes(f, #[trigger] data[k]) by {
            assert((k + 1) * w == k * w + w) by (nonlinear_arith);
            if k < n {
                assert(k * w + w <= n * w) by (nonlinear_arith)
                    requires
                        k < n,
                        w >= 0,
                ;
                assert(0 <= k * w) by (nonlinear_arith)
                    requires
                        k >= 0,
                        w >= 0,
                ;
                assert(data[k] == rest[k]);
                assert(native_bytes(f, data).subrange(k * w, (k + 1) * w) =~= head.subrange(k * w, (k + 1) * w));
            } else {
                assert(native_bytes(f, data).subrange(k * w, (k + 1) * w) =~= tail);
            }
        }
    }
}

/// The PCM formats that can carry DSD over PCM.
#[derive(Debug, Clone, Copy, PartialEq, Eq, Structural)]
pub enum DopPcmFormat {
    S32Le,
    S24Le,
    S24_3Le,
}

/// The `aplay` name of a DoP carrier format.
pub open spec fn dop_format_name(f: DopPcmFormat) -> Seq<char> {
    match f {
        DopPcmFormat::S32Le => "S32_LE"@,
        DopPcmFormat::S24Le => "S24_LE"@,
        DopPcmFormat::S24_3Le => "S24_3LE"@,
    }
}

/// The bytes of one DoP sample: the two DSD bytes and the marker, padded with
/// a zero byte in four-byte formats.
pub open spec fn dop_bytes(f: DopPcmFormat, lo: u8, hi: u8, marker: u8) -> Seq<u8> {
    match f {
        DopPcmFormat::S24_3Le => seq![lo, hi, marker],
        _ => seq![lo, hi, marker, 0u8],
    }
}

impl DopPcmFormat {
    /// The `aplay` name of this format.
    pub fn aplay_format(self) -> (r: &'static str)
        ensures
            r@ == dop_format_name(self),
    {
        match self {
            DopPcmFormat::S32Le => "S32_LE",
            DopPcmFormat::S24Le => "S24_LE",
            DopPcmFormat::S24_3Le => "S24_3LE",
        }
    }

    /// Appends one DoP sample.
    pub fn push_dop_sample(self, lo: u8, hi: u8, marker: u8, out: &mut Vec<u8>)
        ensures
            final(out)@ == old(out)@ + dop_bytes(self, lo, hi, marker),
    {
        let ghost start = out@;
        out.push(lo);
        out.push(hi);
        out.push(marker);
        match self {
            DopPcmFormat::S24_3Le => {},
            _ => {
                out.push(0u8);
            },
        }
        assert(out@ =~= start + dop_bytes(self, lo, hi, marker));
    }
}

/// How a DSD track is carried.
#[derive(Debug, Clone, Copy, PartialEq, Eq, Structural)]
pub enum DsdTransport {
    Native(AlsaDsdFormat),
    Dop(DopPcmFormat),
    Pcm,
}

/// The channel count and DSD bit rate of a DSD file.
#[derive(Debug, Clone, Copy, PartialEq, Eq, Structural)]
pub struct DsdSourceInfo {
    pub channels: usize,
    pub dsd_rate_hz: u32,
}

/// How to play a DSD track: the raw device, the transport, the channels and
/// the frame rate.
#[derive(Debug, PartialEq, Eq)]
pub struct DsdPlaybackPlan {
    pub device: String,
    pub transport: DsdTransport,
    pub channels: usize,
    pub sample_rate: u32,
}

/// The `aplay` name of a transport's sample format.
pub open spec fn transport_format_name(t: DsdTransport) -> Seq<char> {
    match t {
        DsdTransport::Native(f) => dsd_format_name(f),
        DsdTransport::Dop(f) => dop_format_name(f),
        DsdTransport::Pcm => "S16_LE"@,
    }
}

impl DsdPlaybackPlan {
    /// The `aplay` name of the plan's sample format.
    pub fn aplay_format(&self) -> (r: &'static str)
        ensures
            r@ == transport_format_name(self.transport),
    {
        match self.transport {
            DsdTransport::Native(f) => f.aplay_format(),
            DsdTransport::Dop(f) => f.aplay_format(),
            DsdTransport::Pcm => "S16_LE",
        }
    }
}

/// The formats and rates an ALSA playback stream advertises.
#[derive(Debug, PartialEq, Eq)]
pub struct AlsaStreamCapabilities {
    pub formats: Vec<String>,
    pub rates: Vec<u32>,
}

/// The views of a list of strings.
pub open spec fn names(v: Seq<String>) -> Seq<Seq<char>> {
    v.map_values(|s: String| s@)
}

/// Whether the stream advertises `format` and `rate`.
pub open spec fn caps_support(formats: Seq<Seq<char>>, rates: Seq<u32>, format: Seq<char>, rate: u32) -> bool {
    formats.contains(format) && rates.contains(rate)
}

/// The list written out, `(none)` when empty.
pub open spec fn listed(items: Seq<Seq<char>>) -> Seq<char> {
    if items.len() == 0 {
        "(none)"@
    } else {
        crate::text::join(items, ", "@)
    }
}

/// The decimal forms of the rates.
pub open spec fn rate_texts(rates: Seq<u32>) -> Seq<Seq<char>> {
    rates.map_values(|r: u32| decimal(r as nat))
}

impl AlsaStreamCapabilities {
    /// Whether the stream advertises `format` at `rate`.
    pub fn supports(&self, format: &str, rate: u32) -> (r: bool)
        ensures
            r == caps_support(names(self.formats@), self.rates@, format@, rate),
    {
        let has_format = crate::queue::contains_text(&self.formats, format);
        proof {
            assert(crate::media_model::ids(self.formats@) =~= names(self.formats@));
        }
        let mut has_rate = false;
        let mut i: usize = 0;
        while i < self.rates.len()
            invariant
                0 <= i <= self.rates.len(),
                has_rate == self.rates@.take(i as int).contains(rate),
            decreases self.rates.len() - i,
        {
            proof {
                let t = self.rates@.take(i as int + 1);
                assert(t =~= self.rates@.take(i as int).push(self.rates@[i as int]));
                if self.rates@.take(i as int).contains(rate) {
                    let j = choose|j: int| 0 <= j < i && self.rates@.take(i as int)[j] == rate;
                    assert(t[j] == rate);
                }
                if t.contains(rate) && self.rates@[i as int] != rate {
                    let j = choose|j: int| 0 <= j < t.len() && t[j] == rate;
                    assert(self.rates@.take(i as int)[j] == rate);
                }
                if self.rates@[i as int] == rate {
                    assert(t[i as int] == rate);
                }
            }
            if self.rates[i] == rate {
                has_rate = true;
            }
            i = i + 1;
        }
        assert(self.rates@.take(self.rates.len() as int) =~= self.rates@);
        has_format && has_rate
    }

    /// A one-line description: `formats=[...] rates=[...]`.
    pub fn summary(&self) -> (r: String)
        ensures
            r@ == "formats=["@ + listed(names(self.formats@)) + "] rates=["@ + listed(
                rate_texts(self.rates@),
            ) + "]"@,
    {
        let mut fs: Vec<Vec<char>> = Vec::new();
        let mut i: usize = 0;
        while i < self.formats.len()
            invariant
                0 <= i <= self.formats.len(),
                views(fs@) =~= names(self.formats@).take(i as int),
            decreases self.formats.len() - i,
        {
            let ghost before = views(fs@);
            fs.push(chars_of(self.formats[i].as_str()));
            assert(views(fs@) =~= before.push(self.formats@[i as int]@));
            i = i + 1;
        }
        let mut rs: Vec<Vec<char>> = Vec::new();
        let mut j: usize = 0;
        while j < self.rates.len()
            invariant
                0 <= j <= self.rates.len(),
                views(rs@) =~= rate_texts(self.rates@).take(j as int),
            decreases self.rates.len() - j,
        {
            let ghost before = views(rs@);
            rs.push(u64_decimal(self.rates[j] as u64));
            assert(views(rs@) =~= before.push(decimal(self.rates@[j as int] as nat)));
            j = j + 1;
        }
        assert(names(self.formats@).take(self.formats.len() as int) =~= names(self.formats@));
        assert(rate_texts(self.rates@).take(self.rates.len() as int) =~= rate_texts(self.rates@));
        let sep = chars_of(", ");
        let mut out = owned("formats=[");
        if fs.len() == 0 {
            push_str(&mut out, "(none)");
        } else {
            let joined = crate::text::join_chars(&fs, sep.as_slice());
            crate::text::append_chars(&mut out, joined.as_slice());
        }
        push_str(&mut out, "] rates=[");
        if rs.len() == 0 {
            push_str(&mut out, "(none)");
        } else {
            let joined = crate::text::join_chars(&rs, sep.as_slice());
            crate::text::append_chars(&mut out, joined.as_slice());
        }
        push_str(&mut out, "]");
        out
    }
}

/// The raw device for a `plughw:` device: `hw:` in its place; other devices as
/// they are.
pub open spec fn raw_device(device: Seq<char>) -> Seq<char> {
    match strip_prefix(device, "plughw:"@) {
        Some(rest) => "hw:"@ + rest,
        None => device,
    }
}

/// The raw device for `device`, bypassing the plug layer.
pub fn raw_dsd_device(device: &str) -> (r: String)
    ensures
        r@ == raw_device(device@),
{
    let c = chars_of(device);
    match strip_prefix_chars(c.as_slice(), "plughw:") {
        Some(rest) => {
            let mut s = owned("hw:");
            crate::text::append_chars(&mut s, rest.as_slice());
            s
        },
        None => owned(device),
    }
}

/// Taking the raw device twice changes nothing more.
pub proof fn lemma_raw_device_idempotent(device: Seq<char>)
    ensures
        raw_device(raw_device(device)) == raw_device(device),
{
    reveal_strlit("plughw:");
    reveal_strlit("hw:");
    let r = raw_device(device);
    if strip_prefix(device, "plughw:"@) is Some {
        assert(r[0] == 'h');
        assert("plughw:"@[0] == 'p');
        if strip_prefix(r, "plughw:"@) is Some {
            assert(r.take(7)[0] == r[0]);
        }
    } else {
        assert(r == device);
    }
}

/// The native DSD formats, in order of preference.
pub open spec fn native_order() -> Seq<AlsaDsdFormat> {
    seq![
        AlsaDsdFormat::U32Le,
        AlsaDsdFormat::U32Be,
        AlsaDsdFormat::U16Le,
        AlsaDsdFormat::U16Be,
        AlsaDsdFormat::U8,
    ]
}

/// The DoP carrier formats, in order of preference.
pub open spec fn dop_order() -> Seq<DopPcmFormat> {
    seq![DopPcmFormat::S32Le, DopPcmFormat::S24_3Le, DopPcmFormat::S24Le]
}

/// The value of a plan.
pub struct PlanModel {
    pub device: Seq<char>,
    pub transport: DsdTransport,
    pub channels: usize,
    pub sample_rate: u32,
}

impl View for DsdPlaybackPlan {
    type V = PlanModel;

    open spec fn view(&self) -> PlanModel {
        PlanModel {
            device: self.device@,
            transport: self.transport,
            channels: self.channels,
            sample_rate: self.sample_rate,
        }
    }
}

/// The first native format, from position `i` on, that the stream supports at
/// its frame rate.
pub open spec fn native_from(
    formats: Seq<Seq<char>>,
    rates: Seq<u32>,
    dsd_rate: u32,
    i: int,
) -> Option<AlsaDsdFormat>
    decreases 5 - i,
{
    if i < 0 || i >= 5 {
        None
    } else {
        let f = native_order()[i];
        if caps_support(formats, rates, dsd_format_name(f), dsd_rate / dsd_divisor(f)) {
            Some(f)
        } else {
            native_from(formats, rates, dsd_rate, i + 1)
        }
    }
}

/// The first DoP carrier, from position `i` on, that the stream supports at a
/// sixteenth of the DSD rate.
pub open spec fn dop_from(formats: Seq<Seq<char>>, rates: Seq<u32>, dsd_rate: u32, i: int) -> Option<DopPcmFormat>
    decreases 3 - i,
{
    if i < 0 || i >= 3 {
        None
    } else {
        let f = dop_order()[i];
        if caps_support(formats, rates, dop_format_name(f), dsd_rate / 16) {
            Some(f)
        } else {
            dop_from(formats, rates, dsd_rate, i + 1)
        }
    }
}

/// The native DSD plan: the first native format the stream supports at its
/// frame rate, on the raw device.
pub open spec fn native_plan(src: DsdSourceInfo, device: Seq<char>, formats: Seq<Seq<char>>, rates: Seq<u32>) -> Option<PlanModel> {
    match native_from(formats, rates, src.dsd_rate_hz, 0) {
        Some(f) => Some(
            PlanModel {
                device: raw_device(device),
                transport: DsdTransport::Native(f),
                channels: src.channels,
                sample_rate: src.dsd_rate_hz / dsd_divisor(f),
            },
        ),
        None => None,
    }
}

/// The DoP plan: the first carrier the stream supports at a sixteenth of the
/// DSD rate, on the raw device.
pub open spec fn dop_plan(src: DsdSourceInfo, device: Seq<char>, formats: Seq<Seq<char>>, rates: Seq<u32>) -> Option<PlanModel> {
    match dop_from(formats, rates, src.dsd_rate_hz, 0) {
        Some(f) => Some(
            PlanModel {
                device: raw_device(device),
                transport: DsdTransport::Dop(f),
                channels: src.channels,
                sample_rate: src.dsd_rate_hz / 16,
            },
        ),
        None => None,
    }
}

/// The PCM plan: 16-bit PCM at 44.1 kHz, when the stream supports it.
pub open spec fn pcm_plan(src: DsdSourceInfo, device: Seq<char>, formats: Seq<Seq<char>>, rates: Seq<u32>) -> Option<PlanModel> {
    if caps_support(formats, rates, "S16_LE"@, 44100) {
        Some(
            PlanModel {
                device: raw_device(device),
                transport: DsdTransport::Pcm,
                channels: src.channels,
                sample_rate: 44100,
            },
        )
    } else {
        None
    }
}

/// The plan's view, when there is one.
pub open spec fn plan_view(p: Option<DsdPlaybackPlan>) -> Option<PlanModel> {
    match p {
        Some(x) => Some(x@),
        None => None,
    }
}

/// Native DSD, in the first format the stream supports, on the raw device.
pub fn select_native_dsd_plan(
    source: DsdSourceInfo,
    device: &str,
    capabilities: &AlsaStreamCapabilities,
) -> (r: Option<DsdPlaybackPlan>)
    ensures
        plan_view(r) == native_plan(source, device@, names(capabilities.formats@), capabilities.rates@),
{
    let raw = raw_dsd_device(device);
    let order: [AlsaDsdFormat; 5] = [
        AlsaDsdFormat::U32Le,
        AlsaDsdFormat::U32Be,
        AlsaDsdFormat::U16Le,
        AlsaDsdFormat::U16Be,
        AlsaDsdFormat::U8,
    ];
    let ghost fs = names(capabilities.formats@);
    let ghost rs = capabilities.rates@;
    assert(order@ =~= native_order());
    let mut i: usize = 0;
    while i < 5
        invariant
            0 <= i <= 5,
            order@ == native_order(),
            fs == names(capabilities.formats@),
            rs == capabilities.rates@,
            native_from(fs, rs, source.dsd_rate_hz, 0) == native_from(fs, rs, source.dsd_rate_hz, i as int),
            raw@ == raw_device(device@),
        decreases 5 - i,
    {
        let f = order[i];
        let rate = source.dsd_rate_hz / f.sample_rate_divisor();
        assert(f == native_order()[i as int]);
        if capabilities.supports(f.aplay_format(), rate) {
            assert(native_from(fs, rs, source.dsd_rate_hz, i as int) == Some(f));
            return Some(
                DsdPlaybackPlan { device: raw, transport: DsdTransport::Native(f), channels: source.channels, sample_rate: rate },
            );
        }
        i = i + 1;
    }
    None
}

/// DSD over PCM, in the first carrier the stream supports, on the raw device.
pub fn select_dop_plan(
    source: DsdSourceInfo,
    device: &str,
    capabilities: &AlsaStreamCapabilities,
) -> (r: Option<DsdPlaybackPlan>)
    ensures
        plan_view(r) == dop_plan(source, device@, names(capabilities.formats@), capabilities.rates@),
{
    let raw = raw_dsd_device(device);
    let rate = source.dsd_rate_hz / 16;
    let order: [DopPcmFormat; 3] = [DopPcmFormat::S32Le, DopPcmFormat::S24_3Le, DopPcmFormat::S24Le];
    let ghost fs = names(capabilities.formats@);
    let ghost rs = capabilities.rates@;
    assert(order@ =~= dop_order());
    let mut i: usize = 0;
    while i < 3
        invariant
            0 <= i <= 3,
            order@ == dop_order(),
            fs == names(capabilities.formats@),
            rs == capabilities.rates@,
            rate == source.dsd_rate_hz / 16,
            dop_from(fs, rs, source.dsd_rate_hz, 0) == dop_from(fs, rs, source.dsd_rate_hz, i as int),
            raw@ == raw_device(device@),
        decreases 3 - i,
    {
        let f = order[i];
        assert(f == dop_order()[i as int]);
        if capabilities.supports(f.aplay_format(), rate) {
            assert(dop_from(fs, rs, source.dsd_rate_hz, i as int) == Some(f));
            return Some(
                DsdPlaybackPlan { device: raw, transport: DsdTransport::Dop(f), channels: source.channels, sample_rate: rate },
            );
        }
        i = i + 1;
    }
    None
}

/// 16-bit PCM at 44.1 kHz on the raw device, when the stream supports it.
pub fn select_pcm_fallback_plan(
    source: DsdSourceInfo,
    device: &str,
    capabilities: &AlsaStreamCapabilities,
) -> (r: Option<DsdPlaybackPlan>)
    ensures
        plan_view(r) == pcm_plan(source, device@, names(capabilities.formats@), capabilities.rates@),
{
    if !capabilities.supports("S16_LE", 44100) {
        return None;
    }
    Some(
        DsdPlaybackPlan {
            device: raw_dsd_device(device),
            transport: DsdTransport::Pcm,
            channels: source.channels,
            sample_rate: 44100,
        },
    )
}

/// Whatever plan is chosen, the stream advertises its format at its rate.
pub proof fn lemma_plans_supported(
    src: DsdSourceInfo,
    device: Seq<char>,
    formats: Seq<Seq<char>>,
    rates: Seq<u32>,
)
    ensures
        native_plan(src, device, formats, rates) matches Some(p) ==> caps_support(
            formats,
            rates,
            transport_format_name(p.transport),
            p.sample_rate,
        ),
        dop_plan(src, device, formats, rates) matches Some(p) ==> caps_support(
            formats,
            rates,
            transport_format_name(p.transport),
            p.sample_rate,
        ),
        pcm_plan(src, device, formats, rates) matches Some(p) ==> caps_support(
            formats,
            rates,
            transport_format_name(p.transport),
            p.sample_rate,
        ),
{
    reveal_with_fuel(native_from, 6);
    reveal_with_fuel(dop_from, 4);
}

/// Whatever plan is chosen is on the raw device, for the source's channels,
/// and advertised by the stream at its rate; native DSD only under the native
/// policy, at the DSD rate over the format's bits per sample; DoP only under
/// the DoP policy, at a sixteenth of the DSD rate; otherwise 16-bit PCM at
/// 44.1 kHz. When the stream offers a format of the chosen policy at its rate,
/// the plan uses the policy's transport; the PCM fallback comes only when it
/// offers none.
pub proof fn lemma_policy_decides_transport(
    src: DsdSourceInfo,
    device: Seq<char>,
    formats: Seq<Seq<char>>,
    rates: Seq<u32>,
    policy: DsdOutputPolicy,
)
    ensures
        plan_for(src, device, formats, rates, policy) matches Some(p) ==> {
            &&& p.device == raw_device(device)
            &&& p.channels == src.channels
            &&& caps_support(formats, rates, transport_format_name(p.transport), p.sample_rate)
            &&& (p.transport matches DsdTransport::Native(f) ==> policy == DsdOutputPolicy::NativeDsd
                && p.sample_rate == src.dsd_rate_hz / dsd_divisor(f))
            &&& (p.transport is Dop ==> policy == DsdOutputPolicy::Dop && p.sample_rate == src.dsd_rate_hz
                / 16)
            &&& (p.transport is Pcm ==> p.sample_rate == 44100)
        },
        policy == DsdOutputPolicy::Dop && (exists|i: int|
            0 <= i < 3 && caps_support(
                formats,
                rates,
                dop_format_name(#[trigger] dop_order()[i]),
                src.dsd_rate_hz / 16,
            )) ==> (plan_for(src, device, formats, rates, policy) matches Some(p) && p.transport is Dop),
        policy == DsdOutputPolicy::NativeDsd && (exists|i: int|
            0 <= i < 5 && caps_support(
                formats,
                rates,
                dsd_format_name(#[trigger] native_order()[i]),
                src.dsd_rate_hz / dsd_divisor(native_order()[i]),
            )) ==> (plan_for(src, device, formats, rates, policy) matches Some(p) && p.transport is Native),
{
    reveal_with_fuel(native_from, 6);
    reveal_with_fuel(dop_from, 4);
    lemma_plans_supported(src, device, formats, rates);
}

/// `v` with `x` added at the end unless it is there already.
pub open spec fn add_unique<T>(v: Seq<T>, x: T) -> Seq<T> {
    if v.contains(x) {
        v
    } else {
        v.push(x)
    }
}

/// The rates of a `Rates:` list added in turn: each part that reads as a `u32`
/// once trimmed, when not there already.
pub open spec fn add_rates(r: Seq<u32>, parts: Seq<Seq<char>>) -> Seq<u32>
    decreases parts.len(),
{
    if parts.len() == 0 {
        r
    } else {
        let acc = add_rates(r, parts.drop_last());
        match parse_unsigned(trim(parts.last()), u32::MAX as nat) {
            Some(n) => add_unique(acc, n as u32),
            None => acc,
        }
    }
}

/// What one line of an ALSA stream file adds: a `Format:` line its format, a
/// `Rates:` line its rates.
pub open spec fn caps_line(f: Seq<Seq<char>>, r: Seq<u32>, line: Seq<char>) -> (Seq<Seq<char>>, Seq<u32>) {
    let t = trim(line);
    match strip_prefix(t, "Format: "@) {
        Some(x) => (add_unique(f, trim(x)), r),
        None => match strip_prefix(t, "Rates: "@) {
            Some(list) => (f, add_rates(r, split_on(list, ','))),
            None => (f, r),
        },
    }
}

/// The formats and rates advertised by the lines `ls`, each once, in the
/// order first seen.
pub open spec fn caps_from_lines(ls: Seq<Seq<char>>) -> (Seq<Seq<char>>, Seq<u32>)
    decreases ls.len(),
{
    if ls.len() == 0 {
        (Seq::empty(), Seq::empty())
    } else {
        let (f, r) = caps_from_lines(ls.drop_last());
        caps_line(f, r, ls.last())
    }
}

fn contains_rate(v: &Vec<u32>, x: u32) -> (r: bool)
    ensures
        r == v@.contains(x),
{
    let mut i: usize = 0;
    while i < v.len()
        invariant
            0 <= i <= v.len(),
            forall|j: int| 0 <= j < i ==> v@[j] != x,
        decreases v.len() - i,
    {
        if v[i] == x {
            assert(v@[i as int] == x);
            return true;
        }
        i = i + 1;
    }
    false
}

fn add_rates_exec(rates: &mut Vec<u32>, list: &[char])
    ensures
        final(rates)@ == add_rates(old(rates)@, split_on(list@, ',')),
{
    let parts = split_chars(list, ',');
    let ghost ps = views(parts@);
    let ghost start = rates@;
    let mut i: usize = 0;
    assert(ps.take(0) =~= Seq::<Seq<char>>::empty());
    while i < parts.len()
        invariant
            ps == views(parts@),
            ps == split_on(list@, ','),
            0 <= i <= parts.len(),
            rates@ == add_rates(start, ps.take(i as int)),
        decreases parts.len() - i,
    {
        proof {
            assert(ps.take(i as int + 1).drop_last() =~= ps.take(i as int));
            assert(ps.take(i as int + 1).last() == ps[i as int]);
        }
        let t = trimmed(parts[i].as_slice());
        match parse_u64(t.as_slice()) {
            Some(n) => {
                if n <= 0xffff_ffffu64 {
                    let v = n as u32;
                    if !contains_rate(rates, v) {
                        rates.push(v);
                    }
                }
            },
            None => {},
        }
        i = i + 1;
    }
    assert(ps.take(parts.len() as int) =~= ps);
}

/// The formats and rates an ALSA stream file advertises, each once, in the
/// order first seen.
pub fn parse_alsa_stream_capabilities(stream: &str) -> (r: AlsaStreamCapabilities)
    ensures
        (names(r.formats@), r.rates@) == caps_from_lines(lines(stream@)),
{
    let ls = lines_of(stream);
    let ghost lv = views(ls@);
    let mut formats: Vec<String> = Vec::new();
    let mut rates: Vec<u32> = Vec::new();
    let mut i: usize = 0;
    assert(names(formats@) =~= Seq::<Seq<char>>::empty());
    assert(lv.take(0) =~= Seq::<Seq<char>>::empty());
    while i < ls.len()
        invariant
            lv == views(ls@),
            0 <= i <= ls.len(),
            (names(formats@), rates@) == caps_from_lines(lv.take(i as int)),
        decreases ls.len() - i,
    {
        proof {
            assert(lv.take(i as int + 1).drop_last() =~= lv.take(i as int));
            assert(lv.take(i as int + 1).last() == lv[i as int]);
        }
        let t = trimmed(ls[i].as_slice());
        match strip_prefix_chars(t.as_slice(), "Format: ") {
            Some(x) => {
                let f = string_from(trimmed(x.as_slice()).as_slice());
                if !crate::queue::contains_text(&formats, f.as_str()) {
                    let ghost before = names(formats@);
                    formats.push(f);
                    assert(names(formats@) =~= before.push(f@));
                }
                proof {
                    assert(crate::media_model::ids(formats@) =~= names(formats@));
                }
            },
            None => {
                match strip_prefix_chars(t.as_slice(), "Rates: ") {
                    Some(list) => {
                        add_rates_exec(&mut rates, list.as_slice());
                    },
                    None => {},
                }
            },
        }
        i = i + 1;
    }
    assert(lv.take(ls.len() as int) =~= lv);
    AlsaStreamCapabilities { formats, rates }
}

proof fn lemma_add_unique_no_dup<T>(v: Seq<T>, x: T)
    requires
        v.no_duplicates(),
    ensures
        add_unique(v, x).no_duplicates(),
{
    if !v.contains(x) {
        let t = v.push(x);
        assert forall|i: int, j: int| 0 <= i < t.len() && 0 <= j < t.len() && i != j implies t[i] != t[j] by {
            if i == v.len() {
                assert(v.contains(t[j]));
            } else if j == v.len() {
                assert(v.contains(t[i]));
            }
        }
    }
}

proof fn lemma_add_rates_no_dup(r: Seq<u32>, parts: Seq<Seq<char>>)
    requires
        r.no_duplicates(),
    ensures
        add_rates(r, parts).no_duplicates(),
    decreases parts.len(),
{
    if parts.len() > 0 {
        lemma_add_rates_no_dup(r, parts.drop_last());
        let acc = add_rates(r, parts.drop_last());
        match parse_unsigned(trim(parts.last()), u32::MAX as nat) {
            Some(n) => lemma_add_unique_no_dup(acc, n as u32),
            None => {},
        }
    }
}

/// The advertised formats and rates each appear once.
pub proof fn lemma_caps_unique(ls: Seq<Seq<char>>)
    ensures
        caps_from_lines(ls).0.no_duplicates(),
        caps_from_lines(ls).1.no_duplicates(),
    decreases ls.len(),
{
    if ls.len() > 0 {
        lemma_caps_unique(ls.drop_last());
        let (f, r) = caps_from_lines(ls.drop_last());
        let t = trim(ls.last());
        match strip_prefix(t, "Format: "@) {
            Some(x) => lemma_add_unique_no_dup(f, trim(x)),
            None => match strip_prefix(t, "Rates: "@) {
                Some(list) => lemma_add_rates_no_dup(r, split_on(list, ',')),
                None => {},
            },
        }
    }
}

/// `s` without the `"` characters at either end.
pub open spec fn unquote(s: Seq<char>) -> Seq<char>
    decreases s.len(),
{
    if s.len() > 0 && s[0] == '"' {
        unquote(s.drop_first())
    } else if s.len() > 0 && s.last() == '"' {
        unquote(s.drop_last())
    } else {
        s
    }
}

/// The policy set by the first `dsd_output_policy = ...` line of a config
/// file, blank lines and `#` comments skipped; none when there is no such line
/// or its value names no policy.
pub open spec fn policy_in_config(ls: Seq<Seq<char>>) -> Option<DsdOutputPolicy>
    decreases ls.len(),
{
    if ls.len() == 0 {
        None
    } else {
        let t = trim(ls[0]);
        if t.len() == 0 || t[0] == '#' {
            policy_in_config(ls.drop_first())
        } else {
            match crate::text::split_once(t, '=') {
                None => policy_in_config(ls.drop_first()),
                Some((k, v)) => if trim(k) != "dsd_output_policy"@ {
                    policy_in_config(ls.drop_first())
                } else {
                    policy_from(unquote(trim(v)))
                },
            }
        }
    }
}

fn unquote_chars(s: &[char]) -> (r: Vec<char>)
    ensures
        r@ == unquote(s@),
{
    let mut a: usize = 0;
    let mut b: usize = s.len();
    assert(s@.subrange(0, s.len() as int) =~= s@);
    while a < b && (s[a] == '"' || s[b - 1] == '"')
        invariant
            0 <= a <= b <= s.len(),
            unquote(s@) == unquote(s@.subrange(a as int, b as int)),
        decreases b - a,
    {
        let ghost t = s@.subrange(a as int, b as int);
        if s[a] == '"' {
            assert(t.drop_first() =~= s@.subrange(a + 1, b as int));
            a = a + 1;
        } else {
            assert(t.drop_last() =~= s@.subrange(a as int, b - 1));
            b = b - 1;
        }
    }
    proof {
        assert(unquote(s@.subrange(a as int, b as int)) == s@.subrange(a as int, b as int));
    }
    copy_range(s, a, b)
}

/// The policy a config file sets.
pub fn parse_dsd_output_policy_from_config(contents: &str) -> (r: Option<DsdOutputPolicy>)
    ensures
        r == policy_in_config(lines(contents@)),
{
    let ls = lines_of(contents);
    let ghost lv = views(ls@);
    let mut i: usize = 0;
    assert(lv.skip(0) =~= lv);
    while i < ls.len()
        invariant
            lv == views(ls@),
            lv == lines(contents@),
            0 <= i <= ls.len(),
            policy_in_config(lv) == policy_in_config(lv.skip(i as int)),
        decreases ls.len() - i,
    {
        let ghost rest = lv.skip(i as int);
        assert(rest[0] == lv[i as int]);
        assert(rest.drop_first() =~= lv.skip(i as int + 1));
        let t = trimmed(ls[i].as_slice());
        if t.len() == 0 || t[0] == '#' {
            i = i + 1;
            continue;
        }
        match crate::text::split_once_chars(t.as_slice(), '=') {
            None => {
                i = i + 1;
                continue;
            },
            Some((k, v)) => {
                let kt = trimmed(k.as_slice());
                if !eq_str(kt.as_slice(), "dsd_output_policy") {
                    i = i + 1;
                    continue;
                }
                let vt = trimmed(v.as_slice());
                let uq = unquote_chars(vt.as_slice());
                let us = string_from(uq.as_slice());
                assert(lv[i as int] == ls@[i as int]@);
                assert(crate::text::split_once(trim(rest[0]), '=') == Some((k@, v@)));
                assert(policy_in_config(rest) == policy_from(unquote(trim(v@))));
                return DsdOutputPolicy::parse(us.as_str());
            },
        }
    }
    assert(lv.skip(ls.len() as int) =~= Seq::<Seq<char>>::empty());
    None
}

/// The policy in force: the environment's value when it names one, else the
/// one set by the named config file, else the one set by the default config
/// file, else native DSD.
pub open spec fn policy_chosen(
    env_value: Option<Seq<char>>,
    config: Option<Seq<char>>,
    default_config: Option<Seq<char>>,
) -> DsdOutputPolicy {
    let from_env = match env_value {
        Some(v) => policy_from(v),
        None => None,
    };
    let from_config = match config {
        Some(c) => policy_in_config(lines(c)),
        None => None,
    };
    let from_default = match default_config {
        Some(c) => policy_in_config(lines(c)),
        None => None,
    };
    match from_env {
        Some(p) => p,
        None => match from_config {
            Some(p) => p,
            None => match from_default {
                Some(p) => p,
                None => DsdOutputPolicy::NativeDsd,
            },
        },
    }
}

/// The policy in force, given the value of `LUMELO_DSD_OUTPUT_POLICY`, the
/// contents of the config file named by `LUMELO_CONFIG_PATH` and those of the
/// default config file, each when it could be read.
pub fn load_dsd_output_policy(
    env_value: Option<String>,
    config: Option<String>,
    default_config: Option<String>,
) -> (r: DsdOutputPolicy)
    ensures
        r == policy_chosen(
            crate::paths::opt_view(env_value),
            crate::paths::opt_view(config),
            crate::paths::opt_view(default_config),
        ),
{
    if let Some(v) = &env_value {
        if let Some(p) = DsdOutputPolicy::parse(v.as_str()) {
            return p;
        }
    }
    if let Some(c) = &config {
        if let Some(p) = parse_dsd_output_policy_from_config(c.as_str()) {
            return p;
        }
    }
    if let Some(c) = &default_config {
        if let Some(p) = parse_dsd_output_policy_from_config(c.as_str()) {
            return p;
        }
    }
    DsdOutputPolicy::NativeDsd
}

/// The plan for a DSD track: the policy's transport when the stream supports
/// it, else PCM at 44.1 kHz; the error when neither is possible.
pub open spec fn plan_for(
    src: DsdSourceInfo,
    device: Seq<char>,
    formats: Seq<Seq<char>>,
    rates: Seq<u32>,
    policy: DsdOutputPolicy,
) -> Option<PlanModel> {
    let selected = match policy {
        DsdOutputPolicy::NativeDsd => native_plan(src, device, formats, rates),
        DsdOutputPolicy::Dop => dop_plan(src, device, formats, rates),
    };
    match selected {
        Some(p) => Some(p),
        None => pcm_plan(src, device, formats, rates),
    }
}

/// Chooses how to play a DSD track on `device` under `policy`, given the
/// track's source and what the device's stream advertises: the policy's
/// transport, else PCM at 44.1 kHz, else an output error naming the policy,
/// the raw device and the capabilities.
pub fn select_dsd_playback_plan(
    source: DsdSourceInfo,
    device: &str,
    capabilities: &AlsaStreamCapabilities,
    policy: DsdOutputPolicy,
) -> (r: Result<DsdPlaybackPlan, PlaybackOperationError>)
    ensures
        match r {
            Ok(p) => plan_for(source, device@, names(capabilities.formats@), capabilities.rates@, policy)
                == Some(p@),
            Err(e) => {
                &&& plan_for(source, device@, names(capabilities.formats@), capabilities.rates@, policy) is None
                &&& e.code@ == "dsd_pcm_fallback_unavailable"@
                &&& e.class == PlaybackFailureClass::Output
                &&& e.recoverable
                &&& !e.keep_quiet
                &&& e.reason@ == "selected DSD policy "@ + policy_name(policy)
                    + " and PCM fallback are unavailable on "@ + raw_device(device@) + ", "@
                    + "formats=["@ + listed(names(capabilities.formats@)) + "] rates=["@ + listed(
                    rate_texts(capabilities.rates@),
                ) + "]"@
            },
        },
{
    let selected = match policy {
        DsdOutputPolicy::NativeDsd => select_native_dsd_plan(source, device, capabilities),
        DsdOutputPolicy::Dop => select_dop_plan(source, device, capabilities),
    };
    if let Some(plan) = selected {
        return Ok(plan);
    }
    if let Some(plan) = select_pcm_fallback_plan(source, device, capabilities) {
        return Ok(plan);
    }
    let mut reason = owned("selected DSD policy ");
    push_str(&mut reason, policy.as_str());
    push_str(&mut reason, " and PCM fallback are unavailable on ");
    let raw = raw_dsd_device(device);
    push_str(&mut reason, raw.as_str());
    push_str(&mut reason, ", ");
    let summary = capabilities.summary();
    push_str(&mut reason, summary.as_str());
    Err(PlaybackOperationError::output("dsd_pcm_fallback_unavailable", reason.as_str()))
}

} // verus!
