//! DSD over PCM: the DSD bytes of all channels packed into PCM frames, two
//! bytes per channel and frame, marked with alternating marker bytes. The
//! framer takes the DSD stream in blocks of any size.

use vstd::prelude::*;
use crate::alsa::{dop_bytes, DopPcmFormat};

verus! {

/// The byte a DSD stream is padded with: DSD silence.
pub const DSD_SILENCE_BYTE: u8 = 0x69;

/// The marker of frame `k`: `0x05` and `0xFA` in turn.
pub open spec fn dop_marker(k: nat) -> u8 {
    if k % 2 == 0 {
        0x05u8
    } else {
        0xFAu8
    }
}

/// The samples of the first `n` channels of the frame packed from `block`:
/// channel `i` takes byte `i` and byte `channels + i`.
pub open spec fn dop_frame_upto(block: Seq<u8>, channels: nat, f: DopPcmFormat, marker: u8, n: nat) -> Seq<u8>
    decreases n,
{
    if n == 0 {
        Seq::empty()
    } else {
        dop_frame_upto(block, channels, f, marker, (n - 1) as nat) + dop_bytes(
            f,
            block[n - 1],
            block[channels + n - 1],
            marker,
        )
    }
}

/// The frame packed from a block of `2 * channels` bytes.
pub open spec fn dop_frame(block: Seq<u8>, channels: nat, f: DopPcmFormat, marker: u8) -> Seq<u8> {
    dop_frame_upto(block, channels, f, marker, channels)
}

/// The first `k` frames of the stream `data`, frame `j` packed from bytes
/// `2 * channels * j` up to `2 * channels * (j + 1)` with marker `j`.
pub open spec fn dop_frames(data: Seq<u8>, channels: nat, f: DopPcmFormat, k: nat) -> Seq<u8>
    decreases k,
{
    if k == 0 {
        Seq::empty()
    } else {
        let w = 2 * channels;
        dop_frames(data, channels, f, (k - 1) as nat) + dop_frame(
            data.subrange(((k - 1) * w) as int, (k * w) as int),
            channels,
            f,
            dop_marker((k - 1) as nat),
        )
    }
}

/// Every complete frame of the stream `data`.
pub open spec fn dop_stream(data: Seq<u8>, channels: nat, f: DopPcmFormat) -> Seq<u8> {
    dop_frames(data, channels, f, data.len() / (2 * channels))
}

/// `data` padded with DSD silence to `len` bytes.
pub open spec fn padded(data: Seq<u8>, len: nat) -> Seq<u8> {
    data + Seq::new((len - data.len()) as nat, |i: int| DSD_SILENCE_BYTE)
}

/// The last frame of a stream that ends inside a frame: what is left, padded
/// with silence; nothing when the stream ends on a frame boundary.
pub open spec fn dop_tail(data: Seq<u8>, channels: nat, f: DopPcmFormat) -> Seq<u8> {
    let w = 2 * channels;
    let k = data.len() / w;
    if data.len() % w == 0 {
        Seq::empty()
    } else {
        dop_frame(padded(data.skip((k * w) as int), w), channels, f, dop_marker(k))
    }
}

/// Packs a DSD stream, taken in blocks, into DoP frames.
pub struct DopFramer {
    format: DopPcmFormat,
    channels: usize,
    pending: Vec<u8>,
    frames: usize,
    input: Ghost<Seq<u8>>,
}

impl DopFramer {
    /// The bytes taken so far.
    pub closed spec fn input(&self) -> Seq<u8> {
        self.input@
    }

    /// The number of channels.
    pub closed spec fn channel_count(&self) -> nat {
        self.channels as nat
    }

    /// The carrier format.
    pub closed spec fn carrier(&self) -> DopPcmFormat {
        self.format
    }

    /// The framer's state: the bytes not yet framed are the tail of the input
    /// after its complete frames.
    pub closed spec fn wf(&self) -> bool {
        let w = 2 * self.channels;
        &&& self.channels > 0
        &&& w <= usize::MAX
        &&& self.pending@.len() < w
        &&& self.frames * w + self.pending@.len() == self.input@.len()
        &&& self.pending@ == self.input@.skip(self.frames * w)
    }

    /// A framer for `channels` channels carried in `format`.
    pub fn new(format: DopPcmFormat, channels: usize) -> (r: Self)
        requires
            0 < channels,
            2 * channels <= usize::MAX,
        ensures
            r.wf(),
            r.input() == Seq::<u8>::empty(),
            r.channel_count() == channels,
            r.carrier() == format,
    {
        let r = DopFramer { format, channels, pending: Vec::new(), frames: 0, input: Ghost(Seq::empty()) };
        proof {
            assert(0 * (2 * channels) == 0) by (nonlinear_arith);
            assert(r.input@.skip(0) =~= r.pending@);
        }
        r
    }

    /// Takes the next block of the stream and gives the frames it completes.
    pub fn push(&mut self, bytes: &[u8]) -> (out: Vec<u8>)
        requires
            old(self).wf(),
            old(self).input().len() + bytes@.len() <= usize::MAX,
        ensures
            final(self).wf(),
            final(self).input() == old(self).input() + bytes@,
            final(self).channel_count() == old(self).channel_count(),
            final(self).carrier() == old(self).carrier(),
            dop_stream(old(self).input(), old(self).channel_count(), old(self).carrier()) + out@ == dop_stream(
                final(self).input(),
                old(self).channel_count(),
                old(self).carrier(),
            ),
    {
        let c = self.channels;
        let w = 2 * c;
        let ghost cn = c as nat;
        let ghost f = self.format;
        let ghost start_input = self.input@;
        let ghost all = self.input@ + bytes@;
        let ghost base = self.frames * w;
        let mut data: Vec<u8> = Vec::new();
        let mut i: usize = 0;
        while i < self.pending.len()
            invariant
                i <= self.pending@.len(),
                data@ == self.pending@.take(i as int),
            decreases self.pending@.len() - i,
        {
            data.push(self.pending[i]);
            assert(self.pending@.take(i + 1) =~= self.pending@.take(i as int).push(self.pending@[i as int]));
            i = i + 1;
        }
        let mut j: usize = 0;
        while j < bytes.len()
            invariant
                j <= bytes@.len(),
                self.pending@.len() + bytes@.len() <= usize::MAX,
                data@ == self.pending@ + bytes@.take(j as int),
            decreases bytes@.len() - j,
        {
            data.push(bytes[j]);
            assert(self.pending@ + bytes@.take(j + 1) =~= (self.pending@ + bytes@.take(j as int)).push(bytes@[j as int]));
            j = j + 1;
        }
        assert(self.pending@.take(self.pending@.len() as int) =~= self.pending@);
        assert(bytes@.take(bytes@.len() as int) =~= bytes@);
        assert(data@ =~= all.skip(base as int)) by {
            assert(self.pending@ == start_input.skip(base as int));
        }
        let mut out: Vec<u8> = Vec::new();
        let mut start: usize = 0;
        let mut frames = self.frames;
        let ghost k0 = self.frames as nat;
        proof {
            assert(all.take(start_input.len() as int) =~= start_input);
            lemma_dop_frames_prefix(start_input, all, cn, f, k0);
        }
        while data.len() - start >= w
            invariant
                c > 0,
                w == 2 * c,
                cn == c as nat,
                data@ == all.skip(base as int),
                base == k0 * w,
                base + data@.len() == all.len(),
                start <= data@.len(),
                frames as int == k0 + (start as int) / (w as int),
                (start as int) % (w as int) == 0,
                frames * w <= all.len(),
                all.len() <= usize::MAX,
                f == self.format,
                dop_frames(start_input, cn, f, k0) + out@ == dop_frames(all, cn, f, frames as nat),
            decreases data@.len() - start,
        {
            let marker: u8 = if frames % 2 == 0 {
                0x05
            } else {
                0xFA
            };
            let ghost before = out@;
            let mut ch: usize = 0;
            while ch < c
                invariant
                    c > 0,
                    w == 2 * c,
                    start + w <= data@.len(),
                    data@.len() <= usize::MAX,
                    ch <= c,
                    out@ == before + dop_frame_upto(data@.subrange(start as int, start + w), cn, f, marker, ch as nat),
                    cn == c as nat,
                    f == self.format,
                decreases c - ch,
            {
                let lo = data[start + ch];
                let hi = data[start + c + ch];
                f_push(self.format, lo, hi, marker, &mut out);
                assert(data@.subrange(start as int, start + w)[ch as int] == lo);
                assert(data@.subrange(start as int, start + w)[c + ch] == hi);
                assert(before + dop_frame_upto(data@.subrange(start as int, start + w), cn, f, marker, (ch + 1) as nat)
                    =~= before + dop_frame_upto(data@.subrange(start as int, start + w), cn, f, marker, ch as nat)
                    + dop_bytes(f, lo, hi, marker));
                ch = ch + 1;
            }
            proof {
                assert(marker == dop_marker(frames as nat));
                assert((frames + 1) * w == frames * w + w) by (nonlinear_arith);
                assert(frames * w == base + start) by (nonlinear_arith)
                    requires
                        frames as int == k0 + (start as int) / (w as int),
                        (start as int) % (w as int) == 0,
                        base == k0 * w,
                        w > 0,
                {
                    vstd::arithmetic::div_mod::lemma_fundamental_div_mod(start as int, w as int);
                }
                assert(data@.subrange(start as int, start + w) =~= all.subrange(frames * w, (frames + 1) * w));
                assert(dop_frames(all, cn, f, (frames + 1) as nat) == dop_frames(all, cn, f, frames as nat) + dop_frame(
                    all.subrange(frames * w, (frames + 1) * w),
                    cn,
                    f,
                    dop_marker(frames as nat),
                ));
                vstd::arithmetic::div_mod::lemma_div_plus_one(start as int, w as int);
                vstd::arithmetic::div_mod::lemma_mod_add_multiples_vanish(start as int, w as int);
                assert(frames + 1 <= (frames + 1) * w) by (nonlinear_arith)
                    requires
                        w >= 2,
                ;
            }
            start = start + w;
            frames = frames + 1;
        }
        let mut rest: Vec<u8> = Vec::new();
        let mut r: usize = start;
        while r < data.len()
            invariant
                start <= r <= data@.len(),
                rest@ == data@.subrange(start as int, r as int),
            decreases data@.len() - r,
        {
            rest.push(data[r]);
            assert(data@.subrange(start as int, r + 1) =~= data@.subrange(start as int, r as int).push(data@[r as int]));
            r = r + 1;
        }
        proof {
            assert(frames * w == base + start) by (nonlinear_arith)
                requires
                    frames as int == k0 + (start as int) / (w as int),
                    (start as int) % (w as int) == 0,
                    base == k0 * w,
                    w > 0,
            {
                vstd::arithmetic::div_mod::lemma_fundamental_div_mod(start as int, w as int);
            }
            assert(rest@ =~= all.skip(frames * w));
            vstd::arithmetic::div_mod::lemma_fundamental_div_mod_converse(
                start_input.len() as int,
                w as int,
                k0 as int,
                self.pending@.len() as int,
            );
            vstd::arithmetic::div_mod::lemma_fundamental_div_mod_converse(
                all.len() as int,
                w as int,
                frames as int,
                rest@.len() as int,
            );
        }
        self.pending = rest;
        self.frames = frames;
        self.input = Ghost(all);
        out
    }

    /// Ends the stream: the last frame, padded with silence, when the stream
    /// ended inside one.
    pub fn finish(self) -> (out: Vec<u8>)
        requires
            self.wf(),
        ensures
            out@ == dop_tail(self.input(), self.channel_count(), self.carrier()),
    {
        let c = self.channels;
        let w = 2 * c;
        let ghost cn = c as nat;
        let ghost all = self.input@;
        proof {
            vstd::arithmetic::div_mod::lemma_fundamental_div_mod_converse(
                all.len() as int,
                w as int,
                self.frames as int,
                self.pending@.len() as int,
            );
        }
        let mut out: Vec<u8> = Vec::new();
        if self.pending.len() == 0 {
            return out;
        }
        let mut block: Vec<u8> = Vec::new();
        let mut i: usize = 0;
        while i < self.pending.len()
            invariant
                i <= self.pending@.len(),
                block@ == self.pending@.take(i as int),
            decreases self.pending@.len() - i,
        {
            block.push(self.pending[i]);
            assert(self.pending@.take(i + 1) =~= self.pending@.take(i as int).push(self.pending@[i as int]));
            i = i + 1;
        }
        assert(self.pending@.take(self.pending@.len() as int) =~= self.pending@);
        while block.len() < w
            invariant
                self.pending@.len() <= block@.len() <= w,
                block@ == padded(self.pending@, block@.len() as nat),
            decreases w - block@.len(),
        {
            block.push(DSD_SILENCE_BYTE);
            assert(block@ =~= padded(self.pending@, block@.len() as nat));
        }
        let marker: u8 = if self.frames % 2 == 0 {
            0x05
        } else {
            0xFA
        };
        let mut ch: usize = 0;
        while ch < c
            invariant
                w == 2 * c,
                block@.len() == w,
                ch <= c,
                out@ == dop_frame_upto(block@, cn, self.format, marker, ch as nat),
                cn == c as nat,
            decreases c - ch,
        {
            let lo = block[ch];
            let hi = block[c + ch];
            f_push(self.format, lo, hi, marker, &mut out);
            assert(dop_frame_upto(block@, cn, self.format, marker, (ch + 1) as nat) =~= dop_frame_upto(
                block@,
                cn,
                self.format,
                marker,
                ch as nat,
            ) + dop_bytes(self.format, lo, hi, marker));
            ch = ch + 1;
        }
        proof {
            assert(marker == dop_marker(self.frames as nat));
            assert(self.pending@ == all.skip(self.frames * w));
        }
        out
    }
}

fn f_push(f: DopPcmFormat, lo: u8, hi: u8, marker: u8, out: &mut Vec<u8>)
    ensures
        final(out)@ == old(out)@ + dop_bytes(f, lo, hi, marker),
{
    f.push_dop_sample(lo, hi, marker, out);
}

/// The frames of a stream do not change when more bytes follow it.
pub proof fn lemma_dop_frames_prefix(a: Seq<u8>, b: Seq<u8>, channels: nat, f: DopPcmFormat, k: nat)
    requires
        k * (2 * channels) <= a.len(),
        a.len() <= b.len(),
        a == b.take(a.len() as int),
    ensures
        dop_frames(a, channels, f, k) == dop_frames(b, channels, f, k),
    decreases k,
{
    if k > 0 {
        let w = 2 * channels;
        assert((k - 1) * w <= k * w) by (nonlinear_arith)
            requires
                k > 0,
        ;
        lemma_dop_frames_prefix(a, b, channels, f, (k - 1) as nat);
        assert(a.subrange(((k - 1) * w) as int, (k * w) as int) =~= b.subrange(((k - 1) * w) as int, (k * w) as int));
    }
}

} // verus!
