//! The PCM fallback for DSD: each channel's DSD bits over a window of bytes
//! counted as +1 for a set bit and -1 for a clear one. The balance of a
//! window, scaled to a 16-bit sample, is one PCM sample of that channel.
//! The stream is taken in blocks of any size; a frame is one window of every
//! channel, the channels' bytes interleaved.

use vstd::prelude::*;
use crate::dop::{padded, DSD_SILENCE_BYTE};

verus! {

/// +1 when bit `i` of `b` (counted from the most significant) is set, else -1.
pub open spec fn bit_sign(b: u8, i: u8) -> int {
    if (b >> ((7 - i) as u8)) & 1u8 == 0 {
        -1
    } else {
        1
    }
}

/// The balance of the first `k` bits of `b`, the most significant first.
pub open spec fn byte_balance(b: u8, k: nat) -> int
    decreases k,
{
    if k == 0 {
        0
    } else {
        byte_balance(b, (k - 1) as nat) + bit_sign(b, (k - 1) as u8)
    }
}

/// The balance of channel `channel` over the first `n` bytes of its window
/// in `frame`, where byte `j` of the channel is `frame[channel + j * channels]`.
pub open spec fn window_balance(frame: Seq<u8>, channels: nat, channel: nat, n: nat) -> int
    decreases n,
{
    if n == 0 {
        0
    } else {
        window_balance(frame, channels, channel, (n - 1) as nat) + byte_balance(
            frame[channel + (n - 1) * channels],
            8,
        )
    }
}

/// The balances of the first `c` channels of `frame`, each over `window` bytes.
pub open spec fn frame_balances_upto(frame: Seq<u8>, channels: nat, window: nat, c: nat) -> Seq<i32>
    decreases c,
{
    if c == 0 {
        Seq::empty()
    } else {
        frame_balances_upto(frame, channels, window, (c - 1) as nat).push(
            window_balance(frame, channels, (c - 1) as nat, window) as i32,
        )
    }
}

/// The balances of every channel of `frame`.
pub open spec fn frame_balances(frame: Seq<u8>, channels: nat, window: nat) -> Seq<i32> {
    frame_balances_upto(frame, channels, window, channels)
}

/// The balances of the first `k` frames of the stream `data`.
pub open spec fn balance_frames(data: Seq<u8>, channels: nat, window: nat, k: nat) -> Seq<i32>
    decreases k,
{
    if k == 0 {
        Seq::empty()
    } else {
        let w = channels * window;
        balance_frames(data, channels, window, (k - 1) as nat) + frame_balances(
            data.subrange(((k - 1) * w) as int, (k * w) as int),
            channels,
            window,
        )
    }
}

/// The balances of every complete frame of the stream `data`.
pub open spec fn balance_stream(data: Seq<u8>, channels: nat, window: nat) -> Seq<i32> {
    balance_frames(data, channels, window, data.len() / (channels * window))
}

/// The balances of the last frame of a stream that ends inside a frame, what
/// is left padded with DSD silence; nothing when it ends on a frame boundary.
pub open spec fn balance_tail(data: Seq<u8>, channels: nat, window: nat) -> Seq<i32> {
    let w = channels * window;
    let k = data.len() / w;
    if data.len() % w == 0 {
        Seq::empty()
    } else {
        frame_balances(padded(data.skip((k * w) as int), w), channels, window)
    }
}

proof fn lemma_byte_balance_bounds(b: u8, k: nat)
    requires
        k <= 8,
    ensures
        -(k as int) <= byte_balance(b, k) <= k,
    decreases k,
{
    if k > 0 {
        lemma_byte_balance_bounds(b, (k - 1) as nat);
    }
}

/// The balance of the bits of one byte.
fn byte_balance_of(b: u8) -> (r: i32)
    ensures
        r == byte_balance(b, 8),
        -8 <= r <= 8,
{
    let mut sum: i32 = 0;
    let mut i: u8 = 0;
    while i < 8
        invariant
            i <= 8,
            sum == byte_balance(b, i as nat),
            -(i as int) <= sum <= i,
        decreases 8 - i,
    {
        if (b >> (7 - i)) & 1 == 0 {
            sum = sum - 1;
        } else {
            sum = sum + 1;
        }
        i = i + 1;
    }
    sum
}

/// Appends the balances of the frame at `start` in `data`.
fn push_frame_balances(data: &Vec<u8>, start: usize, channels: usize, window: usize, out: &mut Vec<i32>)
    requires
        channels > 0,
        window > 0,
        8 * window <= i32::MAX,
        start + channels * window <= data@.len(),
    ensures
        final(out)@ == old(out)@ + frame_balances(
            data@.subrange(start as int, start + channels * window),
            channels as nat,
            window as nat,
        ),
{
    let ghost w = channels * window;
    let ghost frame = data@.subrange(start as int, start + w);
    let ghost base = out@;
    let n = data.len();
    let mut ch: usize = 0;
    while ch < channels
        invariant
            channels > 0,
            window > 0,
            8 * window <= i32::MAX,
            w == channels * window,
            start + w <= data@.len(),
            n == data@.len(),
            frame == data@.subrange(start as int, start + w),
            ch <= channels,
            out@ == base + frame_balances_upto(frame, channels as nat, window as nat, ch as nat),
        decreases channels - ch,
    {
        let mut sum: i32 = 0;
        let mut j: usize = 0;
        while j < window
            invariant
                channels > 0,
                window > 0,
                8 * window <= i32::MAX,
                w == channels * window,
                start + w <= data@.len(),
                n == data@.len(),
                frame == data@.subrange(start as int, start + w),
                ch < channels,
                j <= window,
                sum == window_balance(frame, channels as nat, ch as nat, j as nat),
                -8 * (j as int) <= sum <= 8 * j,
            decreases window - j,
        {
            assert(ch + j * channels < w) by (nonlinear_arith)
                requires
                    ch < channels,
                    j < window,
                    w == channels * window,
            ;
            let idx = start + (ch + j * channels);
            let b = data[idx];
            assert(frame[ch + j * channels] == b);
            let v = byte_balance_of(b);
            sum = sum + v;
            j = j + 1;
        }
        out.push(sum);
        assert(out@ =~= base + frame_balances_upto(frame, channels as nat, window as nat, (ch + 1) as nat));
        ch = ch + 1;
    }
}

/// Counts the balances of a DSD stream, taken in blocks, frame by frame.
pub struct PcmFallbackFramer {
    channels: usize,
    window: usize,
    pending: Vec<u8>,
    frames: usize,
    input: Ghost<Seq<u8>>,
}

impl PcmFallbackFramer {
    /// The bytes taken so far.
    pub closed spec fn input(&self) -> Seq<u8> {
        self.input@
    }

    /// The number of channels.
    pub closed spec fn channel_count(&self) -> nat {
        self.channels as nat
    }

    /// The number of bytes of each channel in a frame.
    pub closed spec fn window_len(&self) -> nat {
        self.window as nat
    }

    /// The framer's state: the bytes not yet framed are the tail of the input
    /// after its complete frames.
    pub closed spec fn wf(&self) -> bool {
        let w = self.channels * self.window;
        &&& self.channels > 0
        &&& self.window > 0
        &&& 8 * self.window <= i32::MAX
        &&& w <= usize::MAX
        &&& self.pending@.len() < w
        &&& self.frames * w + self.pending@.len() == self.input@.len()
        &&& self.pending@ == self.input@.skip(self.frames * w)
    }

    /// A framer for `channels` channels with windows of `window` bytes.
    pub fn new(channels: usize, window: usize) -> (r: Self)
        requires
            0 < channels,
            0 < window,
            8 * window <= i32::MAX,
            channels * window <= usize::MAX,
        ensures
            r.wf(),
            r.input() == Seq::<u8>::empty(),
            r.channel_count() == channels,
            r.window_len() == window,
    {
        let r = PcmFallbackFramer { channels, window, pending: Vec::new(), frames: 0, input: Ghost(Seq::empty()) };
        proof {
            assert(0 * (channels * window) == 0) by (nonlinear_arith);
            assert(channels * window >= 1) by (nonlinear_arith)
                requires
                    channels > 0,
                    window > 0,
            ;
            assert(r.input@.skip(0) =~= r.pending@);
        }
        r
    }

    /// Takes the next block of the stream and gives the balances of the
    /// frames it completes.
    pub fn push(&mut self, bytes: &[u8]) -> (out: Vec<i32>)
        requires
            old(self).wf(),
            old(self).input().len() + bytes@.len() <= usize::MAX,
        ensures
            final(self).wf(),
            final(self).input() == old(self).input() + bytes@,
            final(self).channel_count() == old(self).channel_count(),
            final(self).window_len() == old(self).window_len(),
            balance_stream(old(self).input(), old(self).channel_count(), old(self).window_len()) + out@
                == balance_stream(final(self).input(), old(self).channel_count(), old(self).window_len()),
    {
        let c = self.channels;
        let d = self.window;
        let w = c * d;
        let ghost cn = c as nat;
        let ghost dn = d as nat;
        let ghost start_input = self.input@;
        let ghost all = self.input@ + bytes@;
        let ghost base = self.frames * w;
        proof {
            assert(w >= 1) by (nonlinear_arith)
                requires
                    c > 0,
                    d > 0,
                    w == c * d,
            ;
        }
        let mut data: Vec<u8> = Vec::new();
        let mut i: usize = 0;
        while i < self.pending.len()
            invariant
                i <= self.pending@.len(),
                data@ == self.pending@.take(i as int),
            decreases self.pending@.len() - i,
        {
            data.push(self.pending[i]);
            assert(self.pending@.take(i + 1) =~= self.pending@.take(i as int).push(self.pending@[i as int]));
            i = i + 1;
        }
        let mut j: usize = 0;
        while j < bytes.len()
            invariant
                j <= bytes@.len(),
                self.pending@.len() + bytes@.len() <= usize::MAX,
                data@ == self.pending@ + bytes@.take(j as int),
            decreases bytes@.len() - j,
        {
            data.push(bytes[j]);
            assert(self.pending@ + bytes@.take(j + 1) =~= (self.pending@ + bytes@.take(j as int)).push(bytes@[j as int]));
            j = j + 1;
        }
        assert(self.pending@.take(self.pending@.len() as int) =~= self.pending@);
        assert(bytes@.take(bytes@.len() as int) =~= bytes@);
        assert(data@ =~= all.skip(base as int)) by {
            assert(self.pending@ == start_input.skip(base as int));
        }
        let mut out: Vec<i32> = Vec::new();
        let mut start: usize = 0;
        let mut frames = self.frames;
        let ghost k0 = self.frames as nat;
        proof {
            assert(all.take(start_input.len() as int) =~= start_input);
            lemma_balance_frames_prefix(start_input, all, cn, dn, k0);
        }
        while data.len() - start >= w
            invariant
                c > 0,
                d > 0,
                8 * d <= i32::MAX,
                w == c * d,
                w >= 1,
                cn == c as nat,
                dn == d as nat,
                data@ == all.skip(base as int),
                base == k0 * w,
                base + data@.len() == all.len(),
                start <= data@.len(),
                frames as int == k0 + (start as int) / (w as int),
                (start as int) % (w as int) == 0,
                frames * w <= all.len(),
                all.len() <= usize::MAX,
                balance_frames(start_input, cn, dn, k0) + out@ == balance_frames(all, cn, dn, frames as nat),
            decreases data@.len() - start,
        {
            push_frame_balances(&data, start, c, d, &mut out);
            proof {
                assert((frames + 1) * w == frames * w + w) by (nonlinear_arith);
                assert(frames * w == base + start) by (nonlinear_arith)
                    requires
                        frames as int == k0 + (start as int) / (w as int),
                        (start as int) % (w as int) == 0,
                        base == k0 * w,
                        w > 0,
                {
                    vstd::arithmetic::div_mod::lemma_fundamental_div_mod(start as int, w as int);
                }
                assert(data@.subrange(start as int, start + w) =~= all.subrange(frames * w, (frames + 1) * w));
                assert(balance_frames(all, cn, dn, (frames + 1) as nat) == balance_frames(all, cn, dn, frames as nat)
                    + frame_balances(all.subrange(frames * w, (frames + 1) * w), cn, dn));
                vstd::arithmetic::div_mod::lemma_div_plus_one(start as int, w as int);
                vstd::arithmetic::div_mod::lemma_mod_add_multiples_vanish(start as int, w as int);
                assert(frames + 1 <= (frames + 1) * w) by (nonlinear_arith)
                    requires
                        w >= 1,
                ;
            }
            start = start + w;
            frames = frames + 1;
        }
        let mut rest: Vec<u8> = Vec::new();
        let mut r: usize = start;
        while r < data.len()
            invariant
                start <= r <= data@.len(),
                rest@ == data@.subrange(start as int, r as int),
            decreases data@.len() - r,
        {
            rest.push(data[r]);
            assert(data@.subrange(start as int, r + 1) =~= data@.subrange(start as int, r as int).push(data@[r as int]));
            r = r + 1;
        }
        proof {
            assert(frames * w == base + start) by (nonlinear_arith)
                requires
                    frames as int == k0 + (start as int) / (w as int),
                    (start as int) % (w as int) == 0,
                    base == k0 * w,
                    w > 0,
            {
                vstd::arithmetic::div_mod::lemma_fundamental_div_mod(start as int, w as int);
            }
            assert(rest@ =~= all.skip(frames * w));
            vstd::arithmetic::div_mod::lemma_fundamental_div_mod_converse(
                start_input.len() as int,
                w as int,
                k0 as int,
                self.pending@.len() as int,
            );
            vstd::arithmetic::div_mod::lemma_fundamental_div_mod_converse(
                all.len() as int,
                w as int,
                frames as int,
                rest@.len() as int,
            );
        }
        self.pending = rest;
        self.frames = frames;
        self.input = Ghost(all);
        out
    }

    /// Ends the stream: the balances of the last frame, padded with DSD
    /// silence, when the stream ended inside one.
    pub fn finish(self) -> (out: Vec<i32>)
        requires
            self.wf(),
        ensures
            out@ == balance_tail(self.input(), self.channel_count(), self.window_len()),
    {
        let c = self.channels;
        let d = self.window;
        let w = c * d;
        let ghost all = self.input@;
        proof {
            vstd::arithmetic::div_mod::lemma_fundamental_div_mod_converse(
                all.len() as int,
                w as int,
                self.frames as int,
                self.pending@.len() as int,
            );
        }
        let mut out: Vec<i32> = Vec::new();
        if self.pending.len() == 0 {
            return out;
        }
        let mut block: Vec<u8> = Vec::new();
        let mut i: usize = 0;
        while i < self.pending.len()
            invariant
                i <= self.pending@.len(),
                block@ == self.pending@.take(i as int),
            decreases self.pending@.len() - i,
        {
            block.push(self.pending[i]);
            assert(self.pending@.take(i + 1) =~= self.pending@.take(i as int).push(self.pending@[i as int]));
            i = i + 1;
        }
        assert(self.pending@.take(self.pending@.len() as int) =~= self.pending@);
        while block.len() < w
            invariant
                self.pending@.len() <= block@.len() <= w,
                block@ == padded(self.pending@, block@.len() as nat),
            decreases w - block@.len(),
        {
            block.push(DSD_SILENCE_BYTE);
            assert(block@ =~= padded(self.pending@, block@.len() as nat));
        }
        push_frame_balances(&block, 0, c, d, &mut out);
        proof {
            assert(block@.subrange(0, w as int) =~= block@);
            assert(self.pending@ == all.skip(self.frames * w));
        }
        out
    }
}

/// The balances of a stream do not change when more bytes follow it.
pub proof fn lemma_balance_frames_prefix(a: Seq<u8>, b: Seq<u8>, channels: nat, window: nat, k: nat)
    requires
        k * (channels * window) <= a.len(),
        a.len() <= b.len(),
        a == b.take(a.len() as int),
    ensures
        balance_frames(a, channels, window, k) == balance_frames(b, channels, window, k),
    decreases k,
{
    if k > 0 {
        let w = channels * window;
        assert((k - 1) * w <= k * w) by (nonlinear_arith)
            requires
                k > 0,
        ;
        lemma_balance_frames_prefix(a, b, channels, window, (k - 1) as nat);
        assert(a.subrange(((k - 1) * w) as int, (k * w) as int) =~= b.subrange(((k - 1) * w) as int, (k * w) as int));
    }
}

} // verus!
