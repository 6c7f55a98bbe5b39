//! What signal processing does with samples of any kind: layout, delay lines,
//! blocks, and the WAV container.

use vstd::prelude::*;
use crate::bytes::{append, le16, le32, push_le16, push_le32};
use crate::text::{dec, owned, push_dec};

verus! {

// ---------------------------------------------------------------------------
// Layout
// ---------------------------------------------------------------------------

/// The samples of one channel.
pub open spec fn channel_of<T>(samples: Seq<T>, c: int, channels: int) -> Seq<T> {
    Seq::new(
        if c < samples.len() {
            ((samples.len() - c - 1) / channels + 1) as nat
        } else {
            0
        },
        |i: int| samples[c + i * channels],
    )
}

/// The samples of one channel of an interleaved buffer.
pub fn take_channel<T: Copy>(samples: &[T], c: usize, channels: usize) -> (out: Vec<T>)
    requires
        c < channels,
    ensures
        out@ == channel_of(samples@, c as int, channels as int),
{
    let mut out: Vec<T> = Vec::new();
    let n: usize = samples.len();
    let mut i: usize = c;
    proof {
        assert(0 * channels == 0) by (nonlinear_arith);
    }
    while i < n
        invariant
            n == samples@.len(),
            c < channels,
            i == c + out@.len() * channels,
            forall|k: int| 0 <= k < out@.len() ==> #[trigger] out@[k] == samples@[c + k * channels],
            out@.len() > 0 ==> c + (out@.len() - 1) * channels < n,
        decreases n + channels - i,
    {
        out.push(samples[i]);
        proof {
            let k = out@.len();
            assert(k * channels == (k - 1) * channels + channels) by (nonlinear_arith);
        }
        if channels > n - i {
            proof {
                lemma_channel_count(n as int, c as int, channels as int, out@.len() as int);
                assert(out@ =~= channel_of(samples@, c as int, channels as int));
            }
            return out;
        }
        i = i + channels;
    }
    proof {
        if out@.len() > 0 {
            lemma_channel_count(n as int, c as int, channels as int, out@.len() as int);
        } else {
            assert(c >= n) by {
                assert(0 * channels == 0) by (nonlinear_arith);
            }
        }
        assert(out@ =~= channel_of(samples@, c as int, channels as int));
    }
    out
}

proof fn lemma_channel_count(n: int, c: int, channels: int, k: int)
    requires
        0 <= c < channels,
        k > 0,
        c + (k - 1) * channels < n <= c + k * channels,
    ensures
        c < n,
        (n - c - 1) / channels + 1 == k,
{
    let d = n - c - 1;
    assert((k - 1) * channels >= 0) by (nonlinear_arith)
        requires
            k > 0,
            channels > 0,
    ;
    assert(d / channels == k - 1) by (nonlinear_arith)
        requires
            (k - 1) * channels <= d < k * channels,
            channels > 0,
    ;
}

/// The contents of the channels.
pub open spec fn channel_views<T>(v: Seq<Vec<T>>) -> Seq<Seq<T>> {
    Seq::new(v.len(), |i: int| v[i]@)
}

/// The channels that an impulse response is made of: the first two of a file,
/// or its only one.
pub fn ir_channels<T: Copy>(samples: &[T], channels: usize) -> (out: Vec<Vec<T>>)
    requires
        channels > 0,
    ensures
        channel_views(out@) == Seq::new(
            if channels < 2 {
                1
            } else {
                2
            },
            |c: int| channel_of(samples@, c, channels as int),
        ),
{
    let n: usize = if channels < 2 { 1 } else { 2 };
    let mut out: Vec<Vec<T>> = Vec::new();
    let mut c: usize = 0;
    while c < n
        invariant
            c <= n <= channels,
            out@.len() == c,
            forall|k: int|
                0 <= k < c ==> (#[trigger] out@[k])@ == channel_of(samples@, k, channels as int),
        decreases n - c,
    {
        out.push(take_channel(samples, c, channels));
        c = c + 1;
    }
    assert(channel_views(out@) =~= Seq::new(
        n as nat,
        |c: int| channel_of(samples@, c, channels as int),
    ));
    out
}

/// Whether an impulse response holds nothing: none of its channels does.
pub fn ir_is_empty<T>(channels: &Vec<Vec<T>>) -> (b: bool)
    ensures
        b == (forall|i: int| 0 <= i < channels@.len() ==> (#[trigger] channels@[i])@.len() == 0),
{
    let mut i: usize = 0;
    while i < channels.len()
        invariant
            i <= channels@.len(),
            forall|k: int| 0 <= k < i ==> (#[trigger] channels@[k])@.len() == 0,
        decreases channels@.len() - i,
    {
        if channels[i].len() > 0 {
            return false;
        }
        i = i + 1;
    }
    true
}

/// A decoded packet is taken.
pub open spec fn counts(packet_track: u32, track: u32, frames: Option<usize>) -> bool {
    packet_track == track && (frames matches Some(n) && n > 0)
}

/// Whether a decoded packet is taken: it belongs to the track, and holds
/// frames.
pub fn packet_counts(packet_track: u32, track: u32, frames: Option<usize>) -> (b: bool)
    ensures
        b == counts(packet_track, track, frames),
{
    packet_track == track && (match frames {
        Some(n) => n > 0,
        None => false,
    })
}

/// How samples of the bus become samples of a device.
#[derive(Clone, Copy, Debug, PartialEq, Eq, Structural)]
pub enum DeviceLayout {
    /// As they are.
    Same,
    /// Each one twice.
    Duplicate,
    /// The mean of each pair.
    Average,
}

/// How samples of the bus become samples of a device, where that is
/// supported.
pub open spec fn layout_for(bus: usize, device: usize) -> Option<DeviceLayout> {
    if bus == device && (bus == 1 || bus == 2) {
        Some(DeviceLayout::Same)
    } else if bus == 1 && device == 2 {
        Some(DeviceLayout::Duplicate)
    } else if bus == 2 && device == 1 {
        Some(DeviceLayout::Average)
    } else {
        None
    }
}

/// Why a device is refused.
pub open spec fn layout_refusal(bus: usize, device: usize) -> Seq<char> {
    "output.soundcard: device has "@ + dec(device as nat) + " channels (bus has "@ + dec(bus as nat)
        + "); set(\"channels\", 2) or pick a stereo device"@
}

/// How samples of the bus become samples of a device, or why the device is
/// refused.
pub fn device_layout(bus: usize, device: usize) -> (r: Result<DeviceLayout, String>)
    ensures
        match r {
            Ok(l) => layout_for(bus, device) == Some(l),
            Err(e) => layout_for(bus, device) is None && e@ == layout_refusal(bus, device),
        },
{
    if bus == device && (bus == 1 || bus == 2) {
        return Ok(DeviceLayout::Same);
    }
    if bus == 1 && device == 2 {
        return Ok(DeviceLayout::Duplicate);
    }
    if bus == 2 && device == 1 {
        return Ok(DeviceLayout::Average);
    }
    let mut s = owned("output.soundcard: device has ");
    push_dec(&mut s, device as u64);
    s.append(" channels (bus has ");
    push_dec(&mut s, bus as u64);
    s.append("); set(\"channels\", 2) or pick a stereo device");
    Err(s)
}

/// Appends each sample twice.
pub fn push_twice<T: Copy>(samples: &[T], out: &mut Vec<T>)
    requires
        2 * samples@.len() <= usize::MAX,
    ensures
        final(out)@ == old(out)@ + Seq::new(2 * samples@.len(), |i: int| samples@[i / 2]),
{
    let ghost before = out@;
    let mut i: usize = 0;
    while i < samples.len()
        invariant
            i <= samples@.len(),
            out@ == before + Seq::new((2 * i) as nat, |k: int| samples@[k / 2]),
        decreases samples@.len() - i,
    {
        out.push(samples[i]);
        out.push(samples[i]);
        i = i + 1;
        assert(out@ =~= before + Seq::new((2 * i) as nat, |k: int| samples@[k / 2]));
    }
}

// ---------------------------------------------------------------------------
// Queues and delay lines
// ---------------------------------------------------------------------------

/// Samples that wait until enough of them are there.
pub struct SampleQueue<T> {
    items: Vec<T>,
}

impl<T: Copy> View for SampleQueue<T> {
    type V = Seq<T>;

    closed spec fn view(&self) -> Seq<T> {
        self.items@
    }
}

impl<T: Copy> SampleQueue<T> {
    /// An empty queue.
    pub fn new() -> (q: SampleQueue<T>)
        ensures
            q@ == Seq::<T>::empty(),
    {
        SampleQueue { items: Vec::new() }
    }

    /// The number of samples.
    pub fn len(&self) -> (n: usize)
        ensures
            n == self@.len(),
    {
        self.items.len()
    }

    /// Appends samples.
    pub fn push(&mut self, samples: &[T])
        ensures
            final(self)@ == old(self)@ + samples@,
    {
        let ghost before = self@;
        let mut i: usize = 0;
        assert(before + samples@.take(0) =~= before);
        while i < samples.len()
            invariant
                i <= samples@.len(),
                self@ == before + samples@.take(i as int),
            decreases samples@.len() - i,
        {
            self.items.push(samples[i]);
            i = i + 1;
            assert(self@ =~= before + samples@.take(i as int));
        }
        assert(samples@.take(i as int) =~= samples@);
    }

    /// Takes the first `n` samples out.
    pub fn take(&mut self, n: usize) -> (out: Vec<T>)
        requires
            n <= old(self)@.len(),
        ensures
            out@ == old(self)@.take(n as int),
            final(self)@ == old(self)@.skip(n as int),
    {
        let ghost all = self.items@;
        let mut out: Vec<T> = Vec::new();
        let mut rest: Vec<T> = Vec::new();
        let mut i: usize = 0;
        while i < self.items.len()
            invariant
                i <= self.items@.len(),
                all == self.items@,
                n <= all.len(),
                out@ == all.take(if i < n { i as int } else { n as int }),
                rest@ == all.subrange(n as int, if i < n { n as int } else { i as int }),
            decreases self.items@.len() - i,
        {
            if i < n {
                out.push(self.items[i]);
            } else {
                rest.push(self.items[i]);
            }
            i = i + 1;
            assert(out@ =~= all.take(if i < n { i as int } else { n as int }));
            assert(rest@ =~= all.subrange(n as int, if i < n { n as int } else { i as int }));
        }
        assert(rest@ =~= all.skip(n as int));
        self.items = rest;
        out
    }

    /// Takes the next block of `n` samples out, if it is complete.
    pub fn take_block(&mut self, n: usize) -> (r: Option<Vec<T>>)
        ensures
            match r {
                Some(block) => {
                    &&& old(self)@.len() >= n
                    &&& block@ == old(self)@.take(n as int)
                    &&& final(self)@ == old(self)@.skip(n as int)
                },
                None => old(self)@.len() < n && final(self)@ == old(self)@,
            },
    {
        if self.items.len() < n {
            None
        } else {
            Some(self.take(n))
        }
    }

    /// Takes as many whole frames out as there are, but no more samples than
    /// `wanted`.
    pub fn take_frames(&mut self, wanted: usize, channels: usize) -> (out: Vec<T>)
        requires
            channels > 0,
        ensures
            ({
                let a = wanted / channels;
                let b = old(self)@.len() / (channels as nat);
                let n = (if a < b {
                    a as int
                } else {
                    b as int
                }) * channels;
                &&& out@ == old(self)@.take(n)
                &&& final(self)@ == old(self)@.skip(n)
                &&& n <= wanted
            }),
    {
        let a: usize = wanted / channels;
        let b: usize = self.items.len() / channels;
        let frames: usize = if a < b { a } else { b };
        proof {
            lemma_floor(wanted as int, channels as int, frames as int);
            lemma_floor(self.items@.len() as int, channels as int, frames as int);
        }
        self.take(frames * channels)
    }
}

proof fn lemma_floor(n: int, channels: int, frames: int)
    requires
        n >= 0,
        channels > 0,
        0 <= frames <= n / channels,
    ensures
        0 <= frames * channels <= n,
{
    assert(0 <= frames * channels <= n) by (nonlinear_arith)
        requires
            n >= 0,
            channels > 0,
            0 <= frames <= n / channels,
    ;
}

/// A line of samples that remembers the last ones written, however long it
/// runs.
pub struct DelayLine<T> {
    line: Vec<T>,
    pos: usize,
}

impl<T: Copy> View for DelayLine<T> {
    type V = Seq<T>;

    /// The samples, the latest one first.
    closed spec fn view(&self) -> Seq<T> {
        let n = self.line@.len() as int;
        Seq::new(
            self.line@.len(),
            |i: int|
                self.line@[if i < self.pos {
                    self.pos - 1 - i
                } else {
                    self.pos + n - 1 - i
                }],
        )
    }
}

impl<T: Copy> DelayLine<T> {
    /// The place is in the line.
    pub closed spec fn wf(&self) -> bool {
        self.pos < self.line@.len()
    }

    /// A line of silence that remembers `len` samples.
    pub fn new(len: usize, silence: T) -> (d: DelayLine<T>)
        requires
            0 < len,
        ensures
            d.wf(),
            d@ == Seq::new(len as nat, |i: int| silence),
    {
        let mut line: Vec<T> = Vec::new();
        let mut i: usize = 0;
        while i < len
            invariant
                i <= len,
                line@.len() == i,
                forall|k: int| 0 <= k < i ==> line@[k] == silence,
            decreases len - i,
        {
            line.push(silence);
            i = i + 1;
        }
        let d = DelayLine { line, pos: 0 };
        assert(d@ =~= Seq::new(len as nat, |i: int| silence));
        d
    }

    /// The number of samples that are remembered.
    pub fn len(&self) -> (n: usize)
        ensures
            n == self@.len(),
    {
        self.line.len()
    }

    /// The sample written `delay` steps ago.
    pub fn read(&self, delay: usize) -> (v: T)
        requires
            self.wf(),
            0 < delay <= self@.len(),
        ensures
            v == self@[delay - 1],
    {
        let n: usize = self.line.len();
        if delay <= self.pos {
            self.line[self.pos - delay]
        } else {
            self.line[n - (delay - self.pos)]
        }
    }

    /// Writes the next sample; the oldest one is forgotten.
    pub fn write(&mut self, v: T)
        requires
            old(self).wf(),
        ensures
            final(self).wf(),
            final(self)@ == remembered(old(self)@, v),
    {
        let ghost before = self@;
        let n: usize = self.line.len();
        self.line.set(self.pos, v);
        self.pos = if self.pos == n - 1 { 0 } else { self.pos + 1 };
        assert(self@ =~= seq![v] + before.drop_last());
    }
}

/// A delay line after one more sample.
pub open spec fn remembered<T>(line: Seq<T>, v: T) -> Seq<T> {
    seq![v] + line.drop_last()
}

/// The larger of a number and one.
pub open spec fn at_least_one(n: usize) -> int {
    if n == 0 {
        1
    } else {
        n as int
    }
}

/// The interleaved samples that a delay of some frames spans: at least one
/// frame, and each of a sample for every channel.
pub open spec fn delay_span(frames: usize, channels: usize) -> int {
    at_least_one(frames) * at_least_one(channels)
}

/// The length of a delay line that remembers some frames.
pub fn line_slots(frames: usize, channels: usize) -> (n: usize)
    requires
        delay_span(frames, channels) <= usize::MAX,
    ensures
        n == delay_span(frames, channels),
        n > 0,
{
    let f: usize = if frames == 0 { 1 } else { frames };
    let c: usize = if channels == 0 { 1 } else { channels };
    proof {
        assert(f * c > 0) by (nonlinear_arith)
            requires
                f > 0,
                c > 0,
        ;
    }
    f * c
}

/// The delay of a tap in interleaved samples, within its line.
pub open spec fn clamped_span(frames: usize, channels: usize, line: usize) -> int {
    if delay_span(frames, channels) < line {
        delay_span(frames, channels)
    } else {
        line as int
    }
}

/// The delay of a tap in interleaved samples; one beyond the line is clamped
/// to it.
pub fn tap_slots(frames: usize, channels: usize, line: usize) -> (n: usize)
    requires
        line > 0,
    ensures
        n == clamped_span(frames, channels, line),
        0 < n <= line,
{
    let f: usize = if frames == 0 { 1 } else { frames };
    let c: usize = if channels == 0 { 1 } else { channels };
    let most: usize = line / c;
    proof {
        assert(f * c > 0) by (nonlinear_arith)
            requires
                f > 0,
                c > 0,
        ;
        if f > most {
            assert(f * c >= line) by (nonlinear_arith)
                requires
                    f >= line / c + 1,
                    c > 0,
            ;
        } else {
            assert(f * c <= line) by (nonlinear_arith)
                requires
                    f <= line / c,
                    c > 0,
            ;
        }
    }
    if f > most {
        line
    } else {
        f * c
    }
}

// ---------------------------------------------------------------------------
// Convolution and stretching
// ---------------------------------------------------------------------------

/// Which impulse response serves a channel: its own, or the last one.
pub open spec fn response_for(responses: usize, channel: usize) -> Option<usize> {
    if responses == 0 {
        None
    } else if channel < responses {
        Some(channel)
    } else {
        Some((responses - 1) as usize)
    }
}

/// Which impulse response serves a channel: its own, or the last one.
pub fn response_index(responses: usize, channel: usize) -> (r: Option<usize>)
    ensures
        r == response_for(responses, channel),
{
    if responses == 0 {
        None
    } else if channel < responses {
        Some(channel)
    } else {
        Some(responses - 1)
    }
}

/// The number of partitions of an impulse response: at least one.
pub open spec fn partition_count(len: nat, p: nat) -> nat {
    if len == 0 {
        1
    } else {
        ((len - 1) / p as int + 1) as nat
    }
}

/// The partitions of an impulse response, of `p` samples each; the last one is
/// filled up with silence.
pub open spec fn partitions_of<T>(ir: Seq<T>, p: nat, silence: T) -> Seq<Seq<T>> {
    Seq::new(
        partition_count(ir.len(), p),
        |k: int|
            Seq::new(
                p,
                |i: int|
                    if k * p + i < ir.len() {
                        ir[k * p + i]
                    } else {
                        silence
                    },
            ),
    )
}

/// Splits an impulse response into partitions.
pub fn partitions<T: Copy>(ir: &[T], p: usize, silence: T) -> (out: Vec<Vec<T>>)
    requires
        p > 0,
        ir@.len() + p <= usize::MAX,
    ensures
        channel_views(out@) == partitions_of(ir@, p as nat, silence),
{
    let n: usize = ir.len();
    let mut out: Vec<Vec<T>> = Vec::new();
    let mut at: usize = 0;
    proof {
        assert(0 * p == 0) by (nonlinear_arith);
    }
    while at == 0 || at < n
        invariant
            p > 0,
            n == ir@.len(),
            n + p <= usize::MAX,
            at == out@.len() * p,
            out@.len() > 1 ==> at < n + p,
            at <= n + p,
            at == 0 <==> out@.len() == 0,
            forall|k: int|
                0 <= k < out@.len() ==> (#[trigger] out@[k])@ == partitions_of_at(
                    ir@,
                    p as nat,
                    silence,
                    k,
                ),
        decreases n + p - at,
    {
        let ghost count = out@.len();
        let mut part: Vec<T> = Vec::new();
        let mut i: usize = 0;
        while i < p
            invariant
                i <= p,
                n == ir@.len(),
                n + p <= usize::MAX,
                at == 0 || at < n,
                part@.len() == i,
                forall|j: int|
                    0 <= j < i ==> #[trigger] part@[j] == (if at + j < n {
                        ir@[at + j]
                    } else {
                        silence
                    }),
            decreases p - i,
        {
            if at + i < n {
                part.push(ir[at + i]);
            } else {
                part.push(silence);
            }
            i = i + 1;
        }
        proof {
            assert(part@ =~= partitions_of_at(ir@, p as nat, silence, count as int));
            assert((count + 1) * p == count * p + p) by (nonlinear_arith);
        }
        out.push(part);
        at = at + p;
    }
    proof {
        lemma_partition_count(n as nat, p as nat, out@.len());
        assert(channel_views(out@) =~= partitions_of(ir@, p as nat, silence));
    }
    out
}

spec fn partitions_of_at<T>(ir: Seq<T>, p: nat, silence: T, k: int) -> Seq<T> {
    Seq::new(
        p,
        |i: int|
            if k * p + i < ir.len() {
                ir[k * p + i]
            } else {
                silence
            },
    )
}

proof fn lemma_partition_count(n: nat, p: nat, k: nat)
    requires
        p > 0,
        k > 0,
        n <= k * p,
        k * p < n + p || k == 1,
    ensures
        partition_count(n, p) == k,
{
    if n > 0 {
        let d = n - 1;
        if k == 1 {
            assert(1 * p == p) by (nonlinear_arith);
        }
        assert((k - 1) * p == k * p - p) by (nonlinear_arith);
        assert(d / p as int == k - 1) by (nonlinear_arith)
            requires
                (k - 1) * p <= d < k * p,
                p > 0,
        ;
    } else {
        assert(k == 1) by (nonlinear_arith)
            requires
                k * p < p || k == 1,
                k > 0,
                p > 0,
        ;
    }
}

/// A power of two from 512 to 32768.
pub open spec fn is_partition(p: int) -> bool {
    p == 512 || p == 1024 || p == 2048 || p == 4096 || p == 8192 || p == 16384 || p == 32768
}

/// The partition size of a convolution: the largest one that divides the
/// buffer, so that a full buffer is made of whole blocks; else 2048.
pub fn pick_partition(frames_per_buffer: usize) -> (p: usize)
    ensures
        is_partition(p as int),
        forall|q: int|
            #[trigger] is_partition(q) && frames_per_buffer > 0 && frames_per_buffer as int % q == 0
                ==> frames_per_buffer as int % p as int == 0 && q <= p,
        (forall|q: int|
            #[trigger] is_partition(q) ==> frames_per_buffer == 0 || frames_per_buffer as int % q
                != 0) ==> p == 2048,
{
    let fpb: usize = if frames_per_buffer < 1 { 1 } else { frames_per_buffer };
    let p: usize = if fpb % 32768 == 0 {
        32768
    } else if fpb % 16384 == 0 {
        16384
    } else if fpb % 8192 == 0 {
        8192
    } else if fpb % 4096 == 0 {
        4096
    } else if fpb % 2048 == 0 {
        2048
    } else if fpb % 1024 == 0 {
        1024
    } else if fpb % 512 == 0 {
        512
    } else {
        2048
    };
    proof {
        assert(is_partition(512) && is_partition(1024) && is_partition(2048) && is_partition(4096)
            && is_partition(8192) && is_partition(16384) && is_partition(32768));
    }
    p
}

/// What a stretching source does once its buffer is drained.
#[derive(Clone, Copy, Debug, PartialEq, Eq, Structural)]
pub enum StretchStep {
    /// Feed what was pulled to the stretcher.
    Feed,
    /// Flush the stretcher.
    FlushStretcher,
    /// Flush the resampler behind it.
    FlushResampler,
    /// Nothing is left.
    End,
}

/// How far the end of a stretching source has come.
#[derive(Clone, Copy, Debug, PartialEq, Eq, Structural)]
pub struct StretchState {
    pub stretcher_flushed: bool,
    pub resampler_flushed: bool,
    pub ended: bool,
}

/// The state and the step after `got` samples were pulled from the child: at
/// its end the stretcher is flushed first, then the resampler, each once. A
/// child that gives nothing without having ended ends the source too.
pub open spec fn stretch_next(s: StretchState, got: usize, child_ended: bool, resampling: bool) -> (
    StretchState,
    StretchStep,
) {
    if got > 0 {
        (s, StretchStep::Feed)
    } else if child_ended && !s.stretcher_flushed {
        (StretchState { stretcher_flushed: true, ..s }, StretchStep::FlushStretcher)
    } else if child_ended && resampling && !s.resampler_flushed {
        (StretchState { resampler_flushed: true, ..s }, StretchStep::FlushResampler)
    } else {
        (StretchState { ended: true, ..s }, StretchStep::End)
    }
}

impl StretchState {
    /// The state at the start.
    pub fn new() -> (s: StretchState)
        ensures
            !s.stretcher_flushed && !s.resampler_flushed && !s.ended,
    {
        StretchState { stretcher_flushed: false, resampler_flushed: false, ended: false }
    }

    /// `got` samples were pulled from the child; says what to do.
    pub fn on_pull(&mut self, got: usize, child_ended: bool, resampling: bool) -> (r: StretchStep)
        ensures
            (*final(self), r) == stretch_next(*old(self), got, child_ended, resampling),
    {
        if got > 0 {
            StretchStep::Feed
        } else if child_ended && !self.stretcher_flushed {
            self.stretcher_flushed = true;
            StretchStep::FlushStretcher
        } else if child_ended && resampling && !self.resampler_flushed {
            self.resampler_flushed = true;
            StretchStep::FlushResampler
        } else {
            self.ended = true;
            StretchStep::End
        }
    }
}

// ---------------------------------------------------------------------------
// WAV
// ---------------------------------------------------------------------------

/// A sample in two's complement.
pub open spec fn sample_bits(s: i16) -> int {
    if s >= 0 {
        s as int
    } else {
        s + 65536
    }
}

/// The samples as bytes, low byte first.
pub open spec fn pcm16(samples: Seq<i16>) -> Seq<u8>
    decreases samples.len(),
{
    if samples.len() == 0 {
        Seq::empty()
    } else {
        pcm16(samples.drop_last()) + le16(sample_bits(samples.last()))
    }
}

/// A mono WAV file of 16-bit samples.
pub open spec fn wav16(samples: Seq<i16>, rate: u32) -> Seq<u8> {
    let data_len = 2 * samples.len() as int;
    seq![0x52u8, 0x49, 0x46, 0x46] + le32(36 + data_len) + seq![
        0x57u8,
        0x41,
        0x56,
        0x45,
        0x66,
        0x6d,
        0x74,
        0x20,
    ] + le32(16) + le16(1) + le16(1) + le32(rate as int) + le32(rate * 2) + le16(2) + le16(16)
        + seq![0x64u8, 0x61, 0x74, 0x61] + le32(data_len) + pcm16(samples)
}

/// A mono WAV file of 16-bit samples.
pub fn wav16_mono(samples: &[i16], rate: u32) -> (out: Vec<u8>)
    requires
        36 + 2 * samples@.len() <= u32::MAX,
        rate * 2 <= u32::MAX,
    ensures
        out@ == wav16(samples@, rate),
{
    let data_len: u32 = (samples.len() * 2) as u32;
    let mut out: Vec<u8> = Vec::new();
    append(&mut out, &[0x52, 0x49, 0x46, 0x46]);
    push_le32(&mut out, 36 + data_len);
    append(&mut out, &[0x57, 0x41, 0x56, 0x45, 0x66, 0x6d, 0x74, 0x20]);
    push_le32(&mut out, 16);
    push_le16(&mut out, 1);
    push_le16(&mut out, 1);
    push_le32(&mut out, rate);
    push_le32(&mut out, rate * 2);
    push_le16(&mut out, 2);
    push_le16(&mut out, 16);
    append(&mut out, &[0x64, 0x61, 0x74, 0x61]);
    push_le32(&mut out, data_len);
    let ghost head = out@;
    let mut i: usize = 0;
    proof {
        assert(samples@.take(0) =~= Seq::<i16>::empty());
        assert(head + pcm16(samples@.take(0)) =~= head);
    }
    while i < samples.len()
        invariant
            i <= samples@.len(),
            out@ == head + pcm16(samples@.take(i as int)),
        decreases samples@.len() - i,
    {
        proof {
            assert(samples@.take(i as int + 1).drop_last() =~= samples@.take(i as int));
            assert(samples@.take(i as int + 1).last() == samples@[i as int]);
        }
        let s: i16 = samples[i];
        let bits: u16 = if s >= 0 { s as u16 } else { (s as i32 + 65536) as u16 };
        push_le16(&mut out, bits);
        proof {
            assert(out@ =~= head + (pcm16(samples@.take(i as int)) + le16(sample_bits(s))));
        }
        i = i + 1;
    }
    proof {
        assert(samples@.take(i as int) =~= samples@);
        assert(out@ =~= wav16(samples@, rate));
    }
    out
}

// ---------------------------------------------------------------------------
// Laws
// ---------------------------------------------------------------------------

/// Every sample of an impulse response stands in its partition, at its place.
pub proof fn law_partitions_keep_every_sample<T>(ir: Seq<T>, p: nat, silence: T, j: int)
    requires
        p > 0,
        0 <= j < ir.len(),
    ensures
        (j / p as int) < partitions_of(ir, p, silence).len(),
        partitions_of(ir, p, silence)[j / p as int][j % p as int] == ir[j],
{
    let k = j / p as int;
    let i = j % p as int;
    assert(0 <= k && 0 <= i < p && k * p + i == j) by (nonlinear_arith)
        requires
            k == j / p as int,
            i == j % p as int,
            p > 0,
            j >= 0,
    ;
    assert(k <= (ir.len() - 1) / p as int) by (nonlinear_arith)
        requires
            k == j / p as int,
            j <= ir.len() - 1,
            p > 0,
    ;
}

/// An echo is exact: what is read from a delay line after `delay` writes is
/// the first of them, whatever the line held before.
pub proof fn law_delay_is_exact<T>(line: Seq<T>, writes: Seq<T>, delay: nat)
    requires
        0 < delay <= line.len(),
        writes.len() == delay,
    ensures
        written_to(line, writes)[delay - 1] == writes[0],
{
    lemma_written(line, writes);
}

/// A delay line after writes.
pub open spec fn written_to<T>(line: Seq<T>, writes: Seq<T>) -> Seq<T>
    decreases writes.len(),
{
    if writes.len() == 0 {
        line
    } else {
        remembered(written_to(line, writes.drop_last()), writes.last())
    }
}

proof fn lemma_written<T>(line: Seq<T>, writes: Seq<T>)
    requires
        writes.len() <= line.len(),
    ensures
        written_to(line, writes).len() == line.len(),
        forall|i: int|
            0 <= i < writes.len() ==> #[trigger] written_to(line, writes)[i] == writes[writes.len()
                - 1 - i],
    decreases writes.len(),
{
    if writes.len() > 0 {
        lemma_written(line, writes.drop_last());
        let before = written_to(line, writes.drop_last());
        assert forall|i: int| 0 <= i < writes.len() implies #[trigger] written_to(line, writes)[i]
            == writes[writes.len() - 1 - i] by {
            if i > 0 {
                assert(written_to(line, writes)[i] == before[i - 1]);
            }
        }
    }
}

/// A source that stretches comes to an end: behind the end of its child it
/// flushes at most twice.
pub proof fn law_stretch_ends(s: StretchState, resampling: bool)
    ensures
        ({
            let (a, _) = stretch_next(s, 0, true, resampling);
            let (b, _) = stretch_next(a, 0, true, resampling);
            let (c, step) = stretch_next(b, 0, true, resampling);
            c.ended && step == StretchStep::End
        }),
{
}

/// Interleaved samples belong to their channels in turn, and none is lost:
/// every one of them stands in its channel at the place of its frame.
pub proof fn law_channels_hold_every_sample<T>(samples: Seq<T>, channels: int, j: int)
    requires
        channels > 0,
        0 <= j < samples.len(),
    ensures
        ({
            let c = channel_of(samples, j % channels, channels);
            j / channels < c.len() && c[j / channels] == samples[j]
        }),
{
    let c = j % channels;
    let k = j / channels;
    vstd::arithmetic::div_mod::lemma_fundamental_div_mod(j, channels);
    vstd::arithmetic::div_mod::lemma_mod_bound(j, channels);
    assert(c + k * channels == j && k >= 0) by (nonlinear_arith)
        requires
            j == channels * k + c,
            k == j / channels,
            channels > 0,
            j >= 0,
    ;
    assert(k <= (samples.len() - c - 1) / channels) by (nonlinear_arith)
        requires
            c + k * channels == j,
            j <= samples.len() - 1,
            channels > 0,
    ;
}

/// A device is played on exactly where bus and device have one or two channels
/// each: as they are where the numbers agree, doubled from one to two, and the
/// mean from two to one.
pub proof fn law_device_layouts(bus: usize, device: usize)
    ensures
        layout_for(bus, device) is Some <==> 1 <= bus <= 2 && 1 <= device <= 2,
        layout_for(bus, device) == Some(DeviceLayout::Same) ==> bus == device,
        layout_for(bus, device) == Some(DeviceLayout::Duplicate) ==> bus == 1 && device == 2,
        layout_for(bus, device) == Some(DeviceLayout::Average) ==> bus == 2 && device == 1,
{
}

/// A channel is convolved with its own response, or with the last one where it
/// has none; there is none only where there is none at all.
pub proof fn law_every_channel_has_a_response(responses: usize, channel: usize)
    ensures
        response_for(responses, channel) is None <==> responses == 0,
        channel < responses ==> response_for(responses, channel) == Some(channel),
        channel >= responses > 0 ==> (response_for(responses, channel) matches Some(r) && r + 1
            == responses),
{
}

/// Only packets of the wanted track that hold frames are taken.
pub proof fn law_packets_that_count(packet_track: u32, track: u32, n: usize)
    ensures
        counts(packet_track, track, Some(n)) <==> packet_track == track && n > 0,
        !counts(packet_track, track, None),
{
}

/// A tap hears what was played its frames ago, of the same channel, as far as
/// the line remembers.
pub proof fn law_taps_stay_in_their_channel(frames: usize, channels: usize, line: usize)
    requires
        line > 0,
        channels > 0,
    ensures
        frames > 0 && frames * channels <= line ==> clamped_span(frames, channels, line) == frames
            * channels,
        clamped_span(frames, channels, line) <= line,
        frames > 0 && frames * channels > line ==> clamped_span(frames, channels, line) == line,
        frames == 0 ==> clamped_span(frames, channels, line) == if channels < line {
            channels as int
        } else {
            line as int
        },
{
    assert(1 * channels == channels) by (nonlinear_arith);
}

/// What a child gives is stretched; behind its end first the stretcher is
/// flushed and then the resampler where there is one, each once and in this
/// order.
pub proof fn law_stretch_flushes_in_order(s: StretchState, got: usize, ended: bool, resampling: bool)
    ensures
        got > 0 ==> stretch_next(s, got, ended, resampling) == (s, StretchStep::Feed),
        !s.stretcher_flushed ==> {
            let (a, x) = stretch_next(s, 0, true, resampling);
            let (b, y) = stretch_next(a, 0, true, true);
            &&& x == StretchStep::FlushStretcher
            &&& a.stretcher_flushed && a.resampler_flushed == s.resampler_flushed && a.ended
                == s.ended
            &&& !s.resampler_flushed ==> y == StretchStep::FlushResampler && b.resampler_flushed
            &&& stretch_next(a, 0, true, false).1 == StretchStep::End
        },
        stretch_next(s, 0, false, resampling).1 == StretchStep::End,
{
}

/// The number whose bytes `s` holds, least significant first.
pub open spec fn from_le(s: Seq<u8>) -> int
    decreases s.len(),
{
    if s.len() == 0 {
        0
    } else {
        s[0] + 0x100 * from_le(s.skip(1))
    }
}

proof fn lemma_le16(x: int)
    requires
        0 <= x < 0x1_0000,
    ensures
        from_le(le16(x)) == x,
{
    reveal_with_fuel(from_le, 3);
    assert(le16(x).skip(1).skip(1).len() == 0);
}

proof fn lemma_le32(x: int)
    requires
        0 <= x < 0x1_0000_0000,
    ensures
        from_le(le32(x)) == x,
{
    reveal_with_fuel(from_le, 5);
    assert(le32(x).skip(1).skip(1).skip(1).skip(1).len() == 0);
}

proof fn lemma_pcm16(samples: Seq<i16>, i: int)
    requires
        0 <= i < samples.len(),
    ensures
        pcm16(samples).len() == 2 * samples.len(),
        pcm16(samples).subrange(2 * i, 2 * i + 2) == le16(sample_bits(samples[i])),
    decreases samples.len(),
{
    let front = samples.drop_last();
    let p = pcm16(samples);
    if front.len() > 0 {
        lemma_pcm16(front, if i < front.len() { i } else { 0 });
    }
    assert(pcm16(front).len() == 2 * front.len());
    if i < front.len() {
        assert(p.subrange(2 * i, 2 * i + 2) =~= pcm16(front).subrange(2 * i, 2 * i + 2));
    } else {
        assert(p.subrange(2 * i, 2 * i + 2) =~= le16(sample_bits(samples[i])));
    }
}

/// A player finds in a WAV file one channel of 16-bit samples at the given
/// rate, and every sample at its place; the lengths in its headers reach
/// exactly to its end.
pub proof fn law_wav_reads_back(samples: Seq<i16>, rate: u32, i: int)
    requires
        36 + 2 * samples.len() <= u32::MAX,
        rate * 2 <= u32::MAX,
        0 <= i < samples.len(),
    ensures
        ({
            let w = wav16(samples, rate);
            let bits = from_le(w.subrange(44 + 2 * i, 46 + 2 * i));
            &&& w.len() == 44 + 2 * samples.len()
            &&& from_le(w.subrange(4, 8)) == w.len() - 8
            &&& from_le(w.subrange(16, 20)) == 16
            &&& from_le(w.subrange(20, 22)) == 1 && from_le(w.subrange(22, 24)) == 1
            &&& from_le(w.subrange(24, 28)) == rate
            &&& from_le(w.subrange(28, 32)) == rate * 2
            &&& from_le(w.subrange(32, 34)) == 2 && from_le(w.subrange(34, 36)) == 16
            &&& from_le(w.subrange(40, 44)) == w.len() - 44
            &&& samples[i] == if bits < 0x8000 {
                bits
            } else {
                bits - 0x1_0000
            }
        }),
{
    let w = wav16(samples, rate);
    let n = 2 * samples.len() as int;
    let head = wav_head(n, rate as int);
    let body = pcm16(samples);
    lemma_pcm16(samples, i);
    lemma_le32(n);
    lemma_le16(sample_bits(samples[i]));
    lemma_wav_head(n, rate as int);
    let front = head + le32(n);
    assert(w == front + body);
    lemma_front(head, le32(n) + body, 4, 8);
    lemma_front(head, le32(n) + body, 16, 20);
    lemma_front(head, le32(n) + body, 20, 22);
    lemma_front(head, le32(n) + body, 22, 24);
    lemma_front(head, le32(n) + body, 24, 28);
    lemma_front(head, le32(n) + body, 28, 32);
    lemma_front(head, le32(n) + body, 32, 34);
    lemma_front(head, le32(n) + body, 34, 36);
    assert(front + body =~= head + (le32(n) + body));
    lemma_front(front, body, 40, 44);
    assert(front.subrange(40, 44) =~= le32(n));
    lemma_behind(front, body, 2 * i, 2 * i + 2);
}

proof fn lemma_front(s: Seq<u8>, x: Seq<u8>, i: int, j: int)
    requires
        0 <= i <= j <= s.len(),
    ensures
        (s + x).subrange(i, j) == s.subrange(i, j),
{
    assert((s + x).subrange(i, j) =~= s.subrange(i, j));
}

proof fn lemma_behind(s: Seq<u8>, x: Seq<u8>, i: int, j: int)
    requires
        0 <= i <= j <= x.len(),
    ensures
        (s + x).subrange(s.len() + i, s.len() + j) == x.subrange(i, j),
{
    assert((s + x).subrange(s.len() + i, s.len() + j) =~= x.subrange(i, j));
}

spec fn wav_head(n: int, rate: int) -> Seq<u8> {
    seq![0x52u8, 0x49, 0x46, 0x46] + le32(36 + n) + seq![
        0x57u8,
        0x41,
        0x56,
        0x45,
        0x66,
        0x6d,
        0x74,
        0x20,
    ] + le32(16) + le16(1) + le16(1) + le32(rate) + le32(rate * 2) + le16(2) + le16(16) + seq![
        0x64u8,
        0x61,
        0x74,
        0x61,
    ]
}

#[verifier::rlimit(40)]
proof fn lemma_wav_head(n: int, rate: int)
    requires
        0 <= n <= u32::MAX - 36,
        0 <= rate,
        rate * 2 <= u32::MAX,
    ensures
        ({
            let h = wav_head(n, rate);
            &&& h.len() == 40
            &&& from_le(h.subrange(4, 8)) == 36 + n
            &&& from_le(h.subrange(16, 20)) == 16
            &&& from_le(h.subrange(20, 22)) == 1 && from_le(h.subrange(22, 24)) == 1
            &&& from_le(h.subrange(24, 28)) == rate
            &&& from_le(h.subrange(28, 32)) == rate * 2
            &&& from_le(h.subrange(32, 34)) == 2 && from_le(h.subrange(34, 36)) == 16
        }),
{
    let h = wav_head(n, rate);
    lemma_le32(36 + n);
    lemma_le32(16);
    lemma_le32(rate);
    lemma_le32(rate * 2);
    lemma_le16(1);
    lemma_le16(2);
    lemma_le16(16);
    assert(h.subrange(4, 8) =~= le32(36 + n));
    assert(h.subrange(16, 20) =~= le32(16));
    assert(h.subrange(20, 22) =~= le16(1));
    assert(h.subrange(22, 24) =~= le16(1));
    assert(h.subrange(24, 28) =~= le32(rate));
    assert(h.subrange(28, 32) =~= le32(rate * 2));
    assert(h.subrange(32, 34) =~= le16(2));
    assert(h.subrange(34, 36) =~= le16(16));
}

} // verus!
