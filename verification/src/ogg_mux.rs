//! Ogg page framing for Opus streams: whole packets laced into pages, each
//! page sealed with the Ogg CRC-32.

use vstd::prelude::*;
use crate::bytes::{append, concat, fill, le16, le32, le64, lemma_concat_push};
use crate::bytes::{push_le16, push_le32, push_le64};
use crate::text::to_chars;

verus! {

/// Generator polynomial of the Ogg checksum.
pub const CRC_POLY: u32 = 0x04c1_1db7;

/// Most segments that one page can list.
pub const MAX_SEGMENTS: usize = 255;

/// The four bytes that open every page.
pub open spec fn capture_pattern() -> Seq<u8> {
    seq![0x4f, 0x67, 0x67, 0x53]
}

// ---------------------------------------------------------------------------
// Checksum
// ---------------------------------------------------------------------------

/// One step of the polynomial division, most significant bit first.
pub open spec fn crc_bit(r: u32) -> u32 {
    if r & 0x8000_0000u32 != 0 {
        (r << 1u32) ^ CRC_POLY
    } else {
        r << 1u32
    }
}

/// Eight steps of the polynomial division.
pub open spec fn crc_byte(r: u32) -> u32 {
    crc_bit(crc_bit(crc_bit(crc_bit(crc_bit(crc_bit(crc_bit(crc_bit(r))))))))
}

/// The checksum after one more byte: the byte enters at the top and is
/// divided out bit by bit.
pub open spec fn crc_update(crc: u32, b: u8) -> u32 {
    crc_byte(crc ^ ((b as u32) << 24u32))
}

/// The checksum of `data` from the start value `init` (no reflection, no
/// final complement).
pub open spec fn crc_of(init: u32, data: Seq<u8>) -> u32
    decreases data.len(),
{
    if data.len() == 0 {
        init
    } else {
        crc_update(crc_of(init, data.drop_last()), data.last())
    }
}

proof fn lemma_crc_push(init: u32, data: Seq<u8>, b: u8)
    ensures
        crc_of(init, data.push(b)) == crc_update(crc_of(init, data), b),
{
    assert(data.push(b).drop_last() =~= data);
}

/// The table that folds eight division steps into one lookup.
pub fn crc_table() -> (table: [u32; 256])
    ensures
        forall|i: int| 0 <= i < 256 ==> #[trigger] table@[i] == crc_byte((i as u32) << 24u32),
{
    let mut table: [u32; 256] = [0; 256];
    let mut i: usize = 0;
    while i < 256
        invariant
            i <= 256,
            forall|j: int| 0 <= j < i ==> #[trigger] table@[j] == crc_byte((j as u32) << 24u32),
        decreases 256 - i,
    {
        let mut r: u32 = (i as u32) << 24;
        let ghost r0: u32 = r;
        let mut k: usize = 0;
        while k < 8
            invariant
                k <= 8,
                r == crc_bits(r0, k as nat),
            decreases 8 - k,
        {
            r = if r & 0x8000_0000 != 0 {
                (r << 1) ^ CRC_POLY
            } else {
                r << 1
            };
            k = k + 1;
        }
        proof {
            reveal_with_fuel(crc_bits, 9);
            assert(r == crc_byte(r0));
        }
        table[i] = r;
        i = i + 1;
    }
    table
}

spec fn crc_bits(r: u32, n: nat) -> u32
    decreases n,
{
    if n == 0 {
        r
    } else {
        crc_bit(crc_bits(r, (n - 1) as nat))
    }
}

/// The checksum of `header` followed by `body` from the start value `init`.
pub fn crc32_init(init: u32, header: &[u8], body: &[u8]) -> (crc: u32)
    ensures
        crc == crc_of(init, header@ + body@),
{
    let table = crc_table();
    let crc = crc_fold(&table, init, header, Ghost(init), Ghost(Seq::empty()));
    proof {
        assert(Seq::<u8>::empty() + header@ =~= header@);
    }
    crc_fold(&table, crc, body, Ghost(init), Ghost(header@))
}

fn crc_fold(
    table: &[u32; 256],
    crc: u32,
    data: &[u8],
    Ghost(init): Ghost<u32>,
    Ghost(done): Ghost<Seq<u8>>,
) -> (out: u32)
    requires
        forall|i: int| 0 <= i < 256 ==> #[trigger] table@[i] == crc_byte((i as u32) << 24u32),
        crc == crc_of(init, done),
    ensures
        out == crc_of(init, done + data@),
{
    let mut crc = crc;
    let mut i: usize = 0;
    proof {
        assert(done + data@.take(0) =~= done);
    }
    while i < data.len()
        invariant
            i <= data.len(),
            forall|i: int| 0 <= i < 256 ==> #[trigger] table@[i] == crc_byte((i as u32) << 24u32),
            crc == crc_of(init, done + data@.take(i as int)),
        decreases data.len() - i,
    {
        let b: u8 = data[i];
        let idx: u32 = ((crc >> 24) ^ (b as u32)) & 0xff;
        proof {
            assert(((crc >> 24u32) ^ (b as u32)) & 0xff < 256) by (bit_vector);
            assert(crc_byte(crc ^ ((b as u32) << 24u32)) == crc_byte(
                (((crc >> 24u32) ^ (b as u32)) & 0xff) << 24u32,
            ) ^ (crc << 8u32)) by (bit_vector);
            assert(table@[idx as int] == crc_byte(((idx as int) as u32) << 24u32));
            lemma_crc_push(init, done + data@.take(i as int), b);
            assert((done + data@.take(i as int)).push(b) =~= done + data@.take(i as int + 1));
        }
        crc = table[idx as usize] ^ (crc << 8);
        i = i + 1;
    }
    proof {
        assert(data@.take(data@.len() as int) =~= data@);
    }
    crc
}

/// The Ogg checksum of `header` followed by `body`.
pub fn crc32(header: &[u8], body: &[u8]) -> (crc: u32)
    ensures
        crc == crc_of(0, header@ + body@),
{
    crc32_init(0, header, body)
}

// ---------------------------------------------------------------------------
// Lacing
// ---------------------------------------------------------------------------

/// The lacing values of a packet of `len` bytes: a 255 for every full 255
/// bytes, then the remainder (which may be zero).
pub open spec fn lacing(len: nat) -> Seq<u8> {
    fill(255, len / 255).push((len % 255) as u8)
}

/// The sum of lacing values.
pub open spec fn laced_len(segs: Seq<u8>) -> nat
    decreases segs.len(),
{
    if segs.len() == 0 {
        0
    } else {
        laced_len(segs.drop_last()) + segs.last() as nat
    }
}

/// The segment table entries of a packet of `len` bytes.
pub fn segment_table(len: usize) -> (segs: Vec<u8>)
    ensures
        segs@ == lacing(len as nat),
{
    let mut segs: Vec<u8> = Vec::new();
    let mut n: usize = len;
    while n >= 255
        invariant
            n <= len,
            (len - n) % 255 == 0,
            segs@ == fill(255, ((len - n) / 255) as nat),
        decreases n,
    {
        segs.push(255);
        n = n - 255;
        assert(segs@ =~= fill(255, ((len - n) / 255) as nat));
    }
    segs.push(n as u8);
    segs
}

// ---------------------------------------------------------------------------
// Pages
// ---------------------------------------------------------------------------

/// A page header with the given checksum field.
pub open spec fn page_header(
    serial: u32,
    seq: u32,
    granule: i64,
    bos: bool,
    eos: bool,
    segs: Seq<u8>,
    crc: u32,
) -> Seq<u8> {
    capture_pattern() + seq![
        0u8,
        ((if bos { 2int } else { 0 }) + (if eos { 4int } else { 0 })) as u8,
    ] + le64(granule as u64 as int) + le32(serial as int) + le32(seq as int) + le32(crc as int)
        + seq![(segs.len() % 256) as u8] + segs
}

/// A sealed page: its checksum is that of the page with a zero checksum
/// field.
pub open spec fn page(
    serial: u32,
    seq: u32,
    granule: i64,
    bos: bool,
    eos: bool,
    segs: Seq<u8>,
    body: Seq<u8>,
) -> Seq<u8> {
    let blank = page_header(serial, seq, granule, bos, eos, segs, 0);
    page_header(serial, seq, granule, bos, eos, segs, crc_of(0, blank + body)) + body
}

/// What a muxer holds: the page under construction, and the sealed pages that
/// nobody has taken yet.
pub struct OggState {
    pub serial: u32,
    pub seq: u32,
    pub granule: i64,
    pub bos: bool,
    pub segs: Seq<u8>,
    pub body: Seq<u8>,
    pub pending: Seq<u8>,
}

impl OggState {
    /// The state after sealing the page under construction.
    pub open spec fn sealed(self, eos: bool) -> OggState {
        OggState {
            serial: self.serial,
            seq: (self.seq + 1) as u32,
            granule: 0,
            bos: false,
            segs: Seq::empty(),
            body: Seq::empty(),
            pending: self.pending + page(
                self.serial,
                self.seq,
                self.granule,
                self.bos,
                eos,
                self.segs,
                self.body,
            ),
        }
    }

    /// Nothing has been written to the page under construction.
    pub open spec fn page_is_empty(self) -> bool {
        self.segs.len() == 0 && self.body.len() == 0
    }

    /// The state at the start of a stream.
    pub open spec fn fresh(serial: u32) -> OggState {
        OggState {
            serial,
            seq: 0,
            granule: 0,
            bos: true,
            segs: Seq::empty(),
            body: Seq::empty(),
            pending: Seq::empty(),
        }
    }

    /// The state after sealing the page under construction, if it holds
    /// anything.
    pub open spec fn closed_page(self, eos: bool) -> OggState {
        if self.page_is_empty() {
            self
        } else {
            self.sealed(eos)
        }
    }

    /// The state after the packet joined the page under construction.
    pub open spec fn with_packet(self, data: Seq<u8>, granule: i64) -> OggState {
        OggState {
            segs: self.segs + lacing(data.len()),
            body: self.body + data,
            granule,
            ..self
        }
    }

    /// A packet of `len` bytes would overflow the segment table of the page
    /// under construction.
    pub open spec fn overflows(self, len: nat) -> bool {
        self.segs.len() + lacing(len).len() > MAX_SEGMENTS
    }

    /// The state after a packet was written: the page under construction is
    /// sealed first when its segment table has no room.
    pub open spec fn written(self, data: Seq<u8>, granule: i64) -> OggState {
        if self.overflows(data.len()) {
            self.sealed(false).with_packet(data, granule)
        } else {
            self.with_packet(data, granule)
        }
    }
}

/// Builds Ogg pages from whole packets. Packets are never split across pages.
pub struct OggMuxer {
    serial: u32,
    seq: u32,
    page_granule: i64,
    bos: bool,
    page_body: Vec<u8>,
    page_segs: Vec<u8>,
    pending: Vec<u8>,
}

impl View for OggMuxer {
    type V = OggState;

    closed spec fn view(&self) -> OggState {
        OggState {
            serial: self.serial,
            seq: self.seq,
            granule: self.page_granule,
            bos: self.bos,
            segs: self.page_segs@,
            body: self.page_body@,
            pending: self.pending@,
        }
    }
}

impl OggMuxer {
    /// The lacing values account for every byte of the page under
    /// construction, and the first-page mark is set exactly until a page was
    /// sealed.
    pub open spec fn wf(&self) -> bool {
        &&& laced_len(self@.segs) == self@.body.len()
        &&& self@.bos <==> self@.seq == 0
    }

    /// A muxer for the logical stream `serial`.
    pub fn new(serial: u32) -> (mux: OggMuxer)
        ensures
            mux.wf(),
            mux@ == OggState::fresh(serial),
    {
        OggMuxer {
            serial,
            seq: 0,
            page_granule: 0,
            bos: true,
            page_body: Vec::new(),
            page_segs: Vec::new(),
            pending: Vec::new(),
        }
    }

    /// Writes one complete packet; `granule` is the granule position of the
    /// last sample that it encodes.
    pub fn write_packet(&mut self, data: &[u8], granule: i64)
        requires
            old(self).wf(),
            old(self)@.seq < u32::MAX,
            data@.len() + old(self)@.segs.len() + 1 <= usize::MAX,
        ensures
            final(self).wf(),
            final(self)@ == old(self)@.written(data@, granule),
    {
        let segs = segment_table(data.len());
        proof {
            lemma_lacing(data@.len());
        }
        if self.page_segs.len() + segs.len() > MAX_SEGMENTS {
            self.flush_page(false);
        }
        let ghost before = self@;
        append(&mut self.page_body, data);
        append(&mut self.page_segs, segs.as_slice());
        self.page_granule = granule;
        proof {
            lemma_laced_len_add(before.segs, lacing(data@.len()));
            assert(self@.segs == before.segs + lacing(data@.len()));
        }
    }

    /// Seals the page under construction, if it holds anything.
    pub fn flush(&mut self)
        requires
            old(self).wf(),
            old(self)@.seq < u32::MAX,
        ensures
            final(self).wf(),
            final(self)@ == old(self)@.closed_page(false),
    {
        if !self.page_body.is_empty() || !self.page_segs.is_empty() {
            self.flush_page(false);
        }
    }

    /// Seals the final page and marks it as the end of the stream.
    pub fn finish(&mut self)
        requires
            old(self).wf(),
            old(self)@.seq < u32::MAX,
        ensures
            final(self).wf(),
            final(self)@ == old(self)@.closed_page(true),
    {
        if !self.page_body.is_empty() || !self.page_segs.is_empty() {
            self.flush_page(true);
        }
    }

    /// Takes the bytes of all sealed pages.
    pub fn take_output(&mut self) -> (out: Vec<u8>)
        requires
            old(self).wf(),
        ensures
            final(self).wf(),
            out@ == old(self)@.pending,
            final(self)@ == (OggState { pending: Seq::empty(), ..old(self)@ }),
    {
        let mut out: Vec<u8> = Vec::new();
        std::mem::swap(&mut out, &mut self.pending);
        out
    }

    fn flush_page(&mut self, eos: bool)
        requires
            old(self).wf(),
            old(self)@.seq < u32::MAX,
        ensures
            final(self).wf(),
            final(self)@ == old(self)@.sealed(eos),
    {
        let blank = self.header_bytes(eos, 0);
        let crc = crc32(blank.as_slice(), self.page_body.as_slice());
        let header = self.header_bytes(eos, crc);
        append(&mut self.pending, header.as_slice());
        append(&mut self.pending, self.page_body.as_slice());
        self.seq = self.seq + 1;
        self.page_body.clear();
        self.page_segs.clear();
        self.page_granule = 0;
        self.bos = false;
        proof {
            assert(self@.pending =~= old(self)@.sealed(eos).pending);
        }
    }

    fn header_bytes(&self, eos: bool, crc: u32) -> (header: Vec<u8>)
        ensures
            header@ == page_header(
                self@.serial,
                self@.seq,
                self@.granule,
                self@.bos,
                eos,
                self@.segs,
                crc,
            ),
    {
        let mut header: Vec<u8> = Vec::new();
        append(&mut header, &[0x4f, 0x67, 0x67, 0x53]);
        header.push(0);
        let flags: u8 = (if self.bos { 2u8 } else { 0u8 }) + (if eos { 4u8 } else { 0u8 });
        header.push(flags);
        push_le64(&mut header, self.page_granule as u64);
        push_le32(&mut header, self.serial);
        push_le32(&mut header, self.seq);
        push_le32(&mut header, crc);
        header.push((self.page_segs.len() % 256) as u8);
        append(&mut header, self.page_segs.as_slice());
        assert(header@ =~= page_header(
            self@.serial,
            self@.seq,
            self@.granule,
            self@.bos,
            eos,
            self@.segs,
            crc,
        ));
        header
    }
}

// ---------------------------------------------------------------------------
// Opus header packets
// ---------------------------------------------------------------------------

/// The vendor string of the comment header.
pub open spec fn vendor() -> Seq<u8> {
    seq![0x43, 0x72, 0x61, 0x62, 0x73, 0x6f, 0x75, 0x70]
}

/// The identification packet of an Opus stream.
pub open spec fn opus_head(channels: u16) -> Seq<u8> {
    seq![0x4fu8, 0x70, 0x75, 0x73, 0x48, 0x65, 0x61, 0x64, 1, (channels % 256) as u8] + le16(0)
        + le32(48_000) + le16(0) + seq![0u8]
}

/// Builds the `OpusHead` identification packet (pre-skip 0, no channel
/// mapping).
pub fn opus_head_packet(channels: u16) -> (p: Vec<u8>)
    ensures
        p@ == opus_head(channels),
{
    let mut p: Vec<u8> = Vec::new();
    append(&mut p, &[0x4f, 0x70, 0x75, 0x73, 0x48, 0x65, 0x61, 0x64]);
    p.push(1);
    p.push((channels % 256) as u8);
    push_le16(&mut p, 0);
    push_le32(&mut p, 48_000);
    push_le16(&mut p, 0);
    p.push(0);
    assert(p@ =~= opus_head(channels));
    p
}

/// A control character: one of the C0 controls, delete, or one of the C1
/// controls.
pub open spec fn is_control(c: char) -> bool {
    c < '\u{20}' || ('\u{7f}' <= c && c <= '\u{9f}')
}

/// The text without its control characters.
pub open spec fn sanitized(s: Seq<char>) -> Seq<char> {
    s.filter(|c: char| !is_control(c))
}

/// The title comment, as it stands in the packet.
pub open spec fn title_comment(title: Seq<char>) -> Seq<u8> {
    vstd::utf8::encode_utf8("title="@ + sanitized(title))
}

/// The comment packet of an Opus stream with one `title` comment.
pub open spec fn opus_tags(title: Seq<char>) -> Seq<u8> {
    seq![0x4fu8, 0x70, 0x75, 0x73, 0x54, 0x61, 0x67, 0x73] + le32(8) + vendor() + le32(1) + le32(
        title_comment(title).len() as int % 0x1_0000_0000,
    ) + title_comment(title)
}

/// Builds the `OpusTags` comment packet.
pub fn opus_tags_packet(title: &str) -> (p: Vec<u8>)
    ensures
        p@ == opus_tags(title@),
{
    let mut p: Vec<u8> = Vec::new();
    append(&mut p, &[0x4f, 0x70, 0x75, 0x73, 0x54, 0x61, 0x67, 0x73]);
    push_le32(&mut p, 8);
    append(&mut p, &[0x43, 0x72, 0x61, 0x62, 0x73, 0x6f, 0x75, 0x70]);
    push_le32(&mut p, 1);
    let mut comment = String::from_str("title=");
    comment.append(sanitize_comment(title).as_str());
    let data = comment.as_str().as_bytes();
    let len: u64 = data.len() as u64;
    push_le32(&mut p, (len % 0x1_0000_0000) as u32);
    append(&mut p, data);
    proof {
        assert(data@ == title_comment(title@));
        assert(p@ =~= opus_tags(title@));
    }
    p
}

/// Drops the control characters of `s`.
pub fn sanitize_comment(s: &str) -> (out: String)
    ensures
        out@ == sanitized(s@),
{
    let chars = to_chars(s);
    let mut out = String::new();
    let mut i: usize = 0;
    let ghost keep = |c: char| !is_control(c);
    proof {
        assert(chars@.take(0).filter(keep) =~= Seq::<char>::empty());
    }
    while i < chars.len()
        invariant
            i <= chars.len(),
            keep == (|c: char| !is_control(c)),
            out@ == chars@.take(i as int).filter(keep),
        decreases chars.len() - i,
    {
        let c = chars[i];
        proof {
            assert(chars@.take(i as int + 1).drop_last() =~= chars@.take(i as int));
            reveal(Seq::filter);
        }
        if !(c < '\u{20}' || ('\u{7f}' <= c && c <= '\u{9f}')) {
            out.push(c);
        }
        i = i + 1;
    }
    assert(chars@.take(chars@.len() as int) =~= chars@);
    out
}

// ---------------------------------------------------------------------------
// Laws
// ---------------------------------------------------------------------------

proof fn lemma_laced_len_fill(n: nat)
    ensures
        laced_len(fill(255, n)) == 255 * n,
    decreases n,
{
    if n > 0 {
        lemma_laced_len_fill((n - 1) as nat);
        assert(fill(255, n).drop_last() =~= fill(255, (n - 1) as nat));
    }
}

/// The lacing values of a packet add up to its length, all but the last are
/// 255 and the last is less, and there are `len / 255 + 1` of them.
pub proof fn lemma_lacing(len: nat)
    ensures
        laced_len(lacing(len)) == len,
        lacing(len).len() == len / 255 + 1,
        lacing(len).last() < 255,
        forall|i: int| 0 <= i < lacing(len).len() - 1 ==> #[trigger] lacing(len)[i] == 255,
{
    lemma_laced_len_fill(len / 255);
    assert(lacing(len).drop_last() =~= fill(255, len / 255));
}

proof fn lemma_laced_len_add(a: Seq<u8>, b: Seq<u8>)
    ensures
        laced_len(a + b) == laced_len(a) + laced_len(b),
    decreases b.len(),
{
    if b.len() == 0 {
        assert(a + b =~= a);
    } else {
        lemma_laced_len_add(a, b.drop_last());
        assert((a + b).drop_last() =~= a + b.drop_last());
    }
}

/// The segment table of a page that holds `packets`.
pub open spec fn lacing_all(packets: Seq<Seq<u8>>) -> Seq<u8>
    decreases packets.len(),
{
    if packets.len() == 0 {
        Seq::empty()
    } else {
        lacing_all(packets.drop_last()) + lacing(packets.last().len())
    }
}

/// How a demuxer reads packets from a segment table and a page body: a
/// packet ends at the first lacing value below 255. `acc` bytes of the
/// current packet were listed by earlier entries.
pub open spec fn unlace(segs: Seq<u8>, body: Seq<u8>, acc: nat) -> Seq<Seq<u8>>
    decreases segs.len(),
{
    if segs.len() == 0 {
        Seq::empty()
    } else if segs[0] < 255 {
        let end = acc + segs[0] as nat;
        seq![body.take(end as int)] + unlace(segs.skip(1), body.skip(end as int), 0)
    } else {
        unlace(segs.skip(1), body, acc + 255)
    }
}

proof fn lemma_unlace_one(n: nat, r: u8, rest: Seq<u8>, body: Seq<u8>, acc: nat)
    requires
        r < 255,
    ensures
        unlace(fill(255, n).push(r) + rest, body, acc) == seq![
            body.take((acc + 255 * n + r) as int),
        ] + unlace(rest, body.skip((acc + 255 * n + r) as int), 0),
    decreases n,
{
    let segs = fill(255, n).push(r) + rest;
    if n == 0 {
        assert(segs.skip(1) =~= rest);
    } else {
        assert(segs.skip(1) =~= fill(255, (n - 1) as nat).push(r) + rest);
        lemma_unlace_one((n - 1) as nat, r, rest, body, acc + 255);
    }
}

proof fn lemma_unlace_from(packets: Seq<Seq<u8>>, segs: Seq<u8>, body: Seq<u8>)
    ensures
        unlace(lacing_all(packets) + segs, concat(packets) + body, 0) == packets + unlace(
            segs,
            body,
            0,
        ),
    decreases packets.len(),
{
    if packets.len() == 0 {
        assert(lacing_all(packets) + segs =~= segs);
        assert(concat(packets) + body =~= body);
        assert(packets + unlace(segs, body, 0) =~= unlace(segs, body, 0));
    } else {
        let init = packets.drop_last();
        let p = packets.last();
        let segs1 = lacing(p.len()) + segs;
        let body1 = p + body;
        lemma_unlace_from(init, segs1, body1);
        assert(lacing_all(packets) + segs =~= lacing_all(init) + segs1);
        assert(concat(packets) + body =~= concat(init) + body1);
        lemma_unlace_one(p.len() / 255, (p.len() % 255) as u8, segs, body1, 0);
        assert(0 + 255 * (p.len() / 255) + (p.len() % 255) as u8 == p.len());
        assert(body1.take(p.len() as int) =~= p);
        assert(body1.skip(p.len() as int) =~= body);
        assert(init + (seq![p] + unlace(segs, body, 0)) =~= packets + unlace(segs, body, 0));
    }
}

/// Lacing loses nothing: a demuxer reads from the segment table and the body
/// of a page exactly the packets that went into it.
pub proof fn law_packets_read_back(packets: Seq<Seq<u8>>)
    ensures
        unlace(lacing_all(packets), concat(packets), 0) == packets,
{
    lemma_unlace_from(packets, Seq::empty(), Seq::empty());
    assert(lacing_all(packets) + Seq::<u8>::empty() =~= lacing_all(packets));
    assert(concat(packets) + Seq::<u8>::empty() =~= concat(packets));
    assert(packets + unlace(Seq::empty(), Seq::empty(), 0) =~= packets);
}

/// Writing a packet adds exactly that packet to the page under construction,
/// or starts the next page with it.
pub proof fn law_page_holds_its_packets(
    state: OggState,
    packets: Seq<Seq<u8>>,
    data: Seq<u8>,
    granule: i64,
)
    requires
        state.segs == lacing_all(packets),
        state.body == concat(packets),
    ensures
        ({
            let next = state.written(data, granule);
            let held = if state.overflows(data.len()) {
                seq![data]
            } else {
                packets.push(data)
            };
            &&& next.segs == lacing_all(held)
            &&& next.body == concat(held)
            &&& next.granule == granule
        }),
{
    if state.overflows(data.len()) {
        let held = seq![data];
        assert(held.drop_last() =~= Seq::<Seq<u8>>::empty());
        assert(lacing_all(held.drop_last()) =~= Seq::<u8>::empty());
        assert(Seq::<u8>::empty() + lacing(data.len()) =~= lacing(data.len()));
        assert(concat(held.drop_last()) =~= Seq::<u8>::empty());
        assert(Seq::<u8>::empty() + data =~= data);
    } else {
        lemma_concat_push(packets, data);
        assert(packets.push(data).drop_last() =~= packets);
    }
}

/// The fields of a page stand at their fixed places: the segment count is
/// byte 26, the segment table follows it, and the body follows the table.
pub proof fn law_page_reads_back(
    serial: u32,
    seq: u32,
    granule: i64,
    bos: bool,
    eos: bool,
    segs: Seq<u8>,
    body: Seq<u8>,
)
    requires
        segs.len() <= MAX_SEGMENTS,
    ensures
        ({
            let p = page(serial, seq, granule, bos, eos, segs, body);
            &&& p.len() == 27 + segs.len() + body.len()
            &&& p.take(4) == capture_pattern()
            &&& p[5] == (if bos { 2int } else { 0 }) + (if eos { 4int } else { 0 })
            &&& p[4] == 0
            &&& p.subrange(6, 14) == le64(granule as u64 as int)
            &&& p.subrange(14, 18) == le32(serial as int)
            &&& p.subrange(18, 22) == le32(seq as int)
            &&& p[26] == segs.len()
            &&& p.subrange(27, 27 + segs.len() as int) == segs
            &&& p.skip(27 + segs.len() as int) == body
        }),
{
    let p = page(serial, seq, granule, bos, eos, segs, body);
    assert(p.take(4) =~= capture_pattern());
    assert(p.subrange(6, 14) =~= le64(granule as u64 as int));
    assert(p.subrange(14, 18) =~= le32(serial as int));
    assert(p.subrange(18, 22) =~= le32(seq as int));
    assert(p.subrange(27, 27 + segs.len() as int) =~= segs);
    assert(p.skip(27 + segs.len() as int) =~= body);
}

/// A sealed page validates: bytes 22 to 25 hold the checksum of the page with
/// those four bytes zeroed.
pub proof fn law_page_checksum(
    serial: u32,
    seq: u32,
    granule: i64,
    bos: bool,
    eos: bool,
    segs: Seq<u8>,
    body: Seq<u8>,
)
    ensures
        ({
            let p = page(serial, seq, granule, bos, eos, segs, body);
            let blank = p.take(22) + seq![0u8, 0, 0, 0] + p.skip(26);
            p.subrange(22, 26) == le32(crc_of(0, blank) as int)
        }),
{
    let p = page(serial, seq, granule, bos, eos, segs, body);
    let blank = p.take(22) + seq![0u8, 0, 0, 0] + p.skip(26);
    let zeroed = page_header(serial, seq, granule, bos, eos, segs, 0) + body;
    assert(blank =~= zeroed);
    assert(p.subrange(22, 26) =~= le32(crc_of(0, zeroed) as int));
}

// ---------------------------------------------------------------------------
// Laws of a whole stream
// ---------------------------------------------------------------------------

/// One call of a muxer.
pub enum OggCall {
    /// A packet with its granule position.
    Packet(Seq<u8>, i64),
    Flush,
    Finish,
    Take,
}

/// A muxer with the bytes that were taken from it.
pub struct OggRun {
    pub state: OggState,
    pub taken: Seq<u8>,
}

impl OggRun {
    /// All bytes of sealed pages, taken or not.
    pub open spec fn output(self) -> Seq<u8> {
        self.taken + self.state.pending
    }

    /// What follows one call.
    pub open spec fn after(self, call: OggCall) -> OggRun {
        match call {
            OggCall::Packet(data, granule) => OggRun {
                state: self.state.written(data, granule),
                ..self
            },
            OggCall::Flush => OggRun { state: self.state.closed_page(false), ..self },
            OggCall::Finish => OggRun { state: self.state.closed_page(true), ..self },
            OggCall::Take => OggRun {
                state: OggState { pending: Seq::empty(), ..self.state },
                taken: self.output(),
            },
        }
    }
}

/// A new muxer after a series of calls.
pub open spec fn ogg_run(serial: u32, calls: Seq<OggCall>) -> OggRun
    decreases calls.len(),
{
    if calls.len() == 0 {
        OggRun { state: OggState::fresh(serial), taken: Seq::empty() }
    } else {
        ogg_run(serial, calls.drop_last()).after(calls.last())
    }
}

/// The packets of a series of calls, with their granule positions.
pub open spec fn packets_given(calls: Seq<OggCall>) -> Seq<(Seq<u8>, i64)>
    decreases calls.len(),
{
    if calls.len() == 0 {
        Seq::empty()
    } else {
        let before = packets_given(calls.drop_last());
        match calls.last() {
            OggCall::Packet(data, granule) => before.push((data, granule)),
            _ => before,
        }
    }
}

/// Every packet fits into one page.
pub open spec fn fit_pages(calls: Seq<OggCall>) -> bool {
    forall|i: int|
        0 <= i < calls.len() ==> (#[trigger] calls[i] matches OggCall::Packet(data, _)
            ==> data.len() < 65025)
}

/// The length of the page that a stream starts with, from its segment table.
pub open spec fn page_size(stream: Seq<u8>) -> int {
    27 + stream[26] + laced_len(stream.subrange(27, 27 + stream[26]))
}

/// How a demuxer cuts a stream into pages.
pub open spec fn cut_pages(stream: Seq<u8>) -> Seq<Seq<u8>>
    decreases stream.len(),
{
    if stream.len() == 0 {
        Seq::empty()
    } else if page_size(stream) > stream.len() {
        seq![stream]
    } else {
        seq![stream.take(page_size(stream))] + cut_pages(stream.skip(page_size(stream)))
    }
}

/// The packets that a demuxer reads from a page.
pub open spec fn page_packets(page: Seq<u8>) -> Seq<Seq<u8>> {
    unlace(page.subrange(27, 27 + page[26]), page.skip(27 + page[26]), 0)
}

/// The packets that a demuxer reads from pages.
pub open spec fn pages_packets(pages: Seq<Seq<u8>>) -> Seq<Seq<u8>>
    decreases pages.len(),
{
    if pages.len() == 0 {
        Seq::empty()
    } else {
        pages_packets(pages.drop_last()) + page_packets(pages.last())
    }
}

/// The data of packets.
pub open spec fn datas(items: Seq<(Seq<u8>, i64)>) -> Seq<Seq<u8>> {
    Seq::new(items.len(), |i: int| items[i].0)
}

/// A sealed page: its packets, and whether it ends the stream.
pub struct HeldPage {
    pub items: Seq<(Seq<u8>, i64)>,
    pub eos: bool,
}

/// The bytes of the page with number `i`.
pub open spec fn held_bytes(serial: u32, i: int, h: HeldPage) -> Seq<u8> {
    page(
        serial,
        i as u32,
        h.items.last().1,
        i == 0,
        h.eos,
        lacing_all(datas(h.items)),
        concat(datas(h.items)),
    )
}

/// The bytes of all pages.
pub open spec fn all_bytes(serial: u32, pages: Seq<HeldPage>) -> Seq<Seq<u8>> {
    Seq::new(pages.len(), |i: int| held_bytes(serial, i, pages[i]))
}

/// The packets of all pages.
pub open spec fn all_items(pages: Seq<HeldPage>) -> Seq<(Seq<u8>, i64)>
    decreases pages.len(),
{
    if pages.len() == 0 {
        Seq::empty()
    } else {
        all_items(pages.drop_last()) + pages.last().items
    }
}

/// The packets on the sealed pages, and those on the page under construction.
pub struct Held {
    pub pages: Seq<HeldPage>,
    pub open: Seq<(Seq<u8>, i64)>,
}

impl Held {
    /// The page under construction is sealed.
    pub open spec fn sealed(self, eos: bool) -> Held {
        Held { pages: self.pages.push(HeldPage { items: self.open, eos }), open: Seq::empty() }
    }

    /// The page under construction is sealed, if it holds anything.
    pub open spec fn closed_page(self, eos: bool) -> Held {
        if self.open.len() == 0 {
            self
        } else {
            self.sealed(eos)
        }
    }

    /// What follows one call.
    pub open spec fn after(self, call: OggCall) -> Held {
        match call {
            OggCall::Packet(data, granule) => {
                let s = if lacing_all(datas(self.open)).len() + lacing(data.len()).len()
                    > MAX_SEGMENTS {
                    self.sealed(false)
                } else {
                    self
                };
                Held { open: s.open.push((data, granule)), ..s }
            },
            OggCall::Flush => self.closed_page(false),
            OggCall::Finish => self.closed_page(true),
            OggCall::Take => self,
        }
    }
}

/// Where the packets of a series of calls are.
pub open spec fn held(calls: Seq<OggCall>) -> Held
    decreases calls.len(),
{
    if calls.len() == 0 {
        Held { pages: Seq::empty(), open: Seq::empty() }
    } else {
        held(calls.drop_last()).after(calls.last())
    }
}

/// A page holds packets, and its segment table has room for them.
spec fn sound_page(h: HeldPage) -> bool {
    h.items.len() > 0 && lacing_all(datas(h.items)).len() <= MAX_SEGMENTS
}

/// A muxer agrees with where the packets are.
spec fn agree(serial: u32, r: OggRun, h: Held, given: Seq<(Seq<u8>, i64)>) -> bool {
    &&& r.state.serial == serial
    &&& r.state.seq == h.pages.len()
    &&& r.state.bos == (h.pages.len() == 0)
    &&& r.state.segs == lacing_all(datas(h.open))
    &&& r.state.body == concat(datas(h.open))
    &&& h.open.len() > 0 ==> r.state.granule == h.open.last().1
    &&& r.output() == concat(all_bytes(serial, h.pages))
    &&& forall|i: int| 0 <= i < h.pages.len() ==> sound_page(#[trigger] h.pages[i])
    &&& lacing_all(datas(h.open)).len() <= MAX_SEGMENTS
    &&& all_items(h.pages) + h.open == given
}

proof fn lemma_lacing_all_push(items: Seq<(Seq<u8>, i64)>, item: (Seq<u8>, i64))
    ensures
        datas(items.push(item)) == datas(items).push(item.0),
        lacing_all(datas(items.push(item))) == lacing_all(datas(items)) + lacing(item.0.len()),
        concat(datas(items.push(item))) == concat(datas(items)) + item.0,
{
    assert(datas(items.push(item)) =~= datas(items).push(item.0));
    assert(datas(items).push(item.0).drop_last() =~= datas(items));
    lemma_concat_push(datas(items), item.0);
}

proof fn lemma_seal(serial: u32, r: OggRun, h: Held, given: Seq<(Seq<u8>, i64)>, eos: bool)
    requires
        agree(serial, r, h, given),
        h.open.len() > 0,
        h.pages.len() < u32::MAX,
    ensures
        agree(serial, OggRun { state: r.state.sealed(eos), ..r }, h.sealed(eos), given),
{
    let t = h.sealed(eos);
    let new = HeldPage { items: h.open, eos };
    let s = r.state.sealed(eos);
    assert(held_bytes(serial, h.pages.len() as int, new) == page(
        serial,
        r.state.seq,
        r.state.granule,
        r.state.bos,
        eos,
        r.state.segs,
        r.state.body,
    ));
    assert(all_bytes(serial, t.pages) =~= all_bytes(serial, h.pages).push(
        held_bytes(serial, h.pages.len() as int, new),
    ));
    lemma_concat_push(
        all_bytes(serial, h.pages),
        held_bytes(serial, h.pages.len() as int, new),
    );
    assert(r.taken + s.pending =~= concat(all_bytes(serial, t.pages)));
    assert(datas(t.open) =~= Seq::<Seq<u8>>::empty());
    assert(t.pages.drop_last() =~= h.pages);
    assert(all_items(t.pages) + t.open =~= given);
    assert forall|i: int| 0 <= i < t.pages.len() implies sound_page(#[trigger] t.pages[i]) by {
        if i < h.pages.len() {
            assert(t.pages[i] == h.pages[i]);
        }
    }
}

proof fn lemma_open_is_page(serial: u32, r: OggRun, h: Held, given: Seq<(Seq<u8>, i64)>)
    requires
        agree(serial, r, h, given),
    ensures
        r.state.page_is_empty() <==> h.open.len() == 0,
{
    if h.open.len() > 0 {
        let init = h.open.drop_last();
        assert(init.push(h.open.last()) =~= h.open);
        lemma_lacing_all_push(init, h.open.last());
        lemma_lacing(h.open.last().0.len());
    } else {
        assert(datas(h.open) =~= Seq::<Seq<u8>>::empty());
    }
}

proof fn lemma_packet(
    serial: u32,
    r: OggRun,
    h: Held,
    given: Seq<(Seq<u8>, i64)>,
    data: Seq<u8>,
    granule: i64,
)
    requires
        agree(serial, r, h, given),
        lacing_all(datas(h.open)).len() + lacing(data.len()).len() <= MAX_SEGMENTS,
    ensures
        agree(
            serial,
            OggRun { state: r.state.with_packet(data, granule), ..r },
            Held { open: h.open.push((data, granule)), ..h },
            given.push((data, granule)),
        ),
{
    lemma_lacing_all_push(h.open, (data, granule));
    assert(all_items(h.pages) + h.open.push((data, granule)) =~= given.push((data, granule)));
}

proof fn lemma_agree(serial: u32, calls: Seq<OggCall>)
    requires
        fit_pages(calls),
        calls.len() <= u32::MAX,
    ensures
        agree(serial, ogg_run(serial, calls), held(calls), packets_given(calls)),
        held(calls).pages.len() <= calls.len(),
    decreases calls.len(),
{
    if calls.len() == 0 {
        let r = ogg_run(serial, calls);
        let h = held(calls);
        assert(datas(h.open) =~= Seq::<Seq<u8>>::empty());
        assert(all_bytes(serial, h.pages) =~= Seq::<Seq<u8>>::empty());
        assert(r.output() =~= concat(all_bytes(serial, h.pages)));
        assert(all_items(h.pages) + h.open =~= packets_given(calls));
    } else {
        let init = calls.drop_last();
        assert forall|i: int| 0 <= i < init.len() implies (#[trigger] init[i] matches OggCall::Packet(
            data,
            _,
        ) ==> data.len() < 65025) by {
            assert(calls[i] == init[i]);
        }
        lemma_agree(serial, init);
        let r = ogg_run(serial, init);
        let h = held(init);
        let given = packets_given(init);
        lemma_open_is_page(serial, r, h, given);
        match calls.last() {
            OggCall::Packet(data, granule) => {
                assert(calls[calls.len() - 1] == calls.last());
                lemma_lacing(data.len());
                assert(datas(Seq::<(Seq<u8>, i64)>::empty()) =~= Seq::<Seq<u8>>::empty());
                if r.state.overflows(data.len()) {
                    if h.open.len() == 0 {
                        assert(datas(h.open) =~= Seq::<Seq<u8>>::empty());
                    }
                    lemma_seal(serial, r, h, given, false);
                    lemma_packet(
                        serial,
                        OggRun { state: r.state.sealed(false), ..r },
                        h.sealed(false),
                        given,
                        data,
                        granule,
                    );
                } else {
                    lemma_packet(serial, r, h, given, data, granule);
                }
            },
            OggCall::Flush => {
                if h.open.len() > 0 {
                    lemma_seal(serial, r, h, given, false);
                }
            },
            OggCall::Finish => {
                if h.open.len() > 0 {
                    lemma_seal(serial, r, h, given, true);
                }
            },
            OggCall::Take => {
                assert(ogg_run(serial, calls).output() =~= r.output());
            },
        }
    }
}

/// The segment table of a page gives its length.
spec fn framed(page: Seq<u8>) -> bool {
    27 + page[26] <= page.len() && page.len() == page_size(page)
}

proof fn lemma_cut(pages: Seq<Seq<u8>>, tail: Seq<u8>)
    requires
        forall|i: int| 0 <= i < pages.len() ==> framed(#[trigger] pages[i]),
    ensures
        cut_pages(concat(pages) + tail) == pages + cut_pages(tail),
    decreases pages.len(),
{
    if pages.len() == 0 {
        assert(concat(pages) + tail =~= tail);
        assert(pages + cut_pages(tail) =~= cut_pages(tail));
    } else {
        let init = pages.drop_last();
        let p = pages.last();
        assert forall|i: int| 0 <= i < init.len() implies framed(#[trigger] init[i]) by {
            assert(pages[i] == init[i]);
        }
        assert(framed(pages[pages.len() - 1]));
        let rest = p + tail;
        lemma_cut(init, rest);
        assert(concat(pages) + tail =~= concat(init) + rest);
        assert(rest[26] == p[26]);
        assert(rest.subrange(27, 27 + rest[26]) =~= p.subrange(27, 27 + p[26]));
        assert(rest.take(p.len() as int) =~= p);
        assert(rest.skip(p.len() as int) =~= tail);
        assert(cut_pages(rest) == seq![p] + cut_pages(tail));
        assert(init + (seq![p] + cut_pages(tail)) =~= pages + cut_pages(tail));
    }
}

proof fn lemma_held_page(serial: u32, i: int, h: HeldPage)
    requires
        sound_page(h),
    ensures
        framed(held_bytes(serial, i, h)),
        page_packets(held_bytes(serial, i, h)) == datas(h.items),
{
    let segs = lacing_all(datas(h.items));
    let body = concat(datas(h.items));
    law_page_reads_back(serial, i as u32, h.items.last().1, i == 0, h.eos, segs, body);
    law_packets_read_back(datas(h.items));
    lemma_laced_all(datas(h.items));
}

proof fn lemma_laced_all(packets: Seq<Seq<u8>>)
    ensures
        laced_len(lacing_all(packets)) == concat(packets).len(),
    decreases packets.len(),
{
    if packets.len() > 0 {
        lemma_laced_all(packets.drop_last());
        lemma_laced_len_add(lacing_all(packets.drop_last()), lacing(packets.last().len()));
        lemma_lacing(packets.last().len());
    }
}

proof fn lemma_pages(serial: u32, calls: Seq<OggCall>)
    requires
        fit_pages(calls),
        calls.len() <= u32::MAX,
    ensures
        cut_pages(ogg_run(serial, calls).output()) == all_bytes(serial, held(calls).pages),
{
    lemma_agree(serial, calls);
    let pages = held(calls).pages;
    let bytes = all_bytes(serial, pages);
    assert forall|i: int| 0 <= i < bytes.len() implies framed(#[trigger] bytes[i]) by {
        lemma_held_page(serial, i, pages[i]);
    }
    lemma_cut(bytes, Seq::empty());
    assert(concat(bytes) + Seq::<u8>::empty() =~= concat(bytes));
    assert(bytes + cut_pages(Seq::empty()) =~= bytes);
}

proof fn lemma_items(serial: u32, pages: Seq<HeldPage>, n: int)
    requires
        0 <= n <= pages.len(),
        forall|i: int| 0 <= i < pages.len() ==> sound_page(#[trigger] pages[i]),
    ensures
        pages_packets(all_bytes(serial, pages).take(n)) == datas(all_items(pages.take(n))),
        n > 0 ==> all_items(pages.take(n)).len() > 0 && all_items(pages.take(n)).last()
            == pages[n - 1].items.last(),
    decreases n,
{
    let bytes = all_bytes(serial, pages);
    if n == 0 {
        assert(datas(all_items(pages.take(0))) =~= Seq::<Seq<u8>>::empty());
    } else {
        lemma_items(serial, pages, n - 1);
        assert(bytes.take(n).drop_last() =~= bytes.take(n - 1));
        assert(pages.take(n).drop_last() =~= pages.take(n - 1));
        lemma_held_page(serial, n - 1, pages[n - 1]);
        assert(bytes.take(n).last() == held_bytes(serial, n - 1, pages[n - 1]));
        assert(datas(all_items(pages.take(n - 1)) + pages[n - 1].items) =~= datas(
            all_items(pages.take(n - 1)),
        ) + datas(pages[n - 1].items));
        assert(sound_page(pages[n - 1]));
    }
}

proof fn lemma_items_prefix(pages: Seq<HeldPage>, n: int)
    requires
        0 <= n <= pages.len(),
    ensures
        all_items(pages.take(n)).len() <= all_items(pages).len(),
        forall|k: int|
            0 <= k < all_items(pages.take(n)).len() ==> #[trigger] all_items(pages.take(n))[k]
                == all_items(pages)[k],
    decreases pages.len(),
{
    if n == pages.len() {
        assert(pages.take(n) =~= pages);
    } else {
        lemma_items_prefix(pages.drop_last(), n);
        assert(pages.drop_last().take(n) =~= pages.take(n));
    }
}

proof fn lemma_page_granule(serial: u32, pages: Seq<HeldPage>, i: int)
    requires
        0 <= i < pages.len(),
        forall|k: int| 0 <= k < pages.len() ==> sound_page(#[trigger] pages[k]),
    ensures
        ({
            let bytes = all_bytes(serial, pages);
            let n = pages_packets(bytes.take(i + 1)).len();
            &&& page_packets(bytes[i]).len() > 0
            &&& 0 < n <= all_items(pages).len()
            &&& bytes[i].subrange(6, 14) == le64(all_items(pages)[n - 1].1 as u64 as int)
        }),
{
    let h = pages[i];
    let front = all_items(pages.take(i + 1));
    assert(sound_page(h));
    lemma_items(serial, pages, i + 1);
    lemma_items_prefix(pages, i + 1);
    lemma_held_page(serial, i, h);
    assert(front[front.len() - 1] == all_items(pages)[front.len() - 1]);
    law_page_reads_back(
        serial,
        i as u32,
        h.items.last().1,
        i == 0,
        h.eos,
        lacing_all(datas(h.items)),
        concat(datas(h.items)),
    );
}

/// What a demuxer reads from pages: all packets in order, each whole inside
/// one page, and on each page the granule position of its last packet.
pub open spec fn reads_back(pages: Seq<Seq<u8>>, given: Seq<(Seq<u8>, i64)>) -> bool {
    &&& pages_packets(pages) == datas(given)
    &&& forall|i: int|
        0 <= i < pages.len() ==> {
            let n = pages_packets(#[trigger] pages.take(i + 1)).len();
            &&& page_packets(pages[i]).len() > 0
            &&& 0 < n <= given.len()
            &&& pages[i].subrange(6, 14) == le64(given[n - 1].1 as u64 as int)
        }
}

proof fn lemma_reads_back(serial: u32, pages: Seq<HeldPage>)
    requires
        forall|k: int| 0 <= k < pages.len() ==> sound_page(#[trigger] pages[k]),
    ensures
        reads_back(all_bytes(serial, pages), all_items(pages)),
{
    let bytes = all_bytes(serial, pages);
    lemma_items(serial, pages, pages.len() as int);
    assert(bytes.take(bytes.len() as int) =~= bytes);
    assert(pages.take(pages.len() as int) =~= pages);
    assert forall|i: int| 0 <= i < bytes.len() implies {
        let n = pages_packets(#[trigger] bytes.take(i + 1)).len();
        &&& page_packets(bytes[i]).len() > 0
        &&& 0 < n <= all_items(pages).len()
        &&& bytes[i].subrange(6, 14) == le64(all_items(pages)[n - 1].1 as u64 as int)
    } by {
        lemma_page_granule(serial, pages, i);
    }
}

proof fn lemma_finished(calls: Seq<OggCall>)
    requires
        calls.len() > 0,
        calls.last() is Finish,
    ensures
        held(calls).open.len() == 0,
{
}

/// A demuxer reads back what was written: cutting the output of a finished
/// stream by the segment tables of its pages gives the packets in order, each
/// whole inside one page, and the granule position of every page is that of
/// the last packet in it.
pub proof fn law_stream_reads_back(serial: u32, calls: Seq<OggCall>)
    requires
        fit_pages(calls),
        calls.len() <= u32::MAX,
        calls.len() > 0,
        calls.last() is Finish,
    ensures
        reads_back(cut_pages(ogg_run(serial, calls).output()), packets_given(calls)),
{
    lemma_agree(serial, calls);
    lemma_pages(serial, calls);
    lemma_finished(calls);
    let h = held(calls);
    lemma_reads_back(serial, h.pages);
    assert(all_items(h.pages) + h.open =~= all_items(h.pages));
}

/// Every page of a stream is well-formed, whatever calls made it: it starts
/// with the capture pattern and version zero, the first page alone is marked
/// as the start, all carry the serial number of the stream, the pages are
/// numbered from zero without a gap, and each validates.
pub proof fn law_pages_of_a_stream(serial: u32, calls: Seq<OggCall>, i: int)
    requires
        fit_pages(calls),
        calls.len() <= u32::MAX,
        0 <= i < cut_pages(ogg_run(serial, calls).output()).len(),
    ensures
        ({
            let p = cut_pages(ogg_run(serial, calls).output())[i];
            let blank = p.take(22) + seq![0u8, 0, 0, 0] + p.skip(26);
            &&& p.take(4) == capture_pattern()
            &&& p[4] == 0
            &&& p[5] & 0x02 != 0 <==> i == 0
            &&& p.subrange(14, 18) == le32(serial as int)
            &&& p.subrange(18, 22) == le32(i)
            &&& p.subrange(22, 26) == le32(crc_of(0, blank) as int)
        }),
{
    lemma_agree(serial, calls);
    lemma_pages(serial, calls);
    let h = held(calls).pages[i];
    assert(sound_page(h));
    let segs = lacing_all(datas(h.items));
    let body = concat(datas(h.items));
    law_page_reads_back(serial, i as u32, h.items.last().1, i == 0, h.eos, segs, body);
    law_page_checksum(serial, i as u32, h.items.last().1, i == 0, h.eos, segs, body);
    assert(0u8 & 0x02 == 0 && 2u8 & 0x02 != 0 && 4u8 & 0x02 == 0 && 6u8 & 0x02 != 0)
        by (bit_vector);
}

} // verus!
