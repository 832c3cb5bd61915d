//! Framing codec: Ethernet II / IPv4 / TCP headers written in front of the
//! payload on egress, validated and stripped on ingress. The layout is
//! fixed: 14 bytes of Ethernet, 20 of IPv4, 28 of TCP (20 plus the
//! maximum-segment-size and window-scale options that handshake frames
//! carry), then the payload.
//!
//! `encodes` pins every header byte, `encode_frame` produces exactly such
//! bytes, `parse_frame` accepts exactly such bytes, and the round-trip law
//! says the two determine each other. The IP and TCP checksum fields are
//! fixed at zero rather than computed and validated: on the in-process
//! link the frame bytes arrive exactly as written, so the checksums would
//! never reject anything.

use vstd::prelude::*;
use crate::frame::{Endpoint, Frame};
use crate::seq_num::SeqNumber;

verus! {

/// Bytes in front of the payload.
pub const FRAME_HDR_LEN: usize = 62;

/// Big-endian 16-bit value at offset `i`.
pub open spec fn be16_at(s: Seq<u8>, i: int) -> int {
    s[i] * 0x100 + s[i + 1]
}

/// Big-endian 32-bit value at offset `i`.
pub open spec fn be32_at(s: Seq<u8>, i: int) -> int {
    s[i] * 0x100_0000 + s[i + 1] * 0x1_0000 + s[i + 2] * 0x100 + s[i + 3]
}

/// Big-endian 48-bit value at offset `i`.
pub open spec fn be48_at(s: Seq<u8>, i: int) -> int {
    be16_at(s, i) * 0x1_0000_0000 + be32_at(s, i + 2)
}

/// The TCP flag byte of a frame.
pub open spec fn flags_byte(f: Frame) -> int {
    (if f.fin {
        1int
    } else {
        0int
    }) + (if f.syn {
        2int
    } else {
        0int
    }) + (if f.rst {
        4int
    } else {
        0int
    }) + (if f.ack {
        0x10int
    } else {
        0int
    })
}

/// A frame this codec can carry: a TCP frame whose fields fit their wire
/// encodings.
pub open spec fn encodable(f: Frame) -> bool {
    &&& !f.udp
    &&& f.eth_src < 0x1_0000_0000_0000
    &&& f.eth_dst < 0x1_0000_0000_0000
    &&& f.wnd <= 0xFFFF
    &&& f.mss <= 0xFFFF
    &&& f.payload@.len() <= 0xFFFF - 48
}

/// `s` is exactly the wire form of `f`: every header byte is pinned and
/// the payload follows the headers.
pub open spec fn encodes(f: Frame, s: Seq<u8>) -> bool {
    &&& s.len() == FRAME_HDR_LEN + f.payload@.len()
    // Ethernet II: destination, source, IPv4 ethertype.
    &&& be48_at(s, 0) == f.eth_dst
    &&& be48_at(s, 6) == f.eth_src
    &&& s[12] == 0x08u8 && s[13] == 0x00u8
    // IPv4: version and header length, total length, TCP protocol,
    // source and destination addresses; fragmentation unused.
    &&& s[14] == 0x45u8 && s[15] == 0x00u8
    &&& be16_at(s, 16) == 48 + f.payload@.len()
    &&& s[18] == 0u8 && s[19] == 0u8 && s[20] == 0u8 && s[21] == 0u8
    &&& s[22] == 64u8 && s[23] == 6u8
    &&& s[24] == 0u8 && s[25] == 0u8
    &&& be32_at(s, 26) == f.src.addr
    &&& be32_at(s, 30) == f.dst.addr
    // TCP: ports, sequence and acknowledgment numbers, a 28-byte header
    // (data offset 7), flags, window, and the two handshake options.
    &&& be16_at(s, 34) == f.src.port
    &&& be16_at(s, 36) == f.dst.port
    &&& be32_at(s, 38) == f.seq.val
    &&& be32_at(s, 42) == f.ack_num.val
    &&& s[46] == 0x70u8
    &&& s[47] == flags_byte(f)
    &&& be16_at(s, 48) == f.wnd
    &&& s[50] == 0u8 && s[51] == 0u8 && s[52] == 0u8 && s[53] == 0u8
    &&& s[54] == 0x02u8 && s[55] == 0x04u8
    &&& be16_at(s, 56) == f.mss
    &&& s[58] == 0x03u8 && s[59] == 0x03u8
    &&& s[60] == f.wnd_scale
    &&& s[61] == 0x01u8
    &&& s.skip(FRAME_HDR_LEN as int) == f.payload@
}

/// Appends one byte.
fn push_byte(out: &mut Vec<u8>, v: u8)
    ensures
        final(out)@.len() == old(out)@.len() + 1,
        forall|k: int| 0 <= k < old(out)@.len() ==> #[trigger] final(out)@[k] == old(out)@[k],
        final(out)@[old(out)@.len() as int] == v,
{
    out.push(v);
}

/// Appends a big-endian 16-bit value.
fn push_be16(out: &mut Vec<u8>, v: u16)
    ensures
        final(out)@.len() == old(out)@.len() + 2,
        forall|k: int| 0 <= k < old(out)@.len() ==> #[trigger] final(out)@[k] == old(out)@[k],
        be16_at(final(out)@, old(out)@.len() as int) == v,
{
    out.push((v >> 8) as u8);
    out.push(v as u8);
    proof {
        let i = old(out)@.len() as int;
        assert(((v >> 8) as u8) as int * 0x100 + (v as u8) as int == v as int) by (bit_vector);
    }
}

/// Appends a big-endian 32-bit value.
fn push_be32(out: &mut Vec<u8>, v: u32)
    ensures
        final(out)@.len() == old(out)@.len() + 4,
        forall|k: int| 0 <= k < old(out)@.len() ==> #[trigger] final(out)@[k] == old(out)@[k],
        be32_at(final(out)@, old(out)@.len() as int) == v,
{
    out.push((v >> 24) as u8);
    out.push((v >> 16) as u8);
    out.push((v >> 8) as u8);
    out.push(v as u8);
    proof {
        let s = final(out)@;
        let i = old(out)@.len() as int;
        assert((v >> 24) as int * 0x100_0000 + ((v >> 16) as u8) as int * 0x1_0000 + ((v
            >> 8) as u8) as int * 0x100 + (v as u8) as int == v as int) by (bit_vector);
    }
}

/// Appends a big-endian 48-bit value (the low six bytes of `v`).
fn push_be48(out: &mut Vec<u8>, v: u64)
    requires
        v < 0x1_0000_0000_0000,
    ensures
        final(out)@.len() == old(out)@.len() + 6,
        forall|k: int| 0 <= k < old(out)@.len() ==> #[trigger] final(out)@[k] == old(out)@[k],
        be48_at(final(out)@, old(out)@.len() as int) == v,
{
    out.push((v >> 40) as u8);
    out.push((v >> 32) as u8);
    out.push((v >> 24) as u8);
    out.push((v >> 16) as u8);
    out.push((v >> 8) as u8);
    out.push(v as u8);
    proof {
        let s = final(out)@;
        let i = old(out)@.len() as int;
        assert(((v >> 40) as u8) as int * 0x100 + ((v >> 32) as u8) as int == ((v
            >> 32) as u64 & 0xFFFF) as int) by (bit_vector);
        assert(((v >> 24) as u8) as int * 0x100_0000 + ((v >> 16) as u8) as int * 0x1_0000 + ((v
            >> 8) as u8) as int * 0x100 + (v as u8) as int == (v & 0xFFFF_FFFF) as int)
            by (bit_vector);
        assert(v < 0x1_0000_0000_0000 ==> ((v >> 32) as u64 & 0xFFFF) * 0x1_0000_0000 + (v
            & 0xFFFF_FFFF) == v) by (bit_vector);
    }
}

/// The flag byte of an encodable frame touches only the FIN, SYN, RST and
/// ACK bits, so the mask over the others is clear.
proof fn lemma_flags_mask(b: u8)
    requires
        b < 8 || (16 <= b && b < 24),
    ensures
        b & 0xE8 == 0,
{
    assert((b < 8 || (16 <= b && b < 24)) ==> b & 0xE8 == 0) by (bit_vector);
}

/// Splitting a flag byte into its four bits inverts building it from them.
proof fn lemma_flags_split(b: u8)
    requires
        b & 0xE8 == 0,
    ensures
        (if b & 1 != 0 {
            1int
        } else {
            0int
        }) + (if b & 2 != 0 {
            2int
        } else {
            0int
        }) + (if b & 4 != 0 {
            4int
        } else {
            0int
        }) + (if b & 0x10 != 0 {
            0x10int
        } else {
            0int
        }) == b as int,
{
    assert(b & 0xE8 == 0 ==> ((if b & 1 != 0 {
        1u8
    } else {
        0u8
    }) + (if b & 2 != 0 {
        2u8
    } else {
        0u8
    }) + (if b & 4 != 0 {
        4u8
    } else {
        0u8
    }) + (if b & 0x10 != 0 {
        0x10u8
    } else {
        0u8
    })) == b) by (bit_vector);
}

/// Writes a frame onto the wire: the three headers, then the payload.
#[verifier::rlimit(100)]
pub fn encode_frame(f: &Frame) -> (r: Vec<u8>)
    requires
        encodable(*f),
    ensures
        encodes(*f, r@),
{
    let mut out: Vec<u8> = Vec::new();
    push_be48(&mut out, f.eth_dst);
    push_be48(&mut out, f.eth_src);
    push_byte(&mut out, 0x08);
    push_byte(&mut out, 0x00);
    push_byte(&mut out, 0x45);
    push_byte(&mut out, 0x00);
    push_be16(&mut out, 48 + f.payload.len() as u16);
    push_byte(&mut out, 0);
    push_byte(&mut out, 0);
    push_byte(&mut out, 0);
    push_byte(&mut out, 0);
    push_byte(&mut out, 64);
    push_byte(&mut out, 6);
    push_byte(&mut out, 0);
    push_byte(&mut out, 0);
    push_be32(&mut out, f.src.addr);
    push_be32(&mut out, f.dst.addr);
    push_be16(&mut out, f.src.port);
    push_be16(&mut out, f.dst.port);
    push_be32(&mut out, f.seq.val);
    push_be32(&mut out, f.ack_num.val);
    push_byte(&mut out, 0x70);
    let flags: u8 = (if f.fin {
        1u8
    } else {
        0u8
    }) + (if f.syn {
        2u8
    } else {
        0u8
    }) + (if f.rst {
        4u8
    } else {
        0u8
    }) + (if f.ack {
        0x10u8
    } else {
        0u8
    });
    push_byte(&mut out, flags);
    push_be16(&mut out, f.wnd as u16);
    push_byte(&mut out, 0);
    push_byte(&mut out, 0);
    push_byte(&mut out, 0);
    push_byte(&mut out, 0);
    push_byte(&mut out, 0x02);
    push_byte(&mut out, 0x04);
    push_be16(&mut out, f.mss as u16);
    push_byte(&mut out, 0x03);
    push_byte(&mut out, 0x03);
    push_byte(&mut out, f.wnd_scale);
    push_byte(&mut out, 0x01);
    proof {
        assert(out@.len() == FRAME_HDR_LEN);
        assert(out@[12] == 0x08u8);
        assert(out@[13] == 0x00u8);
        assert(out@[14] == 0x45u8);
        assert(out@[15] == 0x00u8);
        assert(out@[18] == 0u8);
        assert(out@[19] == 0u8);
        assert(out@[20] == 0u8);
        assert(out@[21] == 0u8);
        assert(out@[22] == 64u8);
        assert(out@[23] == 6u8);
        assert(out@[24] == 0u8);
        assert(out@[25] == 0u8);
        assert(out@[46] == 0x70u8);
        assert(out@[50] == 0u8);
        assert(out@[51] == 0u8);
        assert(out@[52] == 0u8);
        assert(out@[53] == 0u8);
        assert(out@[54] == 0x02u8);
        assert(out@[55] == 0x04u8);
        assert(out@[58] == 0x03u8);
        assert(out@[59] == 0x03u8);
        assert(out@[60] == f.wnd_scale);
        assert(out@[61] == 0x01u8);
        assert(be48_at(out@, 0) == f.eth_dst);
        assert(be48_at(out@, 6) == f.eth_src);
        assert(be16_at(out@, 16) == 48 + f.payload@.len());
        assert(be32_at(out@, 26) == f.src.addr);
        assert(be32_at(out@, 30) == f.dst.addr);
        assert(be16_at(out@, 34) == f.src.port);
        assert(be16_at(out@, 36) == f.dst.port);
        assert(be32_at(out@, 38) == f.seq.val);
        assert(be32_at(out@, 42) == f.ack_num.val);
        assert(out@[47] == flags_byte(*f));
        assert(be16_at(out@, 48) == f.wnd);
        assert(be16_at(out@, 56) == f.mss);
    }
    let ghost hdr = out@;
    let mut i: usize = 0;
    let n = f.payload.len();
    while i < n
        invariant
            n == f.payload@.len(),
            i <= n,
            out@.len() == FRAME_HDR_LEN + i,
            out@.take(FRAME_HDR_LEN as int) == hdr,
            out@.skip(FRAME_HDR_LEN as int) == f.payload@.take(i as int),
        decreases n - i,
    {
        push_byte(&mut out, f.payload[i]);
        proof {
            assert(out@.take(FRAME_HDR_LEN as int) =~= hdr);
            assert(out@.skip(FRAME_HDR_LEN as int) =~= f.payload@.take(i as int + 1));
        }
        i = i + 1;
    }
    proof {
        assert(out@.skip(FRAME_HDR_LEN as int) =~= f.payload@);
        assert forall|k: int| 0 <= k < FRAME_HDR_LEN implies out@[k] == hdr[k] by {
            assert(out@.take(FRAME_HDR_LEN as int)[k] == hdr[k]);
        }
    }
    out
}

/// Reads a big-endian 16-bit value.
fn get_be16(s: &[u8], i: usize) -> (r: u16)
    requires
        i + 2 <= s@.len(),
    ensures
        r == be16_at(s@, i as int),
{
    let hi = s[i];
    let lo = s[i + 1];
    proof {
        assert(hi as int * 0x100 + lo as int <= 0xFFFF);
    }
    (hi as u16) * 0x100 + lo as u16
}

/// Reads a big-endian 32-bit value.
fn get_be32(s: &[u8], i: usize) -> (r: u32)
    requires
        i + 4 <= s@.len(),
    ensures
        r == be32_at(s@, i as int),
{
    let b0 = s[i] as u32;
    let b1 = s[i + 1] as u32;
    let b2 = s[i + 2] as u32;
    let b3 = s[i + 3] as u32;
    b0 * 0x100_0000 + b1 * 0x1_0000 + b2 * 0x100 + b3
}

/// Reads a big-endian 48-bit value.
fn get_be48(s: &[u8], i: usize) -> (r: u64)
    requires
        i + 6 <= s@.len(),
    ensures
        r == be48_at(s@, i as int),
        r < 0x1_0000_0000_0000,
{
    let slen = s.len();
    let hi = get_be16(s, i) as u64;
    let lo = get_be32(s, i + 2) as u64;
    hi * 0x1_0000_0000 + lo
}

/// Validates an incoming frame's headers and hands the payload upward:
/// exactly the byte strings some encodable frame writes are accepted, and
/// the decoded frame is that frame.
pub fn parse_frame(s: &[u8]) -> (r: Option<Frame>)
    ensures
        r matches Some(f) ==> encodes(f, s@) && encodable(f),
        forall|f: Frame| encodes(f, s@) && encodable(f) ==> r is Some,
{
    if s.len() < FRAME_HDR_LEN {
        return None;
    }
    if !(s[12] == 0x08 && s[13] == 0x00 && s[14] == 0x45 && s[15] == 0x00) {
        return None;
    }
    if !(s[18] == 0 && s[19] == 0 && s[20] == 0 && s[21] == 0 && s[22] == 64 && s[23] == 6
        && s[24] == 0 && s[25] == 0) {
        return None;
    }
    let total_len = get_be16(s, 16) as usize;
    if total_len + 14 != s.len() || total_len < 48 {
        return None;
    }
    if !(s[46] == 0x70 && s[50] == 0 && s[51] == 0 && s[52] == 0 && s[53] == 0) {
        return None;
    }
    if !(s[54] == 0x02 && s[55] == 0x04 && s[58] == 0x03 && s[59] == 0x03 && s[61] == 0x01) {
        return None;
    }
    let flags = s[47];
    if flags & 0xE8 != 0 {
        proof {
            assert forall|f: Frame| !(encodes(f, s@) && encodable(f)) by {
                if encodes(f, s@) {
                    assert(s@[47] as int == flags_byte(f));
                    assert(flags_byte(f) < 8 || (16 <= flags_byte(f) && flags_byte(f) < 24));
                    lemma_flags_mask(s@[47]);
                }
            }
        }
        return None;
    }
    let mut payload: Vec<u8> = Vec::new();
    let mut i: usize = FRAME_HDR_LEN;
    let end = s.len();
    while i < end
        invariant
            FRAME_HDR_LEN <= i <= end,
            end == s@.len(),
            payload@ == s@.subrange(FRAME_HDR_LEN as int, i as int),
        decreases end - i,
    {
        payload.push(s[i]);
        proof {
            assert(payload@ =~= s@.subrange(FRAME_HDR_LEN as int, i as int + 1));
        }
        i = i + 1;
    }
    proof {
        assert(payload@ =~= s@.skip(FRAME_HDR_LEN as int));
    }
    let f = Frame {
        eth_dst: get_be48(s, 0),
        eth_src: get_be48(s, 6),
        src: Endpoint { addr: get_be32(s, 26), port: get_be16(s, 34) },
        dst: Endpoint { addr: get_be32(s, 30), port: get_be16(s, 36) },
        seq: SeqNumber { val: get_be32(s, 38) },
        ack_num: SeqNumber { val: get_be32(s, 42) },
        fin: flags & 0x01 != 0,
        syn: flags & 0x02 != 0,
        rst: flags & 0x04 != 0,
        ack: flags & 0x10 != 0,
        wnd: get_be16(s, 48) as u32,
        mss: get_be16(s, 56) as u32,
        wnd_scale: s[60],
        udp: false,
        payload,
    };
    proof {
        lemma_flags_split(s@[47]);
        assert(flags_byte(f) == s@[47] as int);
    }
    Some(f)
}

/// Round trip: the wire form of a frame determines the frame — two frames
/// with the same wire form are field-for-field equal, so what `parse_frame`
/// returns for `encode_frame`'s output is the encoded frame itself.
pub proof fn lemma_codec_round_trip(f: Frame, g: Frame, s: Seq<u8>)
    requires
        encodes(f, s),
        encodes(g, s),
        !f.udp,
        !g.udp,
        f.eth_src < 0x1_0000_0000_0000 && f.eth_dst < 0x1_0000_0000_0000,
        g.eth_src < 0x1_0000_0000_0000 && g.eth_dst < 0x1_0000_0000_0000,
    ensures
        f.eth_src == g.eth_src && f.eth_dst == g.eth_dst,
        f.src == g.src && f.dst == g.dst,
        f.seq == g.seq && f.ack_num == g.ack_num,
        f.syn == g.syn && f.ack == g.ack && f.fin == g.fin && f.rst == g.rst,
        f.wnd == g.wnd && f.mss == g.mss && f.wnd_scale == g.wnd_scale,
        f.payload@ == g.payload@,
{
    assert(flags_byte(f) == flags_byte(g));
    assert(f.fin == g.fin && f.syn == g.syn && f.rst == g.rst && f.ack == g.ack) by {
        if f.fin != g.fin || f.syn != g.syn || f.rst != g.rst || f.ack != g.ack {
            assert(flags_byte(f) != flags_byte(g));
        }
    }
}

} // verus!
