//! Telling an animated PNG from a still one.
//!
//! A PNG file is a signature of eight bytes followed by chunks. Each chunk
//! begins with its length in four bytes, the most significant first, and
//! its type in four more; then come as many bytes of data as the length
//! says, and four bytes of a checksum. An animated PNG has a chunk `acTL`
//! before its first chunk `IDAT`, and the `acTL` chunk begins with the
//! number of frames.

use vstd::prelude::*;
use crate::error::Failure;

verus! {

/// The signature at the start of every PNG file.
pub open spec fn png_header() -> Seq<u8> {
    seq![0x89u8, 0x50u8, 0x4Eu8, 0x47u8, 0x0Du8, 0x0Au8, 0x1Au8, 0x0Au8]
}

/// The type of the chunk that announces an animation.
pub open spec fn actl() -> Seq<u8> {
    seq![0x61u8, 0x63u8, 0x54u8, 0x4Cu8]
}

/// The type of the chunks that hold the image.
pub open spec fn idat() -> Seq<u8> {
    seq![0x49u8, 0x44u8, 0x41u8, 0x54u8]
}

/// The number that the four bytes from `at` on stand for, the most
/// significant first.
pub open spec fn uint32_at(bytes: Seq<u8>, at: int) -> nat {
    bytes[at] as nat * 0x100_0000 + bytes[at + 1] as nat * 0x1_0000 + bytes[at + 2] as nat * 0x100
        + bytes[at + 3] as nat
}

/// What the chunks from `pos` on say: whether the file is animated, or
/// `None` where the file ends before that is known.
///
/// An `acTL` chunk says that it is if it counts two frames or more, an
/// `IDAT` chunk says that it is not, and any other chunk is passed over.
pub open spec fn scan_chunks(bytes: Seq<u8>, pos: int) -> Option<bool>
    decreases bytes.len() - pos,
{
    if pos < 0 || pos + 8 > bytes.len() {
        None
    } else {
        let typ = bytes.subrange(pos + 4, pos + 8);
        if typ == actl() {
            if pos + 12 > bytes.len() {
                None
            } else {
                Some(uint32_at(bytes, pos + 8) >= 2)
            }
        } else if typ == idat() {
            Some(false)
        } else {
            let next = pos + 12 + uint32_at(bytes, pos);
            if next > bytes.len() {
                None
            } else {
                scan_chunks(bytes, next)
            }
        }
    }
}

/// Whether a PNG file is animated, or `None` where `bytes` does not begin
/// with the signature of PNG or ends too early.
pub open spec fn is_animated(bytes: Seq<u8>) -> Option<bool> {
    if bytes.len() < 8 || bytes.subrange(0, 8) != png_header() {
        None
    } else {
        scan_chunks(bytes, 8)
    }
}

/// The length and the type of a chunk.
#[derive(Clone, Copy, Debug)]
pub struct ChunkHeaderData {
    pub length: u32,
    pub typ: [u8; 4],
}

/// Reads four bytes at `at` as a number, the most significant byte first.
pub fn read_uint32(bytes: &Vec<u8>, at: usize) -> (r: Option<u32>)
    ensures
        match r {
            Some(v) => at + 4 <= bytes.len() && v == uint32_at(bytes@, at as int),
            None => at + 4 > bytes.len(),
        },
{
    if bytes.len() < 4 || at > bytes.len() - 4 {
        return None;
    }
    let v: u32 = bytes[at] as u32 * 0x100_0000 + bytes[at + 1] as u32 * 0x1_0000 + bytes[at
        + 2] as u32 * 0x100 + bytes[at + 3] as u32;
    Some(v)
}

impl ChunkHeaderData {
    /// Reads the head of the chunk at `at`.
    pub fn new(bytes: &Vec<u8>, at: usize) -> (r: Option<ChunkHeaderData>)
        ensures
            match r {
                Some(h) => {
                    &&& at + 8 <= bytes.len()
                    &&& h.length == uint32_at(bytes@, at as int)
                    &&& h.typ@ == bytes@.subrange(at + 4, at + 8)
                },
                None => at + 8 > bytes.len(),
            },
    {
        if bytes.len() < 8 || at > bytes.len() - 8 {
            return None;
        }
        let length = match read_uint32(bytes, at) {
            Some(l) => l,
            None => {
                return None;
            },
        };
        let typ: [u8; 4] = [bytes[at + 4], bytes[at + 5], bytes[at + 6], bytes[at + 7]];
        assert(typ@ == bytes@.subrange(at + 4, at + 8));
        Some(ChunkHeaderData { length, typ })
    }
}

fn is_type(typ: &[u8; 4], a: u8, b: u8, c: u8, d: u8) -> (r: bool)
    ensures
        r == (typ@ == seq![a, b, c, d]),
{
    let r = typ[0] == a && typ[1] == b && typ[2] == c && typ[3] == d;
    proof {
        if r {
            assert(typ@ == seq![a, b, c, d]);
        } else {
            let s = seq![a, b, c, d];
            assert(s[0] == a && s[1] == b && s[2] == c && s[3] == d);
        }
    }
    r
}

/// Says whether the PNG file with the content `bytes` is animated.
///
/// Fails with `Failure::ImageMetadata` where `bytes` does not begin with
/// the signature of PNG, and where it ends before a chunk `acTL` or `IDAT`
/// has been read.
pub fn decode(bytes: &Vec<u8>) -> (r: Result<bool, Failure>)
    ensures
        match r {
            Ok(b) => is_animated(bytes@) == Some(b),
            Err(e) => e is ImageMetadata && is_animated(bytes@) is None,
        },
{
    if bytes.len() < 8 {
        return Err(Failure::ImageMetadata);
    }
    let signature_found = bytes[0] == 0x89 && bytes[1] == 0x50 && bytes[2] == 0x4E && bytes[3]
        == 0x47 && bytes[4] == 0x0D && bytes[5] == 0x0A && bytes[6] == 0x1A && bytes[7] == 0x0A;
    proof {
        let head = bytes@.subrange(0, 8);
        let h = png_header();
        if signature_found {
            assert(head == h);
        } else {
            assert(head[0] == bytes@[0] && head[1] == bytes@[1] && head[2] == bytes@[2] && head[3]
                == bytes@[3] && head[4] == bytes@[4] && head[5] == bytes@[5] && head[6]
                == bytes@[6] && head[7] == bytes@[7]);
            assert(h[0] == 0x89 && h[1] == 0x50 && h[2] == 0x4E && h[3] == 0x47 && h[4] == 0x0D
                && h[5] == 0x0A && h[6] == 0x1A && h[7] == 0x0A);
        }
    }
    if !signature_found {
        return Err(Failure::ImageMetadata);
    }
    let mut pos: usize = 8;
    loop
        invariant
            8 <= pos <= bytes.len(),
            is_animated(bytes@) == scan_chunks(bytes@, pos as int),
        decreases bytes.len() - pos,
    {
        let chd = match ChunkHeaderData::new(bytes, pos) {
            Some(h) => h,
            None => {
                return Err(Failure::ImageMetadata);
            },
        };
        if is_type(&chd.typ, 0x61, 0x63, 0x54, 0x4C) {
            return match read_uint32(bytes, pos + 8) {
                Some(frames) => Ok(frames >= 2),
                None => Err(Failure::ImageMetadata),
            };
        }
        if is_type(&chd.typ, 0x49, 0x44, 0x41, 0x54) {
            return Ok(false);
        }
        let next: u128 = pos as u128 + 12 + chd.length as u128;
        if next > bytes.len() as u128 {
            return Err(Failure::ImageMetadata);
        }
        pos = next as usize;
    }
}

} // verus!
