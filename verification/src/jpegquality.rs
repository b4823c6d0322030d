//! Reading the quantization tables of a JPEG file, from which the quality
//! that the file was saved with is estimated.
//!
//! After a header of fifteen bytes the file is a chain of segments. Each
//! begins with the byte `FF` and a code, followed by the segment's length
//! in two bytes, the more significant first; the length counts its own two
//! bytes. A segment with the code `DB` holds quantization tables of 65
//! bytes each: a byte whose lower half is the table's number, and 64
//! values. The higher the values, the lower the quality; what is gathered
//! here is the sum of all values but the first of each table.

use vstd::prelude::*;
use crate::error::Failure;

verus! {

/// The sums of the tables that were read: `first` for luminance, `second`
/// and `third` for the two chrominance components. A table also counts
/// for the components after it, until a table of their own is read.
#[derive(Clone, Copy, Debug, PartialEq, Eq, Structural)]
pub struct QualitySums {
    pub first: Option<u32>,
    pub second: Option<u32>,
    pub third: Option<u32>,
    /// Whether a table for chrominance was read, which ends the reading
    /// and makes the estimate an average over all three.
    pub combined: bool,
}

/// The index after the first byte `FF` at or after `pos`.
pub open spec fn seek_marker(bytes: Seq<u8>, pos: int) -> Option<int>
    decreases bytes.len() - pos,
{
    if pos < 0 || pos >= bytes.len() {
        None
    } else if bytes[pos] == 0xFF {
        Some(pos + 1)
    } else {
        seek_marker(bytes, pos + 1)
    }
}

/// Where `times` searches for a byte `FF` lead, each going on where the
/// one before ended.
pub open spec fn seek_markers(bytes: Seq<u8>, pos: int, times: nat) -> Option<int>
    decreases times,
{
    if times == 0 {
        Some(pos)
    } else {
        match seek_marker(bytes, pos) {
            Some(next) => seek_markers(bytes, next, (times - 1) as nat),
            None => None,
        }
    }
}

/// The code of the segment whose byte `FF` ends before `pos`, and the
/// index after it, where `fills` further bytes `FF` have been passed.
///
/// Bytes `FF` before the code are passed over. The code zero marks no
/// segment: after it, as many bytes `FF` are searched for as were passed,
/// and one more.
pub open spec fn marker_code(bytes: Seq<u8>, pos: int, fills: nat) -> Option<(u8, int)>
    decreases bytes.len() - pos,
{
    if pos < 0 || pos >= bytes.len() {
        None
    } else if bytes[pos] == 0xFF {
        marker_code(bytes, pos + 1, fills + 1)
    } else if bytes[pos] == 0 {
        match seek_markers(bytes, pos + 1, fills + 1) {
            Some(next) => Some((0u8, next)),
            None => None,
        }
    } else {
        Some((bytes[pos], pos + 1))
    }
}

/// The sum of the values of the table at `at`, from the second value up
/// to the one with number `n`.
pub open spec fn table_total(bytes: Seq<u8>, at: int, n: int) -> nat
    decreases n,
{
    if n <= 1 {
        0
    } else {
        table_total(bytes, at, n - 1) + bytes[at + n] as nat
    }
}

/// The sums after a table with the number `index` and the sum `total`. A
/// table with a number above two counts for nothing.
pub open spec fn with_table(s: QualitySums, index: u8, total: u32) -> QualitySums {
    if index == 0 {
        QualitySums { first: Some(total), second: Some(total), third: Some(total), ..s }
    } else if index == 1 {
        QualitySums { second: Some(total), third: Some(total), ..s }
    } else if index == 2 {
        QualitySums { third: Some(total), ..s }
    } else {
        s
    }
}

/// The sums after the `count` tables from `pos` on, and the index after
/// them; or the sums after the first of them that is not for luminance,
/// marked as combined. `None` where the file ends within a table.
pub open spec fn read_tables(bytes: Seq<u8>, pos: int, count: nat, s: QualitySums) -> Option<
    (QualitySums, int),
>
    decreases count,
{
    if count == 0 {
        Some((s, pos))
    } else if pos < 0 || pos + 65 > bytes.len() {
        None
    } else {
        let index = bytes[pos] & 0x0F;
        let next = with_table(s, index, table_total(bytes, pos, 64) as u32);
        if index > 0 {
            Some((QualitySums { combined: true, ..next }, pos + 65))
        } else {
            read_tables(bytes, pos + 65, (count - 1) as nat, next)
        }
    }
}

/// The sums that the segments from `pos` on add to `s`.
///
/// The reading ends with the code zero and with a table that is not for
/// luminance. A segment shorter than three bytes has no body; the body of
/// a segment without tables is passed over. `None` where the file ends
/// before the reading does, and where the tables of a segment do not fill
/// it exactly.
pub open spec fn scan_segments(bytes: Seq<u8>, pos: int, s: QualitySums) -> Option<QualitySums>
    decreases bytes.len() - pos,
    via scan_segments_decreases
{
    match seek_marker(bytes, pos) {
        None => None,
        Some(marker) => match marker_code(bytes, marker, 0) {
            None => None,
            Some((code, length_at)) => {
                if code == 0 {
                    Some(s)
                } else if length_at + 2 > bytes.len() {
                    None
                } else {
                    let box_len = bytes[length_at] as int * 256 + bytes[length_at + 1] as int;
                    let body = length_at + 2;
                    if box_len < 3 {
                        scan_segments(bytes, body, s)
                    } else if code != 0xDB {
                        let end = body + box_len - 2;
                        if end >= bytes.len() {
                            None
                        } else {
                            scan_segments(bytes, end, s)
                        }
                    } else if (box_len - 2) % 65 != 0 {
                        None
                    } else {
                        match read_tables(bytes, body, ((box_len - 2) / 65) as nat, s) {
                            None => None,
                            Some((next, after)) => if next.combined {
                                Some(next)
                            } else {
                                scan_segments(bytes, after, next)
                            },
                        }
                    }
                }
            },
        },
    }
}

#[via_fn]
proof fn scan_segments_decreases(bytes: Seq<u8>, pos: int, s: QualitySums) {
    lemma_seek_marker_advances(bytes, pos);
    if let Some(marker) = seek_marker(bytes, pos) {
        lemma_marker_code_advances(bytes, marker, 0);
        if let Some((code, length_at)) = marker_code(bytes, marker, 0) {
            if length_at + 2 <= bytes.len() {
                let box_len = bytes[length_at] as int * 256 + bytes[length_at + 1] as int;
                if box_len >= 3 && (box_len - 2) % 65 == 0 {
                    lemma_read_tables_advances(bytes, length_at + 2, ((box_len - 2) / 65) as nat, s);
                }
            }
        }
    }
}

/// Tables are read from where the reading began, and not past the end.
pub proof fn lemma_read_tables_advances(bytes: Seq<u8>, pos: int, count: nat, s: QualitySums)
    requires
        0 <= pos <= bytes.len(),
    ensures
        read_tables(bytes, pos, count, s) matches Some((_, next)) ==> pos <= next <= bytes.len(),
    decreases count,
{
    if count > 0 && pos + 65 <= bytes.len() {
        let index = bytes[pos] & 0x0F;
        let next = with_table(s, index, table_total(bytes, pos, 64) as u32);
        if index == 0 {
            lemma_read_tables_advances(bytes, pos + 65, (count - 1) as nat, next);
        }
    }
}

/// The sums of the quantization tables of a JPEG file, or `None` where
/// `bytes` is shorter than the header, does not begin like a JPEG file, or
/// cannot be read to the end.
pub open spec fn quality_sums(bytes: Seq<u8>) -> Option<QualitySums> {
    if bytes.len() < 15 || bytes[0] != 0xFF || bytes[1] != 0xD8 {
        None
    } else {
        scan_segments(
            bytes,
            15,
            QualitySums { first: None, second: None, third: None, combined: false },
        )
    }
}

/// A search for the byte `FF` ends after the place where it began.
pub proof fn lemma_seek_marker_advances(bytes: Seq<u8>, pos: int)
    ensures
        seek_marker(bytes, pos) matches Some(next) ==> pos < next <= bytes.len(),
    decreases bytes.len() - pos,
{
    if 0 <= pos < bytes.len() && bytes[pos] != 0xFF {
        lemma_seek_marker_advances(bytes, pos + 1);
    }
}

/// Several searches end at or after the place where they began.
pub proof fn lemma_seek_markers_advance(bytes: Seq<u8>, pos: int, times: nat)
    requires
        pos <= bytes.len(),
    ensures
        seek_markers(bytes, pos, times) matches Some(next) ==> pos <= next <= bytes.len(),
    decreases times,
{
    if times > 0 {
        lemma_seek_marker_advances(bytes, pos);
        if let Some(next) = seek_marker(bytes, pos) {
            lemma_seek_markers_advance(bytes, next, (times - 1) as nat);
        }
    }
}

/// A code is read after the place where the reading began.
pub proof fn lemma_marker_code_advances(bytes: Seq<u8>, pos: int, fills: nat)
    ensures
        marker_code(bytes, pos, fills) matches Some((_, next)) ==> pos < next <= bytes.len(),
    decreases bytes.len() - pos,
{
    if 0 <= pos < bytes.len() {
        if bytes[pos] == 0xFF {
            lemma_marker_code_advances(bytes, pos + 1, fills + 1);
        } else if bytes[pos] == 0 {
            lemma_seek_markers_advance(bytes, pos + 1, fills + 1);
        }
    }
}

/// A table's sum is at most 255 for each of its values.
pub proof fn lemma_table_total_bound(bytes: Seq<u8>, at: int, n: int)
    requires
        n >= 1,
    ensures
        table_total(bytes, at, n) <= 255 * (n - 1),
    decreases n,
{
    if n > 1 {
        lemma_table_total_bound(bytes, at, n - 1);
    }
}

fn seek(bytes: &Vec<u8>, pos: usize) -> (r: Option<usize>)
    requires
        pos <= bytes.len(),
    ensures
        match r {
            Some(next) => seek_marker(bytes@, pos as int) == Some(next as int) && pos < next
                <= bytes.len(),
            None => seek_marker(bytes@, pos as int) is None,
        },
{
    let mut k: usize = pos;
    while k < bytes.len()
        invariant
            pos <= k <= bytes.len(),
            seek_marker(bytes@, pos as int) == seek_marker(bytes@, k as int),
        decreases bytes.len() - k,
    {
        if bytes[k] == 0xFF {
            return Some(k + 1);
        }
        k += 1;
    }
    None
}

fn read_code(bytes: &Vec<u8>, pos: usize) -> (r: Option<(u8, usize)>)
    requires
        pos <= bytes.len(),
    ensures
        match r {
            Some((code, next)) => marker_code(bytes@, pos as int, 0) == Some((code, next as int))
                && pos < next <= bytes.len(),
            None => marker_code(bytes@, pos as int, 0) is None,
        },
{
    let mut k: usize = pos;
    let mut fills: usize = 0;
    while k < bytes.len() && bytes[k] == 0xFF
        invariant
            pos <= k <= bytes.len(),
            fills == k - pos,
            marker_code(bytes@, pos as int, 0) == marker_code(bytes@, k as int, fills as nat),
        decreases bytes.len() - k,
    {
        k += 1;
        fills += 1;
    }
    if k >= bytes.len() {
        return None;
    }
    let code = bytes[k];
    if code != 0 {
        return Some((code, k + 1));
    }
    let mut at: usize = k + 1;
    let mut left: usize = fills + 1;
    while left > 0
        invariant
            pos <= k < at <= bytes.len(),
            marker_code(bytes@, pos as int, 0) == match seek_markers(
                bytes@,
                k + 1,
                (fills + 1) as nat,
            ) {
                Some(next) => Some((0u8, next)),
                None => None,
            },
            seek_markers(bytes@, k + 1, (fills + 1) as nat) == seek_markers(
                bytes@,
                at as int,
                left as nat,
            ),
        decreases left,
    {
        at = match seek(bytes, at) {
            Some(next) => next,
            None => {
                return None;
            },
        };
        left -= 1;
    }
    Some((0, at))
}

fn total_of(bytes: &Vec<u8>, at: usize) -> (total: u32)
    requires
        at + 65 <= bytes.len(),
    ensures
        total == table_total(bytes@, at as int, 64),
{
    let mut total: u32 = 0;
    let mut n: usize = 1;
    while n < 64
        invariant
            1 <= n <= 64,
            at + 65 <= bytes.len(),
            total == table_total(bytes@, at as int, n as int),
            total <= 255 * (n - 1),
        decreases 64 - n,
    {
        n += 1;
        total = total + bytes[at + n] as u32;
    }
    total
}

fn add_table(s: QualitySums, index: u8, total: u32) -> (r: QualitySums)
    ensures
        r == with_table(s, index, total),
{
    if index == 0 {
        QualitySums { first: Some(total), second: Some(total), third: Some(total), combined: s.combined }
    } else if index == 1 {
        QualitySums { first: s.first, second: Some(total), third: Some(total), combined: s.combined }
    } else if index == 2 {
        QualitySums { first: s.first, second: s.second, third: Some(total), combined: s.combined }
    } else {
        s
    }
}

fn tables(bytes: &Vec<u8>, pos: usize, count: usize, s: QualitySums) -> (r: Option<
    (QualitySums, usize),
>)
    requires
        pos <= bytes.len(),
    ensures
        match r {
            Some((sums, next)) => read_tables(bytes@, pos as int, count as nat, s) == Some(
                (sums, next as int),
            ) && pos <= next <= bytes.len() && (!sums.combined && !s.combined && count > 0 ==> pos
                < next),
            None => read_tables(bytes@, pos as int, count as nat, s) is None,
        },
{
    let mut at: usize = pos;
    let mut left: usize = count;
    let mut sums = s;
    while left > 0
        invariant
            pos <= at <= bytes.len(),
            left <= count,
            read_tables(bytes@, pos as int, count as nat, s) == read_tables(
                bytes@,
                at as int,
                left as nat,
                sums,
            ),
            left < count ==> pos < at,
            sums.combined == s.combined,
        decreases left,
    {
        if bytes.len() - at < 65 {
            return None;
        }
        let index = bytes[at] & 0x0F;
        proof {
            lemma_table_total_bound(bytes@, at as int, 64);
        }
        let next = add_table(sums, index, total_of(bytes, at));
        if index > 0 {
            return Some(
                (
                    QualitySums {
                        first: next.first,
                        second: next.second,
                        third: next.third,
                        combined: true,
                    },
                    at + 65,
                ),
            );
        }
        sums = next;
        at += 65;
        left -= 1;
    }
    Some((sums, at))
}

/// Gathers the sums of the quantization tables of the JPEG file with the
/// content `bytes`.
///
/// Fails with `Failure::ImageMetadata` where `bytes` is shorter than the
/// header or does not begin like a JPEG file, where the file ends before
/// the reading does, and where the tables of a segment do not fill it.
pub fn jpeg_quality(bytes: &Vec<u8>) -> (r: Result<QualitySums, Failure>)
    ensures
        match r {
            Ok(sums) => quality_sums(bytes@) == Some(sums),
            Err(e) => e is ImageMetadata && quality_sums(bytes@) is None,
        },
{
    if bytes.len() < 15 || bytes[0] != 0xFF || bytes[1] != 0xD8 {
        return Err(Failure::ImageMetadata);
    }
    let mut pos: usize = 15;
    let mut sums = QualitySums { first: None, second: None, third: None, combined: false };
    loop
        invariant
            pos <= bytes.len(),
            !sums.combined,
            quality_sums(bytes@) == scan_segments(bytes@, pos as int, sums),
        decreases bytes.len() - pos,
    {
        let marker = match seek(bytes, pos) {
            Some(p) => p,
            None => {
                return Err(Failure::ImageMetadata);
            },
        };
        let (code, length_at) = match read_code(bytes, marker) {
            Some(found) => found,
            None => {
                return Err(Failure::ImageMetadata);
            },
        };
        if code == 0 {
            return Ok(sums);
        }
        if bytes.len() - length_at < 2 {
            return Err(Failure::ImageMetadata);
        }
        let box_len: usize = bytes[length_at] as usize * 256 + bytes[length_at + 1] as usize;
        let body = length_at + 2;
        if box_len < 3 {
            pos = body;
        } else if code != 0xDB {
            if box_len - 2 >= bytes.len() - body {
                return Err(Failure::ImageMetadata);
            }
            pos = body + (box_len - 2);
        } else if (box_len - 2) % 65 != 0 {
            return Err(Failure::ImageMetadata);
        } else {
            match tables(bytes, body, (box_len - 2) / 65, sums) {
                None => {
                    return Err(Failure::ImageMetadata);
                },
                Some((next, after)) => {
                    if next.combined {
                        return Ok(next);
                    }
                    sums = next;
                    pos = after;
                },
            }
        }
    }
}

} // verus!
