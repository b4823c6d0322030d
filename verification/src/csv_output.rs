//! The results table: tab-separated records, one header and one row for
//! each image.
//!
//! Records are encoded in memory; appending the bytes to the table's file
//! is left to the caller.

use vstd::prelude::*;
use crate::error::Failure;
use crate::text::texts;

verus! {

/// `csv::Error`, what the `csv` crate reports when it cannot write.
/// Nothing is known of what it holds.
#[verifier::external_type_specification]
#[verifier::external_body]
pub struct ExCsvError(csv::Error);

/// The delimiter of the results table: a tab.
pub const TAB: u8 = 9;

/// The bytes that the `csv` crate writes for one record with these fields
/// as the first record of a writer with this delimiter, its other settings
/// left as they are.
pub uninterp spec fn record_bytes(fields: Seq<Seq<char>>, delimiter: u8) -> Seq<u8>;

/// The bytes of one record of the results table.
pub open spec fn tsv_record(fields: Seq<Seq<char>>) -> Seq<u8> {
    record_bytes(fields, TAB)
}

/// Encodes one record with `csv::Writer::write_record` on a new writer
/// made by `csv::WriterBuilder` with the given delimiter, into memory.
/// The crate fails only where the memory it writes to does, which a
/// vector does not, or where a record has another number of fields than
/// the first, and this record is the first. So the result is the bytes
/// that the crate wrote.
#[verifier::external_body]
fn encode_record(fields: &Vec<String>, delimiter: u8) -> (r: Result<Vec<u8>, csv::Error>)
    ensures
        r is Ok,
        r matches Ok(bytes) ==> bytes@ == record_bytes(texts(fields@), delimiter),
{
    let mut writer = csv::WriterBuilder::new().delimiter(delimiter).from_writer(Vec::new());
    writer.write_record(fields)?;
    writer.into_inner().map_err(|e| csv::Error::from(e.into_error()))
}

/// The header of the results table for the candidates `cmds`: two empty
/// columns, then the candidates once for the size columns and once more
/// for the percentage columns.
pub open spec fn header_row(cmds: Seq<Seq<char>>) -> Seq<Seq<char>> {
    seq![Seq::<char>::empty(), Seq::<char>::empty()] + cmds + cmds
}

/// The header has two columns and two more for each candidate.
pub proof fn lemma_header_width(cmds: Seq<Seq<char>>)
    ensures
        header_row(cmds).len() == 2 + 2 * cmds.len(),
{
}

/// The header of the results table for the candidates `cmds`.
pub fn cmds_header(cmds: &Vec<String>) -> (row: Vec<String>)
    ensures
        texts(row@) == header_row(texts(cmds@)),
        row.len() == 2 + 2 * cmds.len(),
{
    let mut row: Vec<String> = Vec::new();
    row.push(String::new());
    row.push(String::new());
    let ghost head = seq![Seq::<char>::empty(), Seq::<char>::empty()];
    assert(texts(row@) == head);
    let mut round: usize = 0;
    let ghost mut done: Seq<Seq<char>> = head;
    while round < 2
        invariant
            round <= 2,
            texts(row@) == done,
            done == if round == 0 {
                head
            } else if round == 1 {
                head + texts(cmds@)
            } else {
                head + texts(cmds@) + texts(cmds@)
            },
        decreases 2 - round,
    {
        let mut i: usize = 0;
        let ghost start = done;
        assert(start + texts(cmds@).take(0) == start);
        while i < cmds.len()
            invariant
                i <= cmds.len(),
                texts(row@) == start + texts(cmds@).take(i as int),
            decreases cmds.len() - i,
        {
            let ghost before = texts(row@);
            row.push(cmds[i].clone());
            assert(texts(row@) == before.push(cmds@[i as int]@));
            assert(texts(cmds@).take(i + 1) == texts(cmds@).take(i as int).push(cmds@[i as int]@));
            i += 1;
        }
        proof {
            assert(texts(cmds@).take(cmds.len() as int) == texts(cmds@));
            done = start + texts(cmds@);
        }
        round += 1;
    }
    proof {
        lemma_header_width(texts(cmds@));
        assert(row@.len() == texts(row@).len());
    }
    row
}

/// Takes what encoding a record gave: the bytes are added to `out`, and a
/// failure leaves `out` as it was.
pub fn add_encoded(out: &mut Vec<u8>, encoded: Result<Vec<u8>, csv::Error>) -> (r: Result<
    (),
    Failure,
>)
    ensures
        match encoded {
            Ok(bytes) => r is Ok && final(out)@ == old(out)@ + bytes@,
            Err(_) => r matches Err(e) && e is Io && final(out)@ == old(out)@,
        },
{
    match encoded {
        Ok(bytes) => {
            let mut bytes = bytes;
            out.append(&mut bytes);
            Ok(())
        },
        Err(_) => Err(Failure::Io),
    }
}

/// The part of the results table that has been written but not yet added
/// to the table's file.
#[derive(Debug)]
pub struct CsvOutput {
    pub buffer: Vec<u8>,
}

impl CsvOutput {
    /// A writer that has written nothing yet.
    pub fn new() -> (w: CsvOutput)
        ensures
            w.buffer@.len() == 0,
    {
        CsvOutput { buffer: Vec::new() }
    }

    /// Writes one record: its bytes follow what was written before.
    pub fn write_record(&mut self, row: &Vec<String>) -> (r: Result<(), Failure>)
        ensures
            r is Ok,
            final(self).buffer@ == old(self).buffer@ + tsv_record(texts(row@)),
    {
        let encoded = encode_record(row, TAB);
        add_encoded(&mut self.buffer, encoded)
    }

    /// Writes the header for the candidates `cmds`.
    pub fn write_cmds_header(&mut self, cmds: &Vec<String>) -> (r: Result<(), Failure>)
        ensures
            r is Ok,
            final(self).buffer@ == old(self).buffer@ + tsv_record(header_row(texts(cmds@))),
    {
        let row = cmds_header(cmds);
        self.write_record(&row)
    }

    /// Hands out what has been written and starts anew.
    pub fn take(&mut self) -> (bytes: Vec<u8>)
        ensures
            bytes@ == old(self).buffer@,
            final(self).buffer@.len() == 0,
    {
        let mut bytes: Vec<u8> = Vec::new();
        std::mem::swap(&mut self.buffer, &mut bytes);
        bytes
    }
}

} // verus!
