//! The write-ahead log: the record format, and the bookkeeping of log
//! sequence numbers and segments.

use crate::codec::{
    copy_range, put_bytes, read_u32_le, read_u64_le, u32_le, u64_le, zeroed,
};
use crate::constants::WAL_SEGMENT_SIZE;
use crate::error::HeapError;
use vstd::bytes::{
    lemma_auto_spec_u32_to_from_le_bytes, lemma_auto_spec_u64_to_from_le_bytes,
    spec_u32_from_le_bytes, spec_u32_to_le_bytes, spec_u64_from_le_bytes, spec_u64_to_le_bytes,
};
use vstd::prelude::*;
use vstd::slice::slice_subrange;

verus! {

/// The size of a record without its payload.
pub const WAL_RECORD_HEADER_SIZE: usize = 25;

/// What a log record reports.
#[derive(Debug, Clone, Copy, PartialEq, Eq, Structural)]
pub enum XLogRecordType {
    HeapInsert,
    HeapUpdate,
    HeapDelete,
    HeapVacuum,
    TransactionCommit,
    TransactionAbort,
    Checkpoint,
}

/// The byte that stands for a record type on disk.
pub open spec fn type_code(t: XLogRecordType) -> u8 {
    match t {
        XLogRecordType::HeapInsert => 1,
        XLogRecordType::HeapUpdate => 2,
        XLogRecordType::HeapDelete => 3,
        XLogRecordType::HeapVacuum => 4,
        XLogRecordType::TransactionCommit => 5,
        XLogRecordType::TransactionAbort => 6,
        XLogRecordType::Checkpoint => 7,
    }
}

/// The record type that a byte stands for, if any.
pub open spec fn type_of_code(code: u8) -> Option<XLogRecordType> {
    if code == 1 {
        Some(XLogRecordType::HeapInsert)
    } else if code == 2 {
        Some(XLogRecordType::HeapUpdate)
    } else if code == 3 {
        Some(XLogRecordType::HeapDelete)
    } else if code == 4 {
        Some(XLogRecordType::HeapVacuum)
    } else if code == 5 {
        Some(XLogRecordType::TransactionCommit)
    } else if code == 6 {
        Some(XLogRecordType::TransactionAbort)
    } else if code == 7 {
        Some(XLogRecordType::Checkpoint)
    } else {
        None
    }
}

/// What a log record holds.
pub struct XLogRecordView {
    pub lsn: u64,
    pub txid: u32,
    pub record_type: XLogRecordType,
    pub block_id: u32,
    pub data: Seq<u8>,
    pub prev_lsn: u64,
}

impl XLogRecordView {
    /// The length of the image.
    pub open spec fn size(&self) -> int {
        WAL_RECORD_HEADER_SIZE + self.data.len()
    }

    /// The byte-exact image of the record: the previous and the own log
    /// sequence number, the type code, the transaction id and the block,
    /// all little-endian, then the payload.
    pub open spec fn image(&self) -> Seq<u8> {
        spec_u64_to_le_bytes(self.prev_lsn) + spec_u64_to_le_bytes(self.lsn) + seq![
            type_code(self.record_type),
        ] + spec_u32_to_le_bytes(self.txid) + spec_u32_to_le_bytes(self.block_id) + self.data
    }

    /// Whether `buf` starts with a record: it holds the fixed part, and the
    /// type code is known.
    pub open spec fn parses(buf: Seq<u8>) -> bool {
        buf.len() >= WAL_RECORD_HEADER_SIZE && type_of_code(buf[16]) is Some
    }

    /// The record that `buf` holds. Everything past the fixed part is its
    /// payload.
    pub open spec fn parse(buf: Seq<u8>) -> XLogRecordView {
        XLogRecordView {
            prev_lsn: spec_u64_from_le_bytes(buf.subrange(0, 8)),
            lsn: spec_u64_from_le_bytes(buf.subrange(8, 16)),
            record_type: type_of_code(buf[16])->Some_0,
            txid: spec_u32_from_le_bytes(buf.subrange(17, 21)),
            block_id: spec_u32_from_le_bytes(buf.subrange(21, 25)),
            data: buf.subrange(25, buf.len() as int),
        }
    }

    /// Reading back the image of a record gives the record.
    pub proof fn lemma_parse_image(&self)
        ensures
            self.image().len() == self.size(),
            Self::parses(self.image()),
            Self::parse(self.image()) == *self,
    {
        lemma_auto_spec_u32_to_from_le_bytes();
        lemma_auto_spec_u64_to_from_le_bytes();
        let img = self.image();
        assert(img.subrange(0, 8) =~= spec_u64_to_le_bytes(self.prev_lsn));
        assert(img.subrange(8, 16) =~= spec_u64_to_le_bytes(self.lsn));
        assert(img[16] == type_code(self.record_type));
        assert(img.subrange(17, 21) =~= spec_u32_to_le_bytes(self.txid));
        assert(img.subrange(21, 25) =~= spec_u32_to_le_bytes(self.block_id));
        assert(img.subrange(25, img.len() as int) =~= self.data);
    }
}

/// A record of the write-ahead log.
#[derive(Debug, Clone)]
pub struct XLogRecord {
    pub lsn: u64,
    pub txid: u32,
    pub record_type: XLogRecordType,
    pub block_id: u32,
    pub data: Vec<u8>,
    pub prev_lsn: u64,
}

impl View for XLogRecord {
    type V = XLogRecordView;

    open spec fn view(&self) -> XLogRecordView {
        XLogRecordView {
            lsn: self.lsn,
            txid: self.txid,
            record_type: self.record_type,
            block_id: self.block_id,
            data: self.data@,
            prev_lsn: self.prev_lsn,
        }
    }
}

impl XLogRecord {
    /// A record that has no place in the log yet.
    pub fn new(txid: u32, record_type: XLogRecordType, block_id: u32, data: Vec<u8>) -> (r: Self)
        ensures
            r@ == (XLogRecordView {
                lsn: 0,
                txid,
                record_type,
                block_id,
                data: data@,
                prev_lsn: 0,
            }),
    {
        Self { lsn: 0, txid, record_type, block_id, data, prev_lsn: 0 }
    }

    /// The length of the image.
    pub fn size(&self) -> (r: usize)
        requires
            self@.size() <= usize::MAX,
        ensures
            r == self@.size(),
    {
        8 + 8 + 1 + 4 + 4 + self.data.len()
    }

    /// The byte-exact image of the record.
    pub fn serialize(&self) -> (r: Vec<u8>)
        requires
            self@.size() <= usize::MAX,
        ensures
            r@ == self@.image(),
            r@.len() == self@.size(),
    {
        proof {
            lemma_auto_spec_u32_to_from_le_bytes();
            lemma_auto_spec_u64_to_from_le_bytes();
        }
        let mut buf = zeroed(self.size());
        let prev = u64_le(self.prev_lsn);
        put_bytes(&mut buf, 0, &prev);
        let lsn = u64_le(self.lsn);
        put_bytes(&mut buf, 8, &lsn);
        buf[16] = match self.record_type {
            XLogRecordType::HeapInsert => 1,
            XLogRecordType::HeapUpdate => 2,
            XLogRecordType::HeapDelete => 3,
            XLogRecordType::HeapVacuum => 4,
            XLogRecordType::TransactionCommit => 5,
            XLogRecordType::TransactionAbort => 6,
            XLogRecordType::Checkpoint => 7,
        };
        let txid = u32_le(self.txid);
        put_bytes(&mut buf, 17, &txid);
        let block = u32_le(self.block_id);
        put_bytes(&mut buf, 21, &block);
        put_bytes(&mut buf, 25, self.data.as_slice());
        assert(buf@ =~= self@.image());
        buf
    }

    /// Reads a record from `buf`. Fails with `CorruptedData` exactly when
    /// `buf` is shorter than the fixed part of a record or holds an unknown
    /// type code.
    pub fn deserialize(buf: &[u8]) -> (r: Result<Self, HeapError>)
        ensures
            match r {
                Ok(record) => XLogRecordView::parses(buf@) && record@ == XLogRecordView::parse(
                    buf@,
                ),
                Err(e) => !XLogRecordView::parses(buf@) && e is CorruptedData,
            },
    {
        if buf.len() < 17 {
            return Err(HeapError::CorruptedData("WAL record too small".to_string()));
        }
        let prev_lsn = read_u64_le(slice_subrange(buf, 0, 8));
        let lsn = read_u64_le(slice_subrange(buf, 8, 16));
        let code = buf[16];
        let record_type = if code == 1 {
            XLogRecordType::HeapInsert
        } else if code == 2 {
            XLogRecordType::HeapUpdate
        } else if code == 3 {
            XLogRecordType::HeapDelete
        } else if code == 4 {
            XLogRecordType::HeapVacuum
        } else if code == 5 {
            XLogRecordType::TransactionCommit
        } else if code == 6 {
            XLogRecordType::TransactionAbort
        } else if code == 7 {
            XLogRecordType::Checkpoint
        } else {
            return Err(HeapError::CorruptedData("Invalid WAL record type".to_string()));
        };
        if buf.len() < WAL_RECORD_HEADER_SIZE {
            return Err(HeapError::CorruptedData("WAL record too small".to_string()));
        }
        let txid = read_u32_le(slice_subrange(buf, 17, 21));
        let block_id = read_u32_le(slice_subrange(buf, 21, 25));
        let data = copy_range(buf, 25, buf.len());
        proof {
            assert(buf@.subrange(0, 8).subrange(0, 8) =~= buf@.subrange(0, 8));
            assert(buf@.subrange(8, 16).subrange(0, 8) =~= buf@.subrange(8, 16));
            assert(buf@.subrange(17, 21).subrange(0, 4) =~= buf@.subrange(17, 21));
            assert(buf@.subrange(21, 25).subrange(0, 4) =~= buf@.subrange(21, 25));
        }
        Ok(Self { lsn, txid, record_type, block_id, data, prev_lsn })
    }
}

/// Where an appended record goes: the new end of the log, and the segment
/// and the offset within it that this end falls on.
#[derive(Debug, Clone, Copy, PartialEq, Eq, Structural)]
pub struct WalPosition {
    pub lsn: u64,
    pub segment: u64,
    pub offset: u64,
}

/// The records that recovery finds in a buffer from `offset` on: one record
/// after the other, until the rest is shorter than 17 bytes or does not
/// parse.
pub open spec fn records_from(buf: Seq<u8>, offset: int) -> Seq<XLogRecordView>
    decreases buf.len() - offset,
{
    if offset < 0 || offset >= buf.len() || buf.len() - offset < 17 {
        Seq::empty()
    } else {
        let rest = buf.subrange(offset, buf.len() as int);
        if XLogRecordView::parses(rest) {
            seq![XLogRecordView::parse(rest)] + records_from(
                buf,
                offset + XLogRecordView::parse(rest).size(),
            )
        } else {
            Seq::empty()
        }
    }
}

/// The records that recovery finds in the first `n` segment buffers.
pub open spec fn records_in(segments: Seq<Vec<u8>>, n: nat) -> Seq<XLogRecordView>
    decreases n,
{
    if n == 0 {
        Seq::empty()
    } else {
        records_in(segments, (n - 1) as nat) + records_from(segments[n - 1]@, 0)
    }
}

/// The views of a sequence of records.
pub open spec fn views_of(records: Seq<XLogRecord>) -> Seq<XLogRecordView> {
    records.map_values(|r: XLogRecord| r@)
}

/// The ASCII digit of a value below sixteen, in upper case.
pub open spec fn hex_digit(d: nat) -> u8 {
    if d < 10 {
        (48 + d) as u8
    } else {
        (55 + d) as u8
    }
}

/// The numeral of `n` in upper-case hexadecimal, padded with zeros to at
/// least `width` digits.
pub open spec fn hex_padded(n: nat, width: nat) -> Seq<u8>
    decreases n + width,
{
    if n < 16 && width <= 1 {
        seq![hex_digit(n)]
    } else {
        hex_padded(
            n / 16,
            if width > 0 {
                (width - 1) as nat
            } else {
                0
            },
        ).push(hex_digit(n % 16))
    }
}

/// The extension of a segment file, in ASCII: `.wal`.
pub open spec fn segment_file_extension() -> Seq<u8> {
    seq![46u8, 119u8, 97u8, 108u8]
}

/// The name of the file of segment `segment`: the segment number in eight
/// or more hexadecimal digits, and the extension.
pub open spec fn segment_file_name(segment: u64) -> Seq<u8> {
    hex_padded(segment as nat, 8) + segment_file_extension()
}

fn push_hex(out: &mut Vec<u8>, n: u64, width: u32)
    ensures
        final(out)@ == old(out)@ + hex_padded(n as nat, width as nat),
    decreases n + width,
{
    if !(n < 16 && width <= 1) {
        push_hex(
            out,
            n / 16,
            if width > 0 {
                width - 1
            } else {
                0
            },
        );
    }
    let d = (n % 16) as u8;
    out.push(
        if d < 10 {
            48 + d
        } else {
            55 + d
        },
    );
    assert(out@ =~= old(out)@ + hex_padded(n as nat, width as nat));
}

/// The bookkeeping of the write-ahead log: how far the log reaches, and how
/// far the current transaction has written.
pub struct WAL {
    current_lsn: u64,
    current_txn_lsn: u64,
}

impl WAL {
    /// How far the log reaches.
    pub closed spec fn spec_lsn(&self) -> u64 {
        self.current_lsn
    }

    /// How far the current transaction has written.
    pub closed spec fn spec_txn_lsn(&self) -> u64 {
        self.current_txn_lsn
    }

    /// An empty log. The call always succeeds.
    pub fn new() -> (r: Result<Self, HeapError>)
        ensures
            r is Ok,
            r->Ok_0.spec_lsn() == 0,
            r->Ok_0.spec_txn_lsn() == 0,
    {
        Ok(Self { current_lsn: 0, current_txn_lsn: 0 })
    }

    /// The segment that a log sequence number falls on.
    pub fn segment_of(lsn: u64) -> (r: u64)
        ensures
            r == lsn / WAL_SEGMENT_SIZE,
    {
        lsn / WAL_SEGMENT_SIZE
    }

    /// The offset of a log sequence number within its segment.
    pub fn offset_in_segment(lsn: u64) -> (r: u64)
        ensures
            r == lsn % WAL_SEGMENT_SIZE,
    {
        lsn % WAL_SEGMENT_SIZE
    }

    /// The name of the file that holds the segment on which the log ends, in
    /// ASCII.
    pub fn segment_file(&self) -> (r: Vec<u8>)
        ensures
            r@ == segment_file_name(self.spec_lsn() / WAL_SEGMENT_SIZE),
    {
        let mut name: Vec<u8> = Vec::new();
        push_hex(&mut name, Self::segment_of(self.current_lsn), 8);
        name.push(46);
        name.push(119);
        name.push(97);
        name.push(108);
        assert(name@ =~= segment_file_name(self.spec_lsn() / WAL_SEGMENT_SIZE));
        name
    }

    /// Appends a record: the log grows by the size of the record, and the
    /// new end of the log is returned.
    pub fn append(&mut self, record: &XLogRecord) -> (r: Result<u64, HeapError>)
        requires
            record@.size() <= usize::MAX,
            old(self).spec_lsn() + record@.size() <= u64::MAX,
        ensures
            r == Ok::<u64, HeapError>((old(self).spec_lsn() + record@.size()) as u64),
            final(self).spec_lsn() == old(self).spec_lsn() + record@.size(),
            final(self).spec_txn_lsn() == old(self).spec_txn_lsn(),
    {
        let new_lsn = self.current_lsn + record.size() as u64;
        self.current_lsn = new_lsn;
        Ok(new_lsn)
    }

    /// Where the log ends, with the segment and the offset that this end
    /// falls on.
    pub fn position(&self) -> (r: WalPosition)
        ensures
            r.lsn == self.spec_lsn(),
            r.segment == self.spec_lsn() / WAL_SEGMENT_SIZE,
            r.offset == self.spec_lsn() % WAL_SEGMENT_SIZE,
    {
        WalPosition {
            lsn: self.current_lsn,
            segment: Self::segment_of(self.current_lsn),
            offset: Self::offset_in_segment(self.current_lsn),
        }
    }

    /// Ends the writing of a transaction: returns how far it has written,
    /// and starts over at zero.
    pub fn flush(&mut self, txid: u32) -> (r: Result<u64, HeapError>)
        ensures
            r == Ok::<u64, HeapError>(old(self).spec_txn_lsn()),
            final(self).spec_txn_lsn() == 0,
            final(self).spec_lsn() == old(self).spec_lsn(),
    {
        let lsn = self.current_txn_lsn;
        self.current_txn_lsn = 0;
        Ok(lsn)
    }

    pub fn get_lsn(&self) -> (r: u64)
        ensures
            r == self.spec_lsn(),
    {
        self.current_lsn
    }

    /// The records in one buffer read from a segment.
    pub fn records_of(buf: &[u8]) -> (r: Vec<XLogRecord>)
        ensures
            views_of(r@) == records_from(buf@, 0),
    {
        let mut records: Vec<XLogRecord> = Vec::new();
        let mut offset: usize = 0;
        assert(views_of(records@) =~= Seq::<XLogRecordView>::empty());
        while offset < buf.len() && buf.len() - offset >= 17
            invariant
                offset <= buf@.len(),
                views_of(records@) + records_from(buf@, offset as int) == records_from(buf@, 0),
            decreases buf@.len() - offset,
        {
            let rest = slice_subrange(buf, offset, buf.len());
            match XLogRecord::deserialize(rest) {
                Ok(record) => {
                    let size = record.size();
                    let ghost before = views_of(records@);
                    let ghost view = record@;
                    records.push(record);
                    proof {
                        assert(views_of(records@) =~= before.push(view));
                        assert(before.push(view) + records_from(buf@, offset + size) =~= before
                            + (seq![view] + records_from(buf@, offset + size)));
                    }
                    offset = offset + size;
                },
                Err(_) => {
                    proof {
                        assert(records_from(buf@, offset as int) =~= Seq::<XLogRecordView>::empty());
                        assert(views_of(records@) + Seq::<XLogRecordView>::empty() =~= views_of(
                            records@,
                        ));
                    }
                    return records;
                },
            }
        }
        proof {
            assert(records_from(buf@, offset as int) =~= Seq::<XLogRecordView>::empty());
            assert(views_of(records@) + Seq::<XLogRecordView>::empty() =~= views_of(records@));
        }
        records
    }

    /// The records in the buffers that were read from the segments of the
    /// log, the segments in ascending order.
    pub fn recover(&self, segments: &Vec<Vec<u8>>) -> (r: Result<Vec<XLogRecord>, HeapError>)
        ensures
            r is Ok,
            views_of(r->Ok_0@) == records_in(segments@, segments@.len()),
    {
        let mut records: Vec<XLogRecord> = Vec::new();
        let mut i: usize = 0;
        assert(views_of(records@) =~= Seq::<XLogRecordView>::empty());
        while i < segments.len()
            invariant
                i <= segments.len(),
                views_of(records@) == records_in(segments@, i as nat),
            decreases segments.len() - i,
        {
            let mut found = Self::records_of(segments[i].as_slice());
            let ghost before = views_of(records@);
            let ghost added = views_of(found@);
            records.append(&mut found);
            assert(views_of(records@) =~= before + added);
            i += 1;
        }
        Ok(records)
    }
}

} // verus!
