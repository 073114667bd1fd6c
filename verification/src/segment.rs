//! The record format of file-segmented WAL storage: each record is
//! `u32 len || u64 msg_id || u32 crc32(msg_id || frame_bytes) || frame_bytes`,
//! little-endian. The file I/O around it lives outside the library; the
//! bytes themselves are encoded and checked here.

use vstd::prelude::*;

use crate::checksum::crc32;
use crate::checksum::crc32_of;
use crate::storage::StorageError;
use vstd::bytes::spec_u32_to_le_bytes;
use vstd::bytes::spec_u32_from_le_bytes;
use vstd::bytes::spec_u64_to_le_bytes;
use vstd::bytes::spec_u64_from_le_bytes;
use vstd::bytes::u32_to_le_bytes;
use vstd::bytes::u64_to_le_bytes;
use vstd::bytes::u32_from_le_bytes;
use vstd::bytes::u64_from_le_bytes;
use vstd::bytes::lemma_auto_spec_u32_to_from_le_bytes;
use vstd::bytes::lemma_auto_spec_u64_to_from_le_bytes;

verus! {

/// Size of a record header: length, message ID and checksum.
pub const SEGMENT_HEADER_SIZE: usize = 16;

/// The bytes whose CRC32 a record stores: the little-endian message ID
/// followed by the frame bytes.
pub open spec fn spec_record_crc_input(msg_id: u64, frame: Seq<u8>) -> Seq<u8> {
    spec_u64_to_le_bytes(msg_id) + frame
}

/// The bytes of one segment record.
pub open spec fn spec_record_bytes(msg_id: u64, frame: Seq<u8>) -> Seq<u8>
    recommends
        frame.len() <= u32::MAX,
{
    spec_u32_to_le_bytes(frame.len() as u32) + spec_u64_to_le_bytes(msg_id) + spec_u32_to_le_bytes(
        crc32_of(spec_record_crc_input(msg_id, frame)),
    ) + frame
}

/// Append one segment record for `msg_id` with the given frame bytes.
pub fn encode_record(msg_id: u64, frame: &[u8], out: &mut Vec<u8>)
    requires
        frame@.len() <= u32::MAX,
    ensures
        final(out)@ == old(out)@ + spec_record_bytes(msg_id, frame@),
{
    let mut crc_input: Vec<u8> = Vec::new();
    let id_bytes = u64_to_le_bytes(msg_id);
    crate::meta::append_bytes(&mut crc_input, id_bytes.as_slice());
    crate::meta::append_bytes(&mut crc_input, frame);
    assert(crc_input@ =~= spec_record_crc_input(msg_id, frame@));
    let crc = crc32(crc_input.as_slice());
    let len_bytes = u32_to_le_bytes(frame.len() as u32);
    crate::meta::append_bytes(out, len_bytes.as_slice());
    crate::meta::append_bytes(out, id_bytes.as_slice());
    let crc_bytes = u32_to_le_bytes(crc);
    crate::meta::append_bytes(out, crc_bytes.as_slice());
    crate::meta::append_bytes(out, frame);
    assert(out@ =~= old(out)@ + spec_record_bytes(msg_id, frame@));
}

/// What decoding a record at `pos` yields: `None` when the buffer holds no
/// complete record there, the declared message ID and frame bytes with the
/// position after them when the record is complete, whether or not its
/// checksum is right.
pub open spec fn spec_record_decode(s: Seq<u8>, pos: int) -> Option<(u64, Seq<u8>, int)> {
    if pos < 0 || s.len() - pos < SEGMENT_HEADER_SIZE {
        None
    } else {
        let len = spec_u32_from_le_bytes(s.subrange(pos, pos + 4)) as int;
        let msg_id = spec_u64_from_le_bytes(s.subrange(pos + 4, pos + 12));
        if s.len() - (pos + SEGMENT_HEADER_SIZE) < len {
            None
        } else {
            Some(
                (
                    msg_id,
                    s.subrange(pos + SEGMENT_HEADER_SIZE, pos + SEGMENT_HEADER_SIZE + len),
                    pos + SEGMENT_HEADER_SIZE + len,
                ),
            )
        }
    }
}

/// The stored checksum of the record at `pos`.
pub open spec fn spec_record_stored_crc(s: Seq<u8>, pos: int) -> u32 {
    spec_u32_from_le_bytes(s.subrange(pos + 12, pos + 16))
}

/// Decode and check one record at `pos` of `buf`. Yields `Ok(None)` when
/// no complete record starts there, the record and the position after it
/// when its checksum matches, and a corruption error exactly when a
/// complete record's checksum does not match its contents.
pub fn decode_record(buf: &[u8], pos: usize) -> (r: Result<
    Option<(u64, Vec<u8>, usize)>,
    StorageError,
>)
    ensures
        match r {
            Ok(None) => spec_record_decode(buf@, pos as int) is None,
            Ok(Some((msg_id, frame, end))) => spec_record_decode(buf@, pos as int) == Some(
                (msg_id, frame@, end as int),
            ) && spec_record_stored_crc(buf@, pos as int) == crc32_of(
                spec_record_crc_input(msg_id, frame@),
            ) && end <= buf@.len(),
            Err(e) => (e matches StorageError::Corruption(_)) && (spec_record_decode(
                buf@,
                pos as int,
            ) matches Some((msg_id, frame, _)) && spec_record_stored_crc(buf@, pos as int)
                != crc32_of(spec_record_crc_input(msg_id, frame))),
        },
{
    if pos > buf.len() || buf.len() - pos < SEGMENT_HEADER_SIZE {
        return Ok(None);
    }
    let len_bytes = crate::frame::slice_range(buf, pos, pos + 4);
    let len = u32_from_le_bytes(len_bytes) as usize;
    let id_bytes = crate::frame::slice_range(buf, pos + 4, pos + 12);
    let msg_id = u64_from_le_bytes(id_bytes);
    let crc_bytes = crate::frame::slice_range(buf, pos + 12, pos + 16);
    let stored_crc = u32_from_le_bytes(crc_bytes);
    if buf.len() - (pos + SEGMENT_HEADER_SIZE) < len {
        return Ok(None);
    }
    let frame = crate::meta::copy_range(buf, pos + SEGMENT_HEADER_SIZE, len);
    let mut crc_input: Vec<u8> = Vec::new();
    let id_le = u64_to_le_bytes(msg_id);
    crate::meta::append_bytes(&mut crc_input, id_le.as_slice());
    crate::meta::append_bytes(&mut crc_input, frame.as_slice());
    assert(crc_input@ =~= spec_record_crc_input(msg_id, frame@));
    let crc = crc32(crc_input.as_slice());
    if crc != stored_crc {
        return Err(
            StorageError::Corruption(String::new()),
        );
    }
    Ok(Some((msg_id, frame, pos + SEGMENT_HEADER_SIZE + len)))
}

/// Decoding an encoded record restores its message ID and frame bytes,
/// and the stored checksum matches by construction.
pub proof fn lemma_record_round_trip(msg_id: u64, frame: Seq<u8>, s: Seq<u8>, pos: int)
    requires
        frame.len() <= u32::MAX,
        0 <= pos,
        pos + spec_record_bytes(msg_id, frame).len() <= s.len(),
        s.subrange(pos, pos + spec_record_bytes(msg_id, frame).len()) == spec_record_bytes(
            msg_id,
            frame,
        ),
    ensures
        spec_record_decode(s, pos) == Some(
            (msg_id, frame, pos + SEGMENT_HEADER_SIZE + frame.len()),
        ),
        spec_record_stored_crc(s, pos) == crc32_of(spec_record_crc_input(msg_id, frame)),
{
    lemma_auto_spec_u32_to_from_le_bytes();
    lemma_auto_spec_u64_to_from_le_bytes();
    let enc = spec_record_bytes(msg_id, frame);
    let sub = s.subrange(pos, pos + enc.len());
    assert(enc.len() == SEGMENT_HEADER_SIZE + frame.len());
    assert(s.subrange(pos, pos + 4) =~= spec_u32_to_le_bytes(frame.len() as u32)) by {
        assert(forall|i: int|
            0 <= i < 4 ==> #[trigger] s.subrange(pos, pos + 4)[i] == sub[i]);
    }
    assert(s.subrange(pos + 4, pos + 12) =~= spec_u64_to_le_bytes(msg_id)) by {
        assert(forall|i: int|
            0 <= i < 8 ==> #[trigger] s.subrange(pos + 4, pos + 12)[i] == sub[i + 4]);
    }
    assert(s.subrange(pos + 12, pos + 16) =~= spec_u32_to_le_bytes(
        crc32_of(spec_record_crc_input(msg_id, frame)),
    )) by {
        assert(forall|i: int|
            0 <= i < 4 ==> #[trigger] s.subrange(pos + 12, pos + 16)[i] == sub[i + 12]);
    }
    assert(s.subrange(pos + 16, pos + 16 + frame.len()) =~= frame) by {
        assert(forall|i: int|
            0 <= i < frame.len() ==> #[trigger] s.subrange(pos + 16, pos + 16 + frame.len())[i]
                == sub[i + 16]);
    }
}

} // verus!
