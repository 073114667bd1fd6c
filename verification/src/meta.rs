//! Canonical CBOR metadata: a map from text keys to text, byte-string,
//! unsigned-integer or boolean values, with keys sorted by byte
//! lexicographic order and all lengths in shortest form.
//!
//! Keys and text values are carried as their UTF-8 bytes.

use vstd::prelude::*;

use crate::bytes_be::spec_u16_be;
use crate::bytes_be::spec_u16_from_be;
use crate::bytes_be::spec_u32_be;
use crate::bytes_be::spec_u32_from_be;
use crate::bytes_be::spec_u64_be;
use crate::bytes_be::spec_u64_from_be;
use crate::bytes_be::u16_to_be_bytes;
use crate::bytes_be::u32_to_be_bytes;
use crate::bytes_be::u64_to_be_bytes;
use crate::bytes_be::u16_from_be_bytes;
use crate::bytes_be::u32_from_be_bytes;
use crate::bytes_be::u64_from_be_bytes;
use crate::bytes_be::lemma_u16_be_round_trip;
use crate::bytes_be::lemma_u32_be_round_trip;
use crate::bytes_be::lemma_u64_be_round_trip;
use crate::errors::CodecError;
use vstd::string::StringSliceAdditionalSpecFns;
use vstd::string::StrSliceExecFns;

verus! {

/// Initial byte of an unsigned integer (CBOR major type 0).
pub const CBOR_BASE_UINT: u8 = 0x00;

/// Initial byte of a byte string (CBOR major type 2).
pub const CBOR_BASE_BYTES: u8 = 0x40;

/// Initial byte of a text string (CBOR major type 3).
pub const CBOR_BASE_TEXT: u8 = 0x60;

/// Initial byte of a map (CBOR major type 5).
pub const CBOR_BASE_MAP: u8 = 0xA0;

/// Encoding of `false` (CBOR simple value 20).
pub const CBOR_FALSE: u8 = 0xF4;

/// Encoding of `true` (CBOR simple value 21).
pub const CBOR_TRUE: u8 = 0xF5;

/// A metadata value: UTF-8 text (held as bytes), raw bytes, an unsigned
/// integer, or a boolean.
#[derive(Debug, Clone, PartialEq, Eq)]
pub enum MetaValue {
    /// A text string, held as its UTF-8 bytes.
    Text(Vec<u8>),
    /// A byte string.
    Bytes(Vec<u8>),
    /// An unsigned integer.
    U64(u64),
    /// A boolean.
    Bool(bool),
}

/// The mathematical value of a metadata value.
pub enum MetaValueView {
    /// A text string as a byte sequence.
    Text(Seq<u8>),
    /// A byte string as a byte sequence.
    Bytes(Seq<u8>),
    /// An unsigned integer.
    U64(u64),
    /// A boolean.
    Bool(bool),
}

impl View for MetaValue {
    type V = MetaValueView;

    open spec fn view(&self) -> MetaValueView {
        match self {
            MetaValue::Text(t) => MetaValueView::Text(t@),
            MetaValue::Bytes(b) => MetaValueView::Bytes(b@),
            MetaValue::U64(n) => MetaValueView::U64(*n),
            MetaValue::Bool(b) => MetaValueView::Bool(*b),
        }
    }
}

/// The head of a CBOR item: the base byte of the major type plus the
/// unsigned argument in shortest form.
pub open spec fn spec_cbor_head(base: u8, n: u64) -> Seq<u8>
    recommends
        base == CBOR_BASE_UINT || base == CBOR_BASE_BYTES || base == CBOR_BASE_TEXT || base
            == CBOR_BASE_MAP,
{
    if n < 24 {
        seq![(base + n) as u8]
    } else if n <= 0xFF {
        seq![(base + 24) as u8, n as u8]
    } else if n <= 0xFFFF {
        seq![(base + 25) as u8] + spec_u16_be(n as u16)
    } else if n <= 0xFFFF_FFFF {
        seq![(base + 26) as u8] + spec_u32_be(n as u32)
    } else {
        seq![(base + 27) as u8] + spec_u64_be(n)
    }
}

/// The encoding of one metadata value.
pub open spec fn spec_encode_value(v: MetaValueView) -> Seq<u8> {
    match v {
        MetaValueView::U64(n) => spec_cbor_head(CBOR_BASE_UINT, n),
        MetaValueView::Bytes(b) => spec_cbor_head(CBOR_BASE_BYTES, b.len() as u64) + b,
        MetaValueView::Text(t) => spec_cbor_head(CBOR_BASE_TEXT, t.len() as u64) + t,
        MetaValueView::Bool(b) => if b {
            seq![CBOR_TRUE]
        } else {
            seq![CBOR_FALSE]
        },
    }
}

/// The encoding of one map entry: a text key followed by its value.
pub open spec fn spec_encode_entry(key: Seq<u8>, v: MetaValueView) -> Seq<u8> {
    spec_cbor_head(CBOR_BASE_TEXT, key.len() as u64) + key + spec_encode_value(v)
}

/// The concatenated encodings of a sequence of map entries.
pub open spec fn spec_encode_entries(entries: Seq<(Seq<u8>, MetaValueView)>) -> Seq<u8>
    decreases entries.len(),
{
    if entries.len() == 0 {
        Seq::<u8>::empty()
    } else {
        spec_encode_entry(entries[0].0, entries[0].1) + spec_encode_entries(
            entries.subrange(1, entries.len() as int),
        )
    }
}

/// The encoding of a whole metadata map.
pub open spec fn spec_encode_map(entries: Seq<(Seq<u8>, MetaValueView)>) -> Seq<u8> {
    spec_cbor_head(CBOR_BASE_MAP, entries.len() as u64) + spec_encode_entries(entries)
}

/// Append the CBOR head for argument `n` of the major type with base byte
/// `base` to `out`.
pub fn cbor_head_encode(base: u8, n: u64, out: &mut Vec<u8>)
    requires
        base == CBOR_BASE_UINT || base == CBOR_BASE_BYTES || base == CBOR_BASE_TEXT || base
            == CBOR_BASE_MAP,
    ensures
        final(out)@ == old(out)@ + spec_cbor_head(base, n),
{
    if n < 24 {
        out.push(base + (n as u8));
        assert(out@ =~= old(out)@ + spec_cbor_head(base, n));
    } else if n <= 0xFF {
        out.push(base + 24);
        out.push(n as u8);
        assert(out@ =~= old(out)@ + spec_cbor_head(base, n));
    } else if n <= 0xFFFF {
        out.push(base + 25);
        u16_to_be_bytes(n as u16, out);
        assert(out@ =~= old(out)@ + spec_cbor_head(base, n));
    } else if n <= 0xFFFF_FFFF {
        out.push(base + 26);
        u32_to_be_bytes(n as u32, out);
        assert(out@ =~= old(out)@ + spec_cbor_head(base, n));
    } else {
        out.push(base + 27);
        u64_to_be_bytes(n, out);
        assert(out@ =~= old(out)@ + spec_cbor_head(base, n));
    }
}

/// Append all of `data` to `out`.
pub fn append_bytes(out: &mut Vec<u8>, data: &[u8])
    ensures
        final(out)@ == old(out)@ + data@,
{
    let mut i: usize = 0;
    while i < data.len()
        invariant
            i <= data@.len(),
            out@ == old(out)@ + data@.subrange(0, i as int),
        decreases data@.len() - i,
    {
        out.push(data[i]);
        i = i + 1;
        assert(out@ =~= old(out)@ + data@.subrange(0, i as int));
    }
    assert(out@ =~= old(out)@ + data@);
}

/// Append the encoding of one metadata value to `out`.
pub fn encode_value(v: &MetaValue, out: &mut Vec<u8>)
    ensures
        final(out)@ == old(out)@ + spec_encode_value(v@),
{
    match v {
        MetaValue::U64(n) => {
            cbor_head_encode(CBOR_BASE_UINT, *n, out);
        },
        MetaValue::Bytes(b) => {
            cbor_head_encode(CBOR_BASE_BYTES, b.len() as u64, out);
            append_bytes(out, b.as_slice());
            assert(out@ =~= old(out)@ + spec_encode_value(v@));
        },
        MetaValue::Text(t) => {
            cbor_head_encode(CBOR_BASE_TEXT, t.len() as u64, out);
            append_bytes(out, t.as_slice());
            assert(out@ =~= old(out)@ + spec_encode_value(v@));
        },
        MetaValue::Bool(b) => {
            if *b {
                out.push(CBOR_TRUE);
            } else {
                out.push(CBOR_FALSE);
            }
            assert(out@ =~= old(out)@ + spec_encode_value(v@));
        },
    }
}

/// What decoding a CBOR head at `pos` of `s` yields: the base byte of the
/// major type, the argument, and the position after the head. Rejects
/// arguments not in shortest form and indefinite lengths.
pub open spec fn spec_cbor_head_decode(s: Seq<u8>, pos: int) -> Option<(u8, u64, int)> {
    if pos < 0 || pos >= s.len() {
        None
    } else {
        let b = s[pos];
        let base = (b & 0xE0) as u8;
        let ai = (b & 0x1F) as u8;
        if ai < 24 {
            Some((base, ai as u64, pos + 1))
        } else if ai == 24 {
            if pos + 2 <= s.len() && s[pos + 1] >= 24 {
                Some((base, s[pos + 1] as u64, pos + 2))
            } else {
                None
            }
        } else if ai == 25 {
            if pos + 3 <= s.len() && spec_u16_from_be(s.subrange(pos + 1, pos + 3)) > 0xFF {
                Some((base, spec_u16_from_be(s.subrange(pos + 1, pos + 3)) as u64, pos + 3))
            } else {
                None
            }
        } else if ai == 26 {
            if pos + 5 <= s.len() && spec_u32_from_be(s.subrange(pos + 1, pos + 5)) > 0xFFFF {
                Some((base, spec_u32_from_be(s.subrange(pos + 1, pos + 5)) as u64, pos + 5))
            } else {
                None
            }
        } else if ai == 27 {
            if pos + 9 <= s.len() && spec_u64_from_be(s.subrange(pos + 1, pos + 9)) > 0xFFFF_FFFF {
                Some((base, spec_u64_from_be(s.subrange(pos + 1, pos + 9)), pos + 9))
            } else {
                None
            }
        } else {
            None
        }
    }
}

/// What decoding one metadata value at `pos` of `s` yields: the value and
/// the position after it.
pub open spec fn spec_decode_value(s: Seq<u8>, pos: int) -> Option<(MetaValueView, int)> {
    if pos < 0 || pos >= s.len() {
        None
    } else if s[pos] == CBOR_FALSE {
        Some((MetaValueView::Bool(false), pos + 1))
    } else if s[pos] == CBOR_TRUE {
        Some((MetaValueView::Bool(true), pos + 1))
    } else {
        match spec_cbor_head_decode(s, pos) {
            None => None,
            Some((base, n, p)) => {
                if base == CBOR_BASE_UINT {
                    Some((MetaValueView::U64(n), p))
                } else if base == CBOR_BASE_BYTES {
                    if p + n <= s.len() {
                        Some((MetaValueView::Bytes(s.subrange(p, p + n)), p + n))
                    } else {
                        None
                    }
                } else if base == CBOR_BASE_TEXT {
                    if p + n <= s.len() {
                        Some((MetaValueView::Text(s.subrange(p, p + n)), p + n))
                    } else {
                        None
                    }
                } else {
                    None
                }
            },
        }
    }
}

/// What decoding `count` map entries starting at `pos` of `s` yields: the
/// entries and the position after them. Each entry is a text key followed
/// by a value.
pub open spec fn spec_decode_entries(s: Seq<u8>, pos: int, count: nat) -> Option<
    (Seq<(Seq<u8>, MetaValueView)>, int),
>
    decreases count,
{
    if count == 0 {
        Some((Seq::<(Seq<u8>, MetaValueView)>::empty(), pos))
    } else {
        match spec_cbor_head_decode(s, pos) {
            None => None,
            Some((base, n, p)) => {
                if base == CBOR_BASE_TEXT && p + n <= s.len() {
                    let key = s.subrange(p, p + n);
                    match spec_decode_value(s, p + n) {
                        None => None,
                        Some((v, p2)) => {
                            match spec_decode_entries(s, p2, (count - 1) as nat) {
                                None => None,
                                Some((rest, end)) => Some(
                                    (seq![(key, v)] + rest, end),
                                ),
                            }
                        },
                    }
                } else {
                    None
                }
            },
        }
    }
}

/// What decoding a whole metadata buffer yields: the map entries, in the
/// order they stand in the buffer. The buffer must hold exactly one map
/// and nothing after it.
pub open spec fn spec_decode_map(s: Seq<u8>) -> Option<Seq<(Seq<u8>, MetaValueView)>> {
    match spec_cbor_head_decode(s, 0) {
        None => None,
        Some((base, n, p)) => {
            if base == CBOR_BASE_MAP {
                match spec_decode_entries(s, p, n as nat) {
                    None => None,
                    Some((entries, end)) => {
                        if end == s.len() {
                            Some(entries)
                        } else {
                            None
                        }
                    },
                }
            } else {
                None
            }
        },
    }
}

/// Decode a CBOR head at `pos` of `buf`.
pub fn cbor_head_decode(buf: &[u8], pos: usize) -> (r: Option<(u8, u64, usize)>)
    ensures
        match r {
            None => spec_cbor_head_decode(buf@, pos as int) is None,
            Some((base, n, p)) => spec_cbor_head_decode(buf@, pos as int) == Some(
                (base, n, p as int),
            ) && pos < p <= buf@.len(),
        },
{
    if pos >= buf.len() {
        return None;
    }
    let b = buf[pos];
    let base = b & 0xE0;
    let ai = b & 0x1F;
    assert(ai < 32) by (bit_vector)
        requires
            ai == b & 0x1F,
    ;
    if ai < 24 {
        Some((base, ai as u64, pos + 1))
    } else if ai == 24 {
        if buf.len() - pos >= 2 && buf[pos + 1] >= 24 {
            Some((base, buf[pos + 1] as u64, pos + 2))
        } else {
            None
        }
    } else if ai == 25 {
        if buf.len() - pos >= 3 {
            let n = u16_from_be_bytes(buf, pos + 1);
            if n > 0xFF {
                Some((base, n as u64, pos + 3))
            } else {
                None
            }
        } else {
            None
        }
    } else if ai == 26 {
        if buf.len() - pos >= 5 {
            let n = u32_from_be_bytes(buf, pos + 1);
            if n > 0xFFFF {
                Some((base, n as u64, pos + 5))
            } else {
                None
            }
        } else {
            None
        }
    } else if ai == 27 {
        if buf.len() - pos >= 9 {
            let n = u64_from_be_bytes(buf, pos + 1);
            if n > 0xFFFF_FFFF {
                Some((base, n, pos + 9))
            } else {
                None
            }
        } else {
            None
        }
    } else {
        None
    }
}

/// Copy `buf[pos .. pos + n]` into a fresh vector.
pub fn copy_range(buf: &[u8], pos: usize, n: usize) -> (r: Vec<u8>)
    requires
        pos + n <= buf@.len(),
    ensures
        r@ == buf@.subrange(pos as int, pos + n),
{
    let mut out: Vec<u8> = Vec::new();
    let blen = buf.len();
    let mut i: usize = 0;
    while i < n
        invariant
            i <= n,
            pos + n <= buf@.len(),
            blen == buf@.len(),
            out@ == buf@.subrange(pos as int, pos + i),
        decreases n - i,
    {
        out.push(buf[pos + i]);
        i = i + 1;
        assert(out@ =~= buf@.subrange(pos as int, pos + i));
    }
    out
}

/// Decode one metadata value at `pos` of `buf`.
pub fn decode_value(buf: &[u8], pos: usize) -> (r: Option<(MetaValue, usize)>)
    ensures
        match r {
            None => spec_decode_value(buf@, pos as int) is None,
            Some((v, p)) => spec_decode_value(buf@, pos as int) == Some((v@, p as int)) && pos < p
                <= buf@.len(),
        },
{
    if pos >= buf.len() {
        return None;
    }
    let b = buf[pos];
    if b == CBOR_FALSE {
        return Some((MetaValue::Bool(false), pos + 1));
    }
    if b == CBOR_TRUE {
        return Some((MetaValue::Bool(true), pos + 1));
    }
    match cbor_head_decode(buf, pos) {
        None => None,
        Some((base, n, p)) => {
            if base == CBOR_BASE_UINT {
                Some((MetaValue::U64(n), p))
            } else if base == CBOR_BASE_BYTES {
                if n <= (buf.len() - p) as u64 {
                    let len = n as usize;
                    Some((MetaValue::Bytes(copy_range(buf, p, len)), p + len))
                } else {
                    None
                }
            } else if base == CBOR_BASE_TEXT {
                if n <= (buf.len() - p) as u64 {
                    let len = n as usize;
                    Some((MetaValue::Text(copy_range(buf, p, len)), p + len))
                } else {
                    None
                }
            } else {
                None
            }
        },
    }
}

/// The mathematical value of a metadata map: its entries in order, each a
/// key with its value.
pub open spec fn entries_view(entries: Seq<(Vec<u8>, MetaValue)>) -> Seq<(Seq<u8>, MetaValueView)> {
    entries.map_values(|e: (Vec<u8>, MetaValue)| (e.0@, e.1@))
}

/// A parsed metadata map: entries in the order they stand in the buffer.
#[derive(Debug, Clone, PartialEq, Eq)]
pub struct MetaMap {
    /// The key-value entries.
    pub entries: Vec<(Vec<u8>, MetaValue)>,
}

impl View for MetaMap {
    type V = Seq<(Seq<u8>, MetaValueView)>;

    open spec fn view(&self) -> Seq<(Seq<u8>, MetaValueView)> {
        entries_view(self.entries@)
    }
}

/// The value under `key`, taking the last entry with that key, as a
/// `BTreeMap` built from the entries in order would.
pub open spec fn spec_meta_lookup(entries: Seq<(Seq<u8>, MetaValueView)>, key: Seq<u8>) -> Option<
    MetaValueView,
>
    decreases entries.len(),
{
    if entries.len() == 0 {
        None
    } else if entries.last().0 == key {
        Some(entries.last().1)
    } else {
        spec_meta_lookup(entries.drop_last(), key)
    }
}

impl MetaMap {
    /// An empty map.
    pub fn new() -> (r: MetaMap)
        ensures
            r@ =~= Seq::<(Seq<u8>, MetaValueView)>::empty(),
    {
        MetaMap { entries: Vec::new() }
    }

    /// Look up the value under `key`; of several entries with the same key
    /// the last one counts.
    pub fn get(&self, key: &[u8]) -> (r: Option<&MetaValue>)
        ensures
            match r {
                None => spec_meta_lookup(self@, key@) is None,
                Some(v) => spec_meta_lookup(self@, key@) == Some(v@),
            },
    {
        let n = self.entries.len();
        assert(entries_view(self.entries@).subrange(0, n as int) =~= entries_view(
            self.entries@,
        ));
        let mut i: usize = n;
        while i > 0
            invariant
                i <= n,
                n == self.entries@.len(),
                spec_meta_lookup(self@, key@) == spec_meta_lookup(
                    entries_view(self.entries@).subrange(0, i as int),
                    key@,
                ),
            decreases i,
        {
            i = i - 1;
            let ghost prefix = entries_view(self.entries@).subrange(0, i + 1);
            assert(prefix.last() == (self.entries@[i as int].0@, self.entries@[i as int].1@));
            assert(prefix.drop_last() =~= entries_view(self.entries@).subrange(0, i as int));
            if bytes_eq(self.entries[i].0.as_slice(), key) {
                return Some(&self.entries[i].1);
            }
        }
        assert(entries_view(self.entries@).subrange(0, 0) =~= Seq::<
            (Seq<u8>, MetaValueView),
        >::empty());
        None
    }
}

/// Whether two byte slices hold the same bytes.
pub fn bytes_eq(a: &[u8], b: &[u8]) -> (r: bool)
    ensures
        r == (a@ == b@),
{
    if a.len() != b.len() {
        assert(a@ != b@) by {
            assert(a@.len() != b@.len());
        }
        return false;
    }
    let mut i: usize = 0;
    while i < a.len()
        invariant
            i <= a@.len(),
            a@.len() == b@.len(),
            forall|j: int| 0 <= j < i ==> a@[j] == b@[j],
        decreases a@.len() - i,
    {
        if a[i] != b[i] {
            return false;
        }
        i = i + 1;
    }
    assert(a@ =~= b@);
    true
}

/// Decode a metadata buffer into its map entries; `Err(MetaDecode)` exactly
/// when the buffer is not one well-formed map.
pub fn parse_meta(meta_raw: &[u8]) -> (r: Result<MetaMap, CodecError>)
    ensures
        match r {
            Ok(m) => spec_decode_map(meta_raw@) == Some(m@),
            Err(e) => spec_decode_map(meta_raw@) is None && e == CodecError::MetaDecode,
        },
{
    let head = match cbor_head_decode(meta_raw, 0) {
        None => {
            return Err(CodecError::MetaDecode);
        },
        Some(h) => h,
    };
    let (base, count, mut pos) = head;
    if base != CBOR_BASE_MAP {
        return Err(CodecError::MetaDecode);
    }
    let mut entries: Vec<(Vec<u8>, MetaValue)> = Vec::new();
    let mut remaining = count;
    let ghost s = meta_raw@;
    while remaining > 0
        invariant
            spec_cbor_head_decode(s, 0) == Some((CBOR_BASE_MAP, count, head.2 as int)),
            base == CBOR_BASE_MAP,
            s == meta_raw@,
            pos <= s.len(),
            remaining <= count,
            spec_decode_entries(s, head.2 as int, count as nat) == (match spec_decode_entries(
                s,
                pos as int,
                remaining as nat,
            ) {
                None => None::<(Seq<(Seq<u8>, MetaValueView)>, int)>,
                Some((rest, end)) => Some((entries_view(entries@) + rest, end)),
            }),
        decreases remaining,
    {
        let ghost entries_old = entries@;
        let key_head = match cbor_head_decode(meta_raw, pos) {
            None => {
                return Err(CodecError::MetaDecode);
            },
            Some(h) => h,
        };
        let (kbase, klen, kpos) = key_head;
        if kbase != CBOR_BASE_TEXT {
            return Err(CodecError::MetaDecode);
        }
        if klen > (meta_raw.len() - kpos) as u64 {
            return Err(CodecError::MetaDecode);
        }
        let klen_usize = klen as usize;
        let key = copy_range(meta_raw, kpos, klen_usize);
        let after_key = kpos + klen_usize;
        let (value, vend) = match decode_value(meta_raw, after_key) {
            None => {
                return Err(CodecError::MetaDecode);
            },
            Some(v) => v,
        };
        entries.push((key, value));
        assert(entries_view(entries@) =~= entries_view(entries_old).push(
            (entries@.last().0@, entries@.last().1@),
        ));
        proof {
            let r_cur = spec_decode_entries(s, pos as int, remaining as nat);
            let r_next = spec_decode_entries(s, vend as int, (remaining - 1) as nat);
            match r_next {
                None => {
                    assert(r_cur is None);
                },
                Some((rest, end)) => {
                    assert(r_cur == Some(
                        (seq![(entries@.last().0@, entries@.last().1@)] + rest, end),
                    ));
                    assert(entries_view(entries_old) + (seq![
                        (entries@.last().0@, entries@.last().1@),
                    ] + rest) =~= entries_view(entries@) + rest);
                },
            }
        }
        pos = vend;
        remaining = remaining - 1;
    }
    assert(spec_decode_entries(s, pos as int, 0) == Some(
        (Seq::<(Seq<u8>, MetaValueView)>::empty(), pos as int),
    ));
    assert(entries_view(entries@) + Seq::<(Seq<u8>, MetaValueView)>::empty() =~= entries_view(
        entries@,
    ));
    if pos != meta_raw.len() {
        return Err(CodecError::MetaDecode);
    }
    Ok(MetaMap { entries })
}

/// Byte-lexicographic strict order on byte sequences, comparing the
/// suffixes from position `i` on.
pub open spec fn lex_lt_from(a: Seq<u8>, b: Seq<u8>, i: int) -> bool
    recommends
        0 <= i <= a.len() && i <= b.len(),
    decreases a.len() - i,
{
    if i >= b.len() {
        false
    } else if i >= a.len() {
        true
    } else if a[i] < b[i] {
        true
    } else if a[i] > b[i] {
        false
    } else {
        lex_lt_from(a, b, i + 1)
    }
}

/// Byte-lexicographic strict order on byte sequences.
pub open spec fn lex_lt(a: Seq<u8>, b: Seq<u8>) -> bool {
    lex_lt_from(a, b, 0)
}

/// Whether `a` is byte-lexicographically before `b`.
pub fn bytes_lt(a: &[u8], b: &[u8]) -> (r: bool)
    ensures
        r == lex_lt(a@, b@),
{
    let mut i: usize = 0;
    let alen = a.len();
    let blen = b.len();
    loop
        invariant
            i <= a@.len() && i <= b@.len(),
            alen == a@.len() && blen == b@.len(),
            lex_lt(a@, b@) == lex_lt_from(a@, b@, i as int),
        decreases a@.len() - i,
    {
        if i >= blen {
            return false;
        }
        if i >= alen {
            return true;
        }
        if a[i] < b[i] {
            return true;
        }
        if a[i] > b[i] {
            return false;
        }
        i = i + 1;
    }
}

/// The keys of `entries` are strictly increasing in byte-lexicographic
/// order; so each key occurs once.
pub open spec fn entries_sorted(entries: Seq<(Seq<u8>, MetaValueView)>) -> bool {
    forall|i: int, j: int|
        0 <= i < j < entries.len() ==> lex_lt(entries[i].0, entries[j].0)
}

/// The view of a metadata value held in memory fits the wire's length
/// fields.
pub proof fn lemma_value_view_len_ok(v: &MetaValue)
    ensures
        value_len_ok(v@),
{
    match v {
        MetaValue::Text(t) => {
            assert(t@.len() == vstd::std_specs::vec::spec_vec_len(t));
        },
        MetaValue::Bytes(b) => {
            assert(b@.len() == vstd::std_specs::vec::spec_vec_len(b));
        },
        MetaValue::U64(_) => {},
        MetaValue::Bool(_) => {},
    }
}

/// Builder for canonical CBOR metadata: entries are kept sorted by key,
/// and inserting an existing key replaces its value.
#[derive(Debug, Clone)]
pub struct MetaBuilder {
    /// The entries, sorted by key.
    pub map: MetaMap,
}

impl MetaBuilder {
    /// The builder's entries are sorted by key and their lengths fit the
    /// wire's length fields.
    pub open spec fn wf(self) -> bool {
        entries_sorted(self.map@) && entries_len_ok(self.map@)
    }

    /// An empty builder.
    pub fn new() -> (r: MetaBuilder)
        ensures
            r.wf(),
            r.map@ =~= Seq::<(Seq<u8>, MetaValueView)>::empty(),
    {
        MetaBuilder { map: MetaMap::new() }
    }

    /// Insert `value` under `key`, keeping the entries sorted; an entry
    /// with the same key is replaced.
    pub fn insert_value(self, key: Vec<u8>, value: MetaValue) -> (r: MetaBuilder)
        requires
            self.wf(),
        ensures
            r.wf(),
            spec_meta_lookup(r.map@, key@) == Some(value@),
            forall|k: Seq<u8>|
                k != key@ ==> #[trigger] spec_meta_lookup(r.map@, k) == spec_meta_lookup(
                    self.map@,
                    k,
                ),
            (forall|j: int| 0 <= j < self.map@.len() ==> (#[trigger] self.map@[j]).0 != key@)
                ==> spec_encode_entries(r.map@).len() == spec_encode_entries(self.map@).len()
                + spec_encode_entry(key@, value@).len() && r.map@.len() == self.map@.len() + 1,
    {
        let mut entries = self.map.entries;
        let ghost old_view = entries_view(entries@);
        let n = entries.len();
        let mut i: usize = 0;
        loop
            invariant
                i <= n,
                n == entries@.len(),
                entries_view(entries@) == old_view,
                entries_sorted(old_view),
                forall|j: int| 0 <= j < i ==> lex_lt(old_view[j].0, key@),
            ensures
                i <= n,
                forall|j: int| 0 <= j < i ==> lex_lt(old_view[j].0, key@),
                i < n ==> !lex_lt(old_view[i as int].0, key@),
            decreases n - i,
        {
            if i >= n {
                break;
            }
            if !bytes_lt(entries[i].0.as_slice(), key.as_slice()) {
                break;
            }
            i = i + 1;
        }
        let ghost ins = i as int;
        proof {
            lemma_value_view_len_ok(&value);
            assert(key@.len() == vstd::std_specs::vec::spec_vec_len(&key));
        }
        if i < n && bytes_eq(entries[i].0.as_slice(), key.as_slice()) {
            entries[i] = (key, value);
            proof {
                let new_view = entries_view(entries@);
                assert(new_view =~= old_view.update(ins, (entries@[ins].0@, entries@[ins].1@)));
                lemma_lookup_after_update(old_view, new_view, ins);
                assert(entries_sorted(new_view)) by {
                    assert(forall|a: int, b: int|
                        0 <= a < b < new_view.len() ==> lex_lt(new_view[a].0, new_view[b].0))
                        by {
                        assert(forall|a: int|
                            0 <= a < new_view.len() ==> new_view[a].0 == old_view[a].0);
                    }
                }
                assert(entries_len_ok(new_view)) by {
                    assert(new_view[ins] == (key@, value@));
                    assert forall|j: int|
                        0 <= j < new_view.len() implies (#[trigger] new_view[j]).0.len()
                        <= u64::MAX && value_len_ok(new_view[j].1) by {
                        if j != ins {
                            assert(new_view[j] == old_view[j]);
                            assert(old_view[j].0.len() <= u64::MAX && value_len_ok(
                                old_view[j].1,
                            ));
                        }
                    }
                }
            }
            return MetaBuilder { map: MetaMap { entries } };
        }
        proof {
            assert forall|j: int| ins <= j < old_view.len() implies lex_lt(key@, old_view[j].0) by {
                assert(!lex_lt(old_view[ins].0, key@));
                assert(old_view[ins].0 != key@);
                lemma_lex_total(key@, old_view[ins].0);
                if j > ins {
                    assert(lex_lt(old_view[ins].0, old_view[j].0));
                    lemma_lex_trans(key@, old_view[ins].0, old_view[j].0);
                }
            }
            assert forall|j: int| 0 <= j < old_view.len() implies old_view[j].0 != key@ by {
                if j < ins {
                    if old_view[j].0 == key@ {
                        lemma_lex_irrefl(key@);
                    }
                } else {
                    if old_view[j].0 == key@ {
                        lemma_lex_irrefl(key@);
                    }
                }
            }
        }
        entries.insert(i, (key, value));
        proof {
            let new_view = entries_view(entries@);
            assert(new_view =~= old_view.insert(ins, (key@, value@)));
            lemma_lookup_after_insert(old_view, key@, value@, ins);
            assert(new_view.len() <= u64::MAX) by {
                assert(entries@.len() == vstd::std_specs::vec::spec_vec_len(&entries));
                assert(usize::MAX <= u64::MAX);
            }
            assert(entries_len_ok(new_view)) by {
                assert(new_view.len() <= u64::MAX);
                assert forall|j: int|
                    0 <= j < new_view.len() implies (#[trigger] new_view[j]).0.len() <= u64::MAX
                    && value_len_ok(new_view[j].1) by {
                    if j < ins {
                        assert(new_view[j] == old_view[j]);
                        assert(old_view[j].0.len() <= u64::MAX && value_len_ok(old_view[j].1));
                    } else if j == ins {
                        assert(new_view[j] == (key@, value@));
                    } else {
                        assert(new_view[j] == old_view[j - 1]);
                        assert(old_view[j - 1].0.len() <= u64::MAX && value_len_ok(
                            old_view[j - 1].1,
                        ));
                    }
                }
            }
            assert(entries_sorted(new_view)) by {
                assert forall|a: int, b: int|
                    0 <= a < b < new_view.len() implies lex_lt(new_view[a].0, new_view[b].0) by {
                    if b < ins {
                        assert(new_view[a] == old_view[a] && new_view[b] == old_view[b]);
                    } else if a > ins {
                        assert(new_view[a] == old_view[a - 1] && new_view[b] == old_view[b - 1]);
                    } else if a < ins && b == ins {
                        assert(new_view[a] == old_view[a]);
                        assert(lex_lt(old_view[a].0, key@));
                    } else if a == ins && b > ins {
                        assert(new_view[b] == old_view[b - 1]);
                        assert(lex_lt(key@, old_view[b - 1].0));
                    } else {
                        assert(a < ins && b > ins);
                        assert(new_view[a] == old_view[a] && new_view[b] == old_view[b - 1]);
                        assert(lex_lt(old_view[a].0, key@));
                        assert(lex_lt(key@, old_view[b - 1].0));
                        lemma_lex_trans(old_view[a].0, key@, old_view[b - 1].0);
                    }
                }
            }
            lemma_encode_entries_insert_len(old_view, ins, (key@, value@));
        }
        MetaBuilder { map: MetaMap { entries } }
    }

    /// Insert a text value under `key`.
    pub fn insert_str(self, key: &str, value: &str) -> (r: MetaBuilder)
        requires
            self.wf(),
        ensures
            r.wf(),
            spec_meta_lookup(r.map@, key.spec_bytes()) == Some(
                MetaValueView::Text(value.spec_bytes()),
            ),
            forall|k: Seq<u8>|
                k != key.spec_bytes() ==> #[trigger] spec_meta_lookup(r.map@, k)
                    == spec_meta_lookup(self.map@, k),
            (forall|j: int|
                0 <= j < self.map@.len() ==> (#[trigger] self.map@[j]).0 != key.spec_bytes())
                ==> spec_encode_entries(r.map@).len() == spec_encode_entries(self.map@).len()
                + spec_encode_entry(key.spec_bytes(), MetaValueView::Text(value.spec_bytes())).len() && r.map@.len()
                == self.map@.len() + 1,
    {
        self.insert_value(key.as_bytes_vec(), MetaValue::Text(value.as_bytes_vec()))
    }

    /// Insert an unsigned integer under `key`.
    pub fn insert_u32(self, key: &str, value: u32) -> (r: MetaBuilder)
        requires
            self.wf(),
        ensures
            r.wf(),
            spec_meta_lookup(r.map@, key.spec_bytes()) == Some(MetaValueView::U64(value as u64)),
            forall|k: Seq<u8>|
                k != key.spec_bytes() ==> #[trigger] spec_meta_lookup(r.map@, k)
                    == spec_meta_lookup(self.map@, k),
            (forall|j: int|
                0 <= j < self.map@.len() ==> (#[trigger] self.map@[j]).0 != key.spec_bytes())
                ==> spec_encode_entries(r.map@).len() == spec_encode_entries(self.map@).len()
                + spec_encode_entry(key.spec_bytes(), MetaValueView::U64(value as u64)).len() && r.map@.len()
                == self.map@.len() + 1,
    {
        self.insert_value(key.as_bytes_vec(), MetaValue::U64(value as u64))
    }

    /// Insert an unsigned 64-bit integer under `key`.
    pub fn insert_u64(self, key: &str, value: u64) -> (r: MetaBuilder)
        requires
            self.wf(),
        ensures
            r.wf(),
            spec_meta_lookup(r.map@, key.spec_bytes()) == Some(MetaValueView::U64(value)),
            forall|k: Seq<u8>|
                k != key.spec_bytes() ==> #[trigger] spec_meta_lookup(r.map@, k)
                    == spec_meta_lookup(self.map@, k),
            (forall|j: int|
                0 <= j < self.map@.len() ==> (#[trigger] self.map@[j]).0 != key.spec_bytes())
                ==> spec_encode_entries(r.map@).len() == spec_encode_entries(self.map@).len()
                + spec_encode_entry(key.spec_bytes(), MetaValueView::U64(value)).len() && r.map@.len()
                == self.map@.len() + 1,
    {
        self.insert_value(key.as_bytes_vec(), MetaValue::U64(value))
    }

    /// Insert a byte string under `key`.
    pub fn insert_bytes(self, key: &str, value: &[u8]) -> (r: MetaBuilder)
        requires
            self.wf(),
        ensures
            r.wf(),
            spec_meta_lookup(r.map@, key.spec_bytes()) == Some(MetaValueView::Bytes(value@)),
            forall|k: Seq<u8>|
                k != key.spec_bytes() ==> #[trigger] spec_meta_lookup(r.map@, k)
                    == spec_meta_lookup(self.map@, k),
            (forall|j: int|
                0 <= j < self.map@.len() ==> (#[trigger] self.map@[j]).0 != key.spec_bytes())
                ==> spec_encode_entries(r.map@).len() == spec_encode_entries(self.map@).len()
                + spec_encode_entry(key.spec_bytes(), MetaValueView::Bytes(value@)).len() && r.map@.len()
                == self.map@.len() + 1,
    {
        let mut v: Vec<u8> = Vec::new();
        append_bytes(&mut v, value);
        self.insert_value(key.as_bytes_vec(), MetaValue::Bytes(v))
    }

    /// Insert a text value under `key`, as `"true"` or `"false"`.
    pub fn insert_bool_text(self, key: &str, value: bool) -> (r: MetaBuilder)
        requires
            self.wf(),
        ensures
            r.wf(),
            spec_meta_lookup(r.map@, key.spec_bytes()) == Some(
                MetaValueView::Text(
                    if value {
                        "true".spec_bytes()
                    } else {
                        "false".spec_bytes()
                    },
                ),
            ),
            forall|k: Seq<u8>|
                k != key.spec_bytes() ==> #[trigger] spec_meta_lookup(r.map@, k)
                    == spec_meta_lookup(self.map@, k),
            (forall|j: int|
                0 <= j < self.map@.len() ==> (#[trigger] self.map@[j]).0 != key.spec_bytes())
                ==> spec_encode_entries(r.map@).len() == spec_encode_entries(self.map@).len()
                + spec_encode_entry(key.spec_bytes(), MetaValueView::Text(
                    if value {
                        "true".spec_bytes()
                    } else {
                        "false".spec_bytes()
                    },
                )).len() && r.map@.len()
                == self.map@.len() + 1,
    {
        if value {
            self.insert_str(key, "true")
        } else {
            self.insert_str(key, "false")
        }
    }

    /// Encode the entries as one canonical CBOR map.
    pub fn build(self) -> (r: Result<Vec<u8>, CodecError>)
        requires
            self.wf(),
        ensures
            r is Ok,
            r matches Ok(bytes) ==> bytes@ == spec_encode_map(self.map@),
    {
        let mut out: Vec<u8> = Vec::new();
        encode_map(&self.map, &mut out);
        Ok(out)
    }
}

/// Append the encoding of a whole metadata map to `out`.
pub fn encode_map(m: &MetaMap, out: &mut Vec<u8>)
    ensures
        final(out)@ == old(out)@ + spec_encode_map(m@),
{
    let n = m.entries.len();
    cbor_head_encode(CBOR_BASE_MAP, n as u64, out);
    let ghost whole = m@;
    let mut i: usize = 0;
    while i < n
        invariant
            i <= n,
            n == m.entries@.len(),
            whole == m@,
            out@ == old(out)@ + spec_cbor_head(CBOR_BASE_MAP, n as u64)
                + spec_encode_entries_upto(whole, i as int),
        decreases n - i,
    {
        let key = &m.entries[i].0;
        cbor_head_encode(CBOR_BASE_TEXT, key.len() as u64, out);
        append_bytes(out, key.as_slice());
        encode_value(&m.entries[i].1, out);
        proof {
            lemma_encode_entries_upto_step(whole, i as int);
        }
        assert(out@ =~= old(out)@ + spec_cbor_head(CBOR_BASE_MAP, n as u64)
            + spec_encode_entries_upto(whole, (i + 1) as int));
        i = i + 1;
    }
    proof {
        lemma_encode_entries_upto_all(whole);
    }
    assert(out@ =~= old(out)@ + spec_encode_map(m@));
}

/// The concatenated encodings of the first `i` entries.
pub open spec fn spec_encode_entries_upto(entries: Seq<(Seq<u8>, MetaValueView)>, i: int) -> Seq<
    u8,
>
    recommends
        0 <= i <= entries.len(),
    decreases i,
{
    if i <= 0 {
        Seq::<u8>::empty()
    } else {
        spec_encode_entries_upto(entries, i - 1) + spec_encode_entry(
            entries[i - 1].0,
            entries[i - 1].1,
        )
    }
}

/// One more entry extends the prefix encoding by that entry's encoding.
pub proof fn lemma_encode_entries_upto_step(entries: Seq<(Seq<u8>, MetaValueView)>, i: int)
    requires
        0 <= i < entries.len(),
    ensures
        spec_encode_entries_upto(entries, i + 1) == spec_encode_entries_upto(entries, i)
            + spec_encode_entry(entries[i].0, entries[i].1),
{
}

/// The prefix encoding of all entries is the whole encoding.
pub proof fn lemma_encode_entries_upto_all(entries: Seq<(Seq<u8>, MetaValueView)>)
    ensures
        spec_encode_entries_upto(entries, entries.len() as int) == spec_encode_entries(entries),
    decreases entries.len(),
{
    if entries.len() == 0 {
        assert(spec_encode_entries_upto(entries, 0) =~= spec_encode_entries(entries));
    } else {
        let head = entries[0];
        let tail = entries.subrange(1, entries.len() as int);
        lemma_encode_entries_upto_all(tail);
        lemma_encode_entries_upto_shift(entries, entries.len() as int);
        assert(spec_encode_entries(entries) == spec_encode_entry(head.0, head.1)
            + spec_encode_entries(tail));
    }
}

/// The prefix encoding splits as the first entry plus the shifted prefix
/// of the tail.
pub proof fn lemma_encode_entries_upto_shift(entries: Seq<(Seq<u8>, MetaValueView)>, i: int)
    requires
        1 <= i <= entries.len(),
    ensures
        spec_encode_entries_upto(entries, i) == spec_encode_entry(entries[0].0, entries[0].1)
            + spec_encode_entries_upto(entries.subrange(1, entries.len() as int), i - 1),
    decreases i,
{
    let tail = entries.subrange(1, entries.len() as int);
    if i == 1 {
        assert(spec_encode_entries_upto(entries, 1) == spec_encode_entries_upto(entries, 0)
            + spec_encode_entry(entries[0].0, entries[0].1));
        assert(spec_encode_entries_upto(entries, 0) =~= Seq::<u8>::empty());
        assert(spec_encode_entries_upto(tail, 0) =~= Seq::<u8>::empty());
        assert(spec_encode_entry(entries[0].0, entries[0].1) =~= Seq::<u8>::empty()
            + spec_encode_entry(entries[0].0, entries[0].1));
        assert(spec_encode_entry(entries[0].0, entries[0].1) + Seq::<u8>::empty()
            =~= spec_encode_entry(entries[0].0, entries[0].1));
    } else {
        lemma_encode_entries_upto_shift(entries, i - 1);
        assert(tail[i - 2] == entries[i - 1]);
        assert((spec_encode_entry(entries[0].0, entries[0].1) + spec_encode_entries_upto(
            tail,
            i - 2,
        )) + spec_encode_entry(entries[i - 1].0, entries[i - 1].1) =~= spec_encode_entry(
            entries[0].0,
            entries[0].1,
        ) + (spec_encode_entries_upto(tail, i - 2) + spec_encode_entry(
            entries[i - 1].0,
            entries[i - 1].1,
        )));
    }
}

/// After replacing the entry at `ins` (same key), lookups of other keys
/// are unchanged and the new key maps to the new value.
pub proof fn lemma_lookup_after_update(
    old_view: Seq<(Seq<u8>, MetaValueView)>,
    new_view: Seq<(Seq<u8>, MetaValueView)>,
    ins: int,
)
    requires
        0 <= ins < old_view.len(),
        new_view.len() == old_view.len(),
        forall|j: int| 0 <= j < old_view.len() && j != ins ==> new_view[j] == old_view[j],
        new_view[ins].0 == old_view[ins].0,
        entries_sorted(old_view),
    ensures
        spec_meta_lookup(new_view, new_view[ins].0) == Some(new_view[ins].1),
        forall|k: Seq<u8>|
            k != new_view[ins].0 ==> #[trigger] spec_meta_lookup(new_view, k) == spec_meta_lookup(
                old_view,
                k,
            ),
{
    lemma_lookup_unique(old_view, new_view, ins);
}

/// After inserting a fresh entry at `ins`, lookups of other keys are
/// unchanged and the new key maps to the new value.
pub proof fn lemma_lookup_after_insert(
    old_view: Seq<(Seq<u8>, MetaValueView)>,
    key: Seq<u8>,
    value: MetaValueView,
    ins: int,
)
    requires
        0 <= ins <= old_view.len(),
        forall|j: int| 0 <= j < old_view.len() ==> old_view[j].0 != key,
    ensures
        spec_meta_lookup(old_view.insert(ins, (key, value)), key) == Some(value),
        forall|k: Seq<u8>|
            k != key ==> #[trigger] spec_meta_lookup(old_view.insert(ins, (key, value)), k)
                == spec_meta_lookup(old_view, k),
{
    let new_view = old_view.insert(ins, (key, value));
    assert forall|k: Seq<u8>| true implies #[trigger] spec_meta_lookup(new_view, k) == (if k == key {
        Some(value)
    } else {
        spec_meta_lookup(old_view, k)
    }) by {
        lemma_lookup_insert_rec(old_view, key, value, ins, k);
    }
}

/// Recursion behind `lemma_lookup_after_insert`.
pub proof fn lemma_lookup_insert_rec(
    old_view: Seq<(Seq<u8>, MetaValueView)>,
    key: Seq<u8>,
    value: MetaValueView,
    ins: int,
    k: Seq<u8>,
)
    requires
        0 <= ins <= old_view.len(),
        forall|j: int| 0 <= j < old_view.len() ==> old_view[j].0 != key,
    ensures
        spec_meta_lookup(old_view.insert(ins, (key, value)), k) == (if k == key {
            Some(value)
        } else {
            spec_meta_lookup(old_view, k)
        }),
    decreases old_view.len(),
{
    let new_view = old_view.insert(ins, (key, value));
    if ins == old_view.len() {
        assert(new_view.last() == (key, value));
        assert(new_view.drop_last() =~= old_view);
        if k == key {
        } else {
            lemma_lookup_not_at_last(old_view, k);
        }
    } else {
        assert(new_view.last() == old_view.last());
        assert(new_view.drop_last() =~= old_view.drop_last().insert(ins, (key, value)));
        if old_view.last().0 == k {
        } else {
            lemma_lookup_insert_rec(old_view.drop_last(), key, value, ins, k);
        }
    }
}

/// Unfolding helper: looking up `k` when the last entry's key differs.
pub proof fn lemma_lookup_not_at_last(view: Seq<(Seq<u8>, MetaValueView)>, k: Seq<u8>)
    ensures
        view.len() > 0 && view.last().0 != k ==> spec_meta_lookup(view, k) == spec_meta_lookup(
            view.drop_last(),
            k,
        ),
{
}

/// In a sorted view, looking up the key at position `ins` finds exactly
/// the entry at `ins`, and after an update at `ins` other keys see the
/// same entries.
pub proof fn lemma_lookup_unique(
    old_view: Seq<(Seq<u8>, MetaValueView)>,
    new_view: Seq<(Seq<u8>, MetaValueView)>,
    ins: int,
)
    requires
        0 <= ins < old_view.len(),
        new_view.len() == old_view.len(),
        forall|j: int| 0 <= j < old_view.len() && j != ins ==> new_view[j] == old_view[j],
        new_view[ins].0 == old_view[ins].0,
        entries_sorted(old_view),
    ensures
        spec_meta_lookup(new_view, new_view[ins].0) == Some(new_view[ins].1),
        forall|k: Seq<u8>|
            k != new_view[ins].0 ==> #[trigger] spec_meta_lookup(new_view, k) == spec_meta_lookup(
                old_view,
                k,
            ),
    decreases old_view.len(),
{
    let key = new_view[ins].0;
    if ins == old_view.len() - 1 {
        assert(new_view.last().0 == key);
        assert forall|k: Seq<u8>| k != key implies #[trigger] spec_meta_lookup(new_view, k)
            == spec_meta_lookup(old_view, k) by {
            assert(new_view.drop_last() =~= old_view.drop_last());
        }
    } else {
        assert(new_view.last() == old_view.last());
        let old_prefix = old_view.drop_last();
        let new_prefix = new_view.drop_last();
        assert(entries_sorted(old_prefix)) by {
            assert(forall|i: int|
                0 <= i < old_prefix.len() ==> old_prefix[i] == old_view[i]);
        }
        lemma_lookup_unique(old_prefix, new_prefix, ins);
        assert(old_view.last().0 != key) by {
            assert(lex_lt(old_view[ins].0, old_view[old_view.len() - 1].0));
            lemma_lex_irrefl(old_view[ins].0);
        }
        assert(new_prefix[ins] == new_view[ins]);
        assert(spec_meta_lookup(new_view, key) == spec_meta_lookup(new_prefix, key));
        assert forall|k: Seq<u8>| k != key implies #[trigger] spec_meta_lookup(new_view, k)
            == spec_meta_lookup(old_view, k) by {
            if old_view.last().0 == k {
            } else {
                assert(spec_meta_lookup(new_prefix, k) == spec_meta_lookup(old_prefix, k));
            }
        }
    }
}

/// The value's byte lengths fit the wire's 64-bit length fields.
pub open spec fn value_len_ok(v: MetaValueView) -> bool {
    match v {
        MetaValueView::Text(t) => t.len() <= u64::MAX,
        MetaValueView::Bytes(b) => b.len() <= u64::MAX,
        MetaValueView::U64(_) => true,
        MetaValueView::Bool(_) => true,
    }
}

/// All keys and values of the entries fit the wire's length fields.
pub open spec fn entries_len_ok(entries: Seq<(Seq<u8>, MetaValueView)>) -> bool {
    &&& entries.len() <= u64::MAX
    &&& forall|i: int|
        0 <= i < entries.len() ==> (#[trigger] entries[i]).0.len() <= u64::MAX && value_len_ok(
            entries[i].1,
        )
}

/// Decoding a CBOR head from the bytes that encode it yields the base
/// byte and argument back, wherever the encoding stands in the buffer.
pub proof fn lemma_cbor_head_round_trip(base: u8, n: u64, s: Seq<u8>, pos: int)
    requires
        base == CBOR_BASE_UINT || base == CBOR_BASE_BYTES || base == CBOR_BASE_TEXT || base
            == CBOR_BASE_MAP,
        0 <= pos,
        pos + spec_cbor_head(base, n).len() <= s.len(),
        s.subrange(pos, pos + spec_cbor_head(base, n).len()) == spec_cbor_head(base, n),
    ensures
        spec_cbor_head_decode(s, pos) == Some((base, n, pos + spec_cbor_head(base, n).len())),
{
    let enc = spec_cbor_head(base, n);
    let sub = s.subrange(pos, pos + enc.len());
    assert(s[pos] == sub[0]);
    if n < 24 {
        let b = (base + n) as u8;
        assert(s[pos] == b);
        assert(b & 0xE0 == base && b & 0x1F == n) by (bit_vector)
            requires
                (base == 0x00 || base == 0x40 || base == 0x60 || base == 0xA0) && n < 24 && b == (
                base + n) as u8,
        ;
    } else if n <= 0xFF {
        let b = (base + 24) as u8;
        assert(s[pos] == b);
        assert(s[pos + 1] == sub[1]);
        assert(s[pos + 1] == n as u8);
        assert(b & 0xE0 == base && b & 0x1F == 24) by (bit_vector)
            requires
                (base == 0x00 || base == 0x40 || base == 0x60 || base == 0xA0) && b == (base + 24)
                    as u8,
        ;
        assert(s[pos + 1] >= 24);
    } else if n <= 0xFFFF {
        let b = (base + 25) as u8;
        assert(s[pos] == b);
        assert(b & 0xE0 == base && b & 0x1F == 25) by (bit_vector)
            requires
                (base == 0x00 || base == 0x40 || base == 0x60 || base == 0xA0) && b == (base + 25)
                    as u8,
        ;
        assert(s.subrange(pos + 1, pos + 3) =~= spec_u16_be(n as u16)) by {
            assert(forall|i: int|
                0 <= i < 2 ==> #[trigger] s.subrange(pos + 1, pos + 3)[i] == sub[i + 1]);
        }
        lemma_u16_be_round_trip();
        assert(spec_u16_from_be(s.subrange(pos + 1, pos + 3)) == n as u16);
    } else if n <= 0xFFFF_FFFF {
        let b = (base + 26) as u8;
        assert(s[pos] == b);
        assert(b & 0xE0 == base && b & 0x1F == 26) by (bit_vector)
            requires
                (base == 0x00 || base == 0x40 || base == 0x60 || base == 0xA0) && b == (base + 26)
                    as u8,
        ;
        assert(s.subrange(pos + 1, pos + 5) =~= spec_u32_be(n as u32)) by {
            assert(forall|i: int|
                0 <= i < 4 ==> #[trigger] s.subrange(pos + 1, pos + 5)[i] == sub[i + 1]);
        }
        lemma_u32_be_round_trip();
        assert(spec_u32_from_be(s.subrange(pos + 1, pos + 5)) == n as u32);
    } else {
        let b = (base + 27) as u8;
        assert(s[pos] == b);
        assert(b & 0xE0 == base && b & 0x1F == 27) by (bit_vector)
            requires
                (base == 0x00 || base == 0x40 || base == 0x60 || base == 0xA0) && b == (base + 27)
                    as u8,
        ;
        assert(s.subrange(pos + 1, pos + 9) =~= spec_u64_be(n)) by {
            assert(forall|i: int|
                0 <= i < 8 ==> #[trigger] s.subrange(pos + 1, pos + 9)[i] == sub[i + 1]);
        }
        lemma_u64_be_round_trip();
        assert(spec_u64_from_be(s.subrange(pos + 1, pos + 9)) == n);
    }
}

/// Decoding a metadata value from the bytes that encode it yields the
/// value back, wherever the encoding stands in the buffer.
pub proof fn lemma_value_round_trip(v: MetaValueView, s: Seq<u8>, pos: int)
    requires
        value_len_ok(v),
        0 <= pos,
        pos + spec_encode_value(v).len() <= s.len(),
        s.subrange(pos, pos + spec_encode_value(v).len()) == spec_encode_value(v),
    ensures
        spec_decode_value(s, pos) == Some((v, pos + spec_encode_value(v).len())),
{
    let enc = spec_encode_value(v);
    let sub = s.subrange(pos, pos + enc.len());
    assert(s[pos] == sub[0]);
    match v {
        MetaValueView::Bool(b) => {
        },
        MetaValueView::U64(n) => {
            lemma_cbor_head_round_trip(CBOR_BASE_UINT, n, s, pos);
            lemma_head_first_byte_not_simple(CBOR_BASE_UINT, n);
        },
        MetaValueView::Bytes(bts) => {
            let head = spec_cbor_head(CBOR_BASE_BYTES, bts.len() as u64);
            assert(s.subrange(pos, pos + head.len()) =~= head) by {
                assert(forall|i: int| 0 <= i < head.len() ==> #[trigger] sub[i] == head[i]);
            }
            lemma_cbor_head_round_trip(CBOR_BASE_BYTES, bts.len() as u64, s, pos);
            lemma_head_first_byte_not_simple(CBOR_BASE_BYTES, bts.len() as u64);
            assert(s.subrange(pos + head.len(), pos + enc.len()) =~= bts) by {
                assert(forall|i: int|
                    0 <= i < bts.len() ==> #[trigger] s.subrange(
                        pos + head.len(),
                        pos + enc.len(),
                    )[i] == sub[head.len() + i]);
            }
        },
        MetaValueView::Text(t) => {
            let head = spec_cbor_head(CBOR_BASE_TEXT, t.len() as u64);
            assert(s.subrange(pos, pos + head.len()) =~= head) by {
                assert(forall|i: int| 0 <= i < head.len() ==> #[trigger] sub[i] == head[i]);
            }
            lemma_cbor_head_round_trip(CBOR_BASE_TEXT, t.len() as u64, s, pos);
            lemma_head_first_byte_not_simple(CBOR_BASE_TEXT, t.len() as u64);
            assert(s.subrange(pos + head.len(), pos + enc.len()) =~= t) by {
                assert(forall|i: int|
                    0 <= i < t.len() ==> #[trigger] s.subrange(
                        pos + head.len(),
                        pos + enc.len(),
                    )[i] == sub[head.len() + i]);
            }
        },
    }
}

/// The first byte of a CBOR head is never one of the boolean simple
/// values.
pub proof fn lemma_head_first_byte_not_simple(base: u8, n: u64)
    requires
        base == CBOR_BASE_UINT || base == CBOR_BASE_BYTES || base == CBOR_BASE_TEXT || base
            == CBOR_BASE_MAP,
    ensures
        spec_cbor_head(base, n)[0] != CBOR_FALSE,
        spec_cbor_head(base, n)[0] != CBOR_TRUE,
{
}

/// Decoding `entries.len()` entries from the bytes that encode them
/// yields the entries back, wherever the encoding stands in the buffer.
#[verifier::rlimit(100)]
#[verifier::spinoff_prover]
pub proof fn lemma_entries_round_trip(
    entries: Seq<(Seq<u8>, MetaValueView)>,
    s: Seq<u8>,
    pos: int,
)
    requires
        entries_len_ok(entries),
        0 <= pos,
        pos + spec_encode_entries(entries).len() <= s.len(),
        s.subrange(pos, pos + spec_encode_entries(entries).len()) == spec_encode_entries(entries),
    ensures
        spec_decode_entries(s, pos, entries.len()) == Some(
            (entries, pos + spec_encode_entries(entries).len()),
        ),
    decreases entries.len(),
{
    let enc = spec_encode_entries(entries);
    let sub = s.subrange(pos, pos + enc.len());
    if entries.len() == 0 {
        assert(entries =~= Seq::<(Seq<u8>, MetaValueView)>::empty());
    } else {
        let key = entries[0].0;
        let v = entries[0].1;
        let tail = entries.subrange(1, entries.len() as int);
        let khead = spec_cbor_head(CBOR_BASE_TEXT, key.len() as u64);
        let entry_enc = spec_encode_entry(key, v);
        let tail_enc = spec_encode_entries(tail);
        assert(enc == entry_enc + tail_enc);
        assert(s.subrange(pos, pos + khead.len()) =~= khead) by {
            assert(forall|i: int| 0 <= i < khead.len() ==> #[trigger] sub[i] == khead[i]);
        }
        lemma_cbor_head_round_trip(CBOR_BASE_TEXT, key.len() as u64, s, pos);
        let kstart = pos + khead.len();
        assert(s.subrange(kstart, kstart + key.len()) =~= key) by {
            assert(forall|i: int|
                0 <= i < key.len() ==> #[trigger] s.subrange(kstart, kstart + key.len())[i]
                    == sub[khead.len() + i]);
        }
        let vstart = kstart + key.len();
        let venc = spec_encode_value(v);
        assert(s.subrange(vstart, vstart + venc.len()) =~= venc) by {
            assert(forall|i: int|
                0 <= i < venc.len() ==> #[trigger] s.subrange(vstart, vstart + venc.len())[i]
                    == sub[khead.len() + key.len() + i]);
        }
        lemma_value_round_trip(v, s, vstart);
        let tstart = vstart + venc.len();
        assert(tstart == pos + entry_enc.len());
        assert(entries_len_ok(tail)) by {
            assert(forall|i: int|
                0 <= i < tail.len() ==> #[trigger] tail[i] == entries[i + 1]);
        }
        assert(s.subrange(tstart, tstart + tail_enc.len()) =~= tail_enc) by {
            assert(forall|i: int|
                0 <= i < tail_enc.len() ==> #[trigger] s.subrange(
                    tstart,
                    tstart + tail_enc.len(),
                )[i] == sub[entry_enc.len() + i]);
        }
        lemma_entries_round_trip(tail, s, tstart);
        assert(seq![(key, v)] + tail =~= entries);
    }
}

/// Decoding an encoded metadata map yields its entries back.
pub proof fn lemma_meta_round_trip(entries: Seq<(Seq<u8>, MetaValueView)>)
    requires
        entries_len_ok(entries),
    ensures
        spec_decode_map(spec_encode_map(entries)) == Some(entries),
{
    let s = spec_encode_map(entries);
    let head = spec_cbor_head(CBOR_BASE_MAP, entries.len() as u64);
    assert(s.subrange(0, head.len() as int) =~= head);
    lemma_cbor_head_round_trip(CBOR_BASE_MAP, entries.len() as u64, s, 0);
    let p = head.len() as int;
    let enc = spec_encode_entries(entries);
    assert(s.subrange(p, p + enc.len()) =~= enc);
    lemma_entries_round_trip(entries, s, p);
    assert(p + enc.len() == s.len());
}

/// Strict lexicographic order is irreflexive.
pub proof fn lemma_lex_irrefl(a: Seq<u8>)
    ensures
        !lex_lt(a, a),
{
    lemma_lex_irrefl_from(a, 0);
}

/// Irreflexivity of the suffix order.
pub proof fn lemma_lex_irrefl_from(a: Seq<u8>, i: int)
    requires
        0 <= i <= a.len(),
    ensures
        !lex_lt_from(a, a, i),
    decreases a.len() - i,
{
    if i < a.len() {
        lemma_lex_irrefl_from(a, i + 1);
    }
}

/// Of two distinct byte sequences one is lexicographically before the
/// other.
pub proof fn lemma_lex_total(a: Seq<u8>, b: Seq<u8>)
    requires
        a != b,
    ensures
        lex_lt(a, b) || lex_lt(b, a),
{
    assert(a.subrange(0, 0) =~= b.subrange(0, 0));
    lemma_lex_total_from(a, b, 0);
}

/// Totality of the suffix order when the prefixes agree.
pub proof fn lemma_lex_total_from(a: Seq<u8>, b: Seq<u8>, i: int)
    requires
        0 <= i <= a.len() && i <= b.len(),
        a.subrange(0, i) == b.subrange(0, i),
        a != b,
    ensures
        lex_lt_from(a, b, i) || lex_lt_from(b, a, i),
    decreases a.len() + b.len() - 2 * i,
{
    if i >= b.len() {
        if a.len() == b.len() {
            assert(a =~= a.subrange(0, i));
            assert(b =~= b.subrange(0, i));
            assert(false);
        }
    } else if i >= a.len() {
    } else if a[i] < b[i] || a[i] > b[i] {
    } else {
        assert(a.subrange(0, i + 1) =~= b.subrange(0, i + 1)) by {
            assert(forall|j: int|
                0 <= j < i ==> a.subrange(0, i)[j] == b.subrange(0, i)[j]);
        }
        lemma_lex_total_from(a, b, i + 1);
    }
}

/// Strict lexicographic order is transitive.
pub proof fn lemma_lex_trans(a: Seq<u8>, b: Seq<u8>, c: Seq<u8>)
    requires
        lex_lt(a, b),
        lex_lt(b, c),
    ensures
        lex_lt(a, c),
{
    lemma_lex_trans_from(a, b, c, 0);
}

/// Transitivity of the suffix order.
pub proof fn lemma_lex_trans_from(a: Seq<u8>, b: Seq<u8>, c: Seq<u8>, i: int)
    requires
        0 <= i,
        i <= a.len() && i <= b.len() && i <= c.len(),
        lex_lt_from(a, b, i),
        lex_lt_from(b, c, i),
    ensures
        lex_lt_from(a, c, i),
    decreases a.len() - i,
{
    if i >= a.len() {
    } else if i >= b.len() {
        assert(false);
    } else if i >= c.len() {
        assert(false);
    } else {
        if a[i] < b[i] {
            if b[i] < c[i] {
            } else if b[i] > c[i] {
                assert(false);
            }
        } else if a[i] > b[i] {
            assert(false);
        } else {
            if b[i] < c[i] {
            } else if b[i] > c[i] {
                assert(false);
            } else {
                lemma_lex_trans_from(a, b, c, i + 1);
            }
        }
    }
}

/// The byte lengths of the metadata keys and fixed values the library
/// puts on the wire, and that the keys of any one frame are distinct.
pub proof fn lemma_wire_literals()
    ensures
        "content-type".spec_bytes().len() == 12,
        "application/x-data".spec_bytes().len() == 18,
        "application/x-ack".spec_bytes().len() == 17,
        "application/x-resume".spec_bytes().len() == 20,
        "application/x-ping".spec_bytes().len() == 18,
        "application/x-pong".spec_bytes().len() == 18,
        "application/x-hello".spec_bytes().len() == 19,
        "version".spec_bytes().len() == 7,
        "cum_ack".spec_bytes().len() == 7,
        "credits".spec_bytes().len() == 7,
        "resume".spec_bytes().len() == 6,
        "sender_cum_ack".spec_bytes().len() == 14,
        "receiver_cum_proc".spec_bytes().len() == 17,
        "starting_credits".spec_bytes().len() == 16,
        "true".spec_bytes().len() == 4,
        "original_msg_id".spec_bytes().len() == 15,
        "status".spec_bytes().len() == 6,
        "status_message".spec_bytes().len() == 14,
        "cum_ack".spec_bytes() != "credits".spec_bytes(),
        "cum_ack".spec_bytes() != "content-type".spec_bytes(),
        "credits".spec_bytes() != "content-type".spec_bytes(),
        "version".spec_bytes() != "content-type".spec_bytes(),
        "resume".spec_bytes() != "content-type".spec_bytes(),
        "resume".spec_bytes() != "sender_cum_ack".spec_bytes(),
        "resume".spec_bytes() != "receiver_cum_proc".spec_bytes(),
        "resume".spec_bytes() != "starting_credits".spec_bytes(),
        "sender_cum_ack".spec_bytes() != "content-type".spec_bytes(),
        "sender_cum_ack".spec_bytes() != "receiver_cum_proc".spec_bytes(),
        "sender_cum_ack".spec_bytes() != "starting_credits".spec_bytes(),
        "receiver_cum_proc".spec_bytes() != "content-type".spec_bytes(),
        "receiver_cum_proc".spec_bytes() != "starting_credits".spec_bytes(),
        "starting_credits".spec_bytes() != "content-type".spec_bytes(),
        "original_msg_id".spec_bytes() != "status".spec_bytes(),
        "original_msg_id".spec_bytes() != "status_message".spec_bytes(),
        "status".spec_bytes() != "status_message".spec_bytes(),
{
    reveal_strlit("content-type");
    reveal_strlit("application/x-data");
    reveal_strlit("application/x-ack");
    reveal_strlit("application/x-resume");
    reveal_strlit("application/x-ping");
    reveal_strlit("application/x-pong");
    reveal_strlit("application/x-hello");
    reveal_strlit("version");
    reveal_strlit("cum_ack");
    reveal_strlit("credits");
    reveal_strlit("resume");
    reveal_strlit("sender_cum_ack");
    reveal_strlit("receiver_cum_proc");
    reveal_strlit("starting_credits");
    reveal_strlit("true");
    reveal_strlit("original_msg_id");
    reveal_strlit("status");
    reveal_strlit("status_message");
    lemma_literal_ascii_bytes("content-type");
    lemma_literal_ascii_bytes("application/x-data");
    lemma_literal_ascii_bytes("application/x-ack");
    lemma_literal_ascii_bytes("application/x-resume");
    lemma_literal_ascii_bytes("application/x-ping");
    lemma_literal_ascii_bytes("application/x-pong");
    lemma_literal_ascii_bytes("application/x-hello");
    lemma_literal_ascii_bytes("version");
    lemma_literal_ascii_bytes("cum_ack");
    lemma_literal_ascii_bytes("credits");
    lemma_literal_ascii_bytes("resume");
    lemma_literal_ascii_bytes("sender_cum_ack");
    lemma_literal_ascii_bytes("receiver_cum_proc");
    lemma_literal_ascii_bytes("starting_credits");
    lemma_literal_ascii_bytes("true");
    lemma_literal_ascii_bytes("original_msg_id");
    lemma_literal_ascii_bytes("status");
    lemma_literal_ascii_bytes("status_message");
    assert("cum_ack".spec_bytes()[1] == 'u' as u8);
    assert("credits".spec_bytes()[1] == 'r' as u8);
    assert("status".spec_bytes()[0] == 's' as u8);
    assert("original_msg_id".spec_bytes()[0] == 'o' as u8);
}

/// An ASCII string's byte view has one byte per character, each the
/// character itself.
pub proof fn lemma_literal_ascii_bytes(s: &str)
    requires
        vstd::utf8::is_ascii_chars(s@),
    ensures
        s.spec_bytes().len() == s@.len(),
        forall|i: int| 0 <= i < s@.len() ==> #[trigger] s.spec_bytes()[i] == s@[i] as u8,
{
    vstd::utf8::is_ascii_chars_encode_utf8(s@);
}

/// A key that lookup misses is held by no entry.
pub proof fn lemma_lookup_none_absent(entries: Seq<(Seq<u8>, MetaValueView)>, k: Seq<u8>)
    requires
        spec_meta_lookup(entries, k) is None,
    ensures
        forall|j: int| 0 <= j < entries.len() ==> (#[trigger] entries[j]).0 != k,
    decreases entries.len(),
{
    if entries.len() > 0 {
        assert(entries.last().0 != k);
        lemma_lookup_none_absent(entries.drop_last(), k);
        assert forall|j: int| 0 <= j < entries.len() implies (#[trigger] entries[j]).0 != k by {
            if j < entries.len() - 1 {
                assert(entries.drop_last()[j] == entries[j]);
            }
        }
    }
}

/// The head of a CBOR item is at most nine bytes, and a single byte for
/// small arguments.
pub proof fn lemma_cbor_head_len(base: u8, n: u64)
    ensures
        1 <= spec_cbor_head(base, n).len() <= 9,
        n < 24 ==> spec_cbor_head(base, n).len() == 1,
{
}

/// Inserting an entry anywhere grows the encoded entries by exactly that
/// entry's encoding.
pub proof fn lemma_encode_entries_insert_len(
    entries: Seq<(Seq<u8>, MetaValueView)>,
    i: int,
    e: (Seq<u8>, MetaValueView),
)
    requires
        0 <= i <= entries.len(),
    ensures
        spec_encode_entries(entries.insert(i, e)).len() == spec_encode_entries(entries).len()
            + spec_encode_entry(e.0, e.1).len(),
    decreases entries.len(),
{
    let inserted = entries.insert(i, e);
    if i == 0 {
        assert(inserted[0] == e);
        assert(inserted.subrange(1, inserted.len() as int) =~= entries);
    } else {
        assert(inserted[0] == entries[0]);
        let tail = entries.subrange(1, entries.len() as int);
        assert(inserted.subrange(1, inserted.len() as int) =~= tail.insert(i - 1, e));
        lemma_encode_entries_insert_len(tail, i - 1, e);
    }
}

} // verus!
