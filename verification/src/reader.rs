//! Little-endian reads over byte slices, and the reader of the section metadata blob.
use vstd::prelude::*;
use vstd::utf8::{decode_utf8, valid_utf8};
use crate::error::{error_text, StrmError};

verus! {

/// The little-endian `u32` stored in `b[at..at + 4]`.
pub open spec fn le_u32(b: Seq<u8>, at: int) -> u32 {
    (b[at] as int + b[at + 1] as int * 0x100 + b[at + 2] as int * 0x1_0000 + b[at + 3] as int
        * 0x100_0000) as u32
}

/// The little-endian `u32` at `at` gives back its four bytes: the lowest byte first.
pub proof fn lemma_le_u32_bytes(b: Seq<u8>, at: int)
    requires
        0 <= at,
        at + 4 <= b.len(),
    ensures
        le_u32(b, at) as int % 0x100 == b[at],
        le_u32(b, at) as int / 0x100 % 0x100 == b[at + 1],
        le_u32(b, at) as int / 0x1_0000 % 0x100 == b[at + 2],
        le_u32(b, at) as int / 0x100_0000 == b[at + 3],
{
    let v = b[at] as int + b[at + 1] as int * 0x100 + b[at + 2] as int * 0x1_0000 + b[at + 3] as int
        * 0x100_0000;
    assert(le_u32(b, at) as int == v);
    vstd::arithmetic::div_mod::lemma_fundamental_div_mod_converse(
        v,
        0x100,
        b[at + 1] as int + b[at + 2] as int * 0x100 + b[at + 3] as int * 0x1_0000,
        b[at] as int,
    );
    vstd::arithmetic::div_mod::lemma_fundamental_div_mod_converse(
        v / 0x100,
        0x100,
        b[at + 2] as int + b[at + 3] as int * 0x100,
        b[at + 1] as int,
    );
    vstd::arithmetic::div_mod::lemma_fundamental_div_mod_converse(
        v,
        0x1_0000,
        b[at + 2] as int + b[at + 3] as int * 0x100,
        b[at] as int + b[at + 1] as int * 0x100,
    );
    vstd::arithmetic::div_mod::lemma_fundamental_div_mod_converse(
        v / 0x1_0000,
        0x100,
        b[at + 3] as int,
        b[at + 2] as int,
    );
    vstd::arithmetic::div_mod::lemma_fundamental_div_mod_converse(
        v,
        0x100_0000,
        b[at + 3] as int,
        b[at] as int + b[at + 1] as int * 0x100 + b[at + 2] as int * 0x1_0000,
    );
}

/// The two's-complement reading of a `u32` is the value itself below 2^31 and the value
/// minus 2^32 from there on.
pub proof fn lemma_as_signed(v: u32)
    ensures
        v < 0x8000_0000 ==> as_signed(v) as int == v as int,
        v >= 0x8000_0000 ==> as_signed(v) as int == v as int - 0x1_0000_0000,
{
}

/// The two's-complement reading of a `u32`.
pub open spec fn as_signed(v: u32) -> i32 {
    if v < 0x8000_0000 {
        v as i32
    } else {
        (v as int - 0x1_0000_0000) as i32
    }
}

/// The little-endian `i32` stored in `b[at..at + 4]`.
pub open spec fn le_i32(b: Seq<u8>, at: int) -> i32 {
    as_signed(le_u32(b, at))
}

pub fn decode_le_u32(b0: u8, b1: u8, b2: u8, b3: u8) -> (v: u32)
    ensures
        v == b0 as int + b1 as int * 0x100 + b2 as int * 0x1_0000 + b3 as int * 0x100_0000,
{
    b0 as u32 + b1 as u32 * 0x100 + b2 as u32 * 0x1_0000 + b3 as u32 * 0x100_0000
}

pub fn to_signed(v: u32) -> (r: i32)
    ensures
        r == as_signed(v),
{
    if v < 0x8000_0000 {
        v as i32
    } else {
        (v as i64 - 0x1_0000_0000i64) as i32
    }
}

/// What `read_u32` gives for `bytes` and `offset`.
pub open spec fn spec_read_u32(bytes: Seq<u8>, offset: int) -> Result<u32, StrmError> {
    if offset + 4 > usize::MAX {
        Err(StrmError::FileOffsetOverflow)
    } else if offset + 4 > bytes.len() {
        Err(StrmError::FileEnded)
    } else {
        Ok(le_u32(bytes, offset))
    }
}

/// Reads the little-endian `u32` at `offset`.
pub fn read_u32(bytes: &[u8], offset: usize) -> (r: Result<u32, String>)
    ensures
        match (r, spec_read_u32(bytes@, offset as int)) {
            (Ok(v), Ok(w)) => v == w,
            (Err(m), Err(e)) => m@ == error_text(e),
            _ => false,
        },
{
    if offset > usize::MAX - 4 {
        return Err(StrmError::FileOffsetOverflow.message());
    }
    let end = offset + 4;
    if end > bytes.len() {
        return Err(StrmError::FileEnded.message());
    }
    Ok(decode_le_u32(bytes[offset], bytes[offset + 1], bytes[offset + 2], bytes[offset + 3]))
}

/// Where a read of `count` bytes at `pos` ends, or why it cannot happen.
pub open spec fn spec_take(bytes: Seq<u8>, pos: int, count: int) -> Result<int, StrmError> {
    if pos + count > usize::MAX {
        Err(StrmError::MetadataOffsetOverflow)
    } else if pos + count > bytes.len() {
        Err(StrmError::MetadataEnded)
    } else {
        Ok(pos + count)
    }
}

/// A `u32` read at `pos`, with the position after it.
pub open spec fn spec_u32_at(bytes: Seq<u8>, pos: int) -> Result<(u32, int), StrmError> {
    match spec_take(bytes, pos, 4) {
        Ok(end) => Ok((le_u32(bytes, pos), end)),
        Err(e) => Err(e),
    }
}

/// An `i32` read at `pos`, with the position after it.
pub open spec fn spec_i32_at(bytes: Seq<u8>, pos: int) -> Result<(i32, int), StrmError> {
    match spec_take(bytes, pos, 4) {
        Ok(end) => Ok((le_i32(bytes, pos), end)),
        Err(e) => Err(e),
    }
}

/// A strong ID (two `u32`s) read at `pos`, with the position after it.
pub open spec fn spec_strong_id_at(bytes: Seq<u8>, pos: int) -> Result<((u32, u32), int), StrmError> {
    match spec_u32_at(bytes, pos) {
        Ok((a, p1)) => match spec_u32_at(bytes, p1) {
            Ok((b, p2)) => Ok(((a, b), p2)),
            Err(e) => Err(e),
        },
        Err(e) => Err(e),
    }
}

pub open spec fn pow128(k: nat) -> nat
    decreases k,
{
    if k == 0 {
        1
    } else {
        128 * pow128((k - 1) as nat)
    }
}

/// The 7-bit-group length prefix of a string, read from `pos` after `k` groups that
/// summed to `acc`: each byte gives its low seven bits, least significant group first,
/// and a clear high bit ends the prefix; a sixth group is refused.
pub open spec fn spec_length_prefix(bytes: Seq<u8>, pos: int, k: nat, acc: nat) -> Result<
    (nat, int),
    StrmError,
>
    decreases 5 - k,
{
    if k >= 5 {
        Err(StrmError::InvalidNameLength)
    } else {
        match spec_take(bytes, pos, 1) {
            Err(e) => Err(e),
            Ok(next) => {
                let b = bytes[pos];
                let total = acc + (b % 128) as nat * pow128(k);
                if b < 128 {
                    Ok((total, next))
                } else {
                    spec_length_prefix(bytes, next, k + 1, total)
                }
            },
        }
    }
}

/// A length-prefixed UTF-8 string read at `pos`, with the position after it.
pub open spec fn spec_string_at(bytes: Seq<u8>, pos: int) -> Result<(Seq<char>, int), StrmError> {
    match spec_length_prefix(bytes, pos, 0, 0) {
        Err(e) => Err(e),
        Ok((len, start)) => match spec_take(bytes, start, len as int) {
            Err(e) => Err(e),
            Ok(end) => {
                let raw = bytes.subrange(start, end);
                if valid_utf8(raw) {
                    Ok((decode_utf8(raw), end))
                } else {
                    Err(StrmError::NameNotUtf8)
                }
            },
        },
    }
}

/// Where a failed strong-ID read leaves the position: after the first `u32` when only
/// the second one is missing.
pub open spec fn strong_id_stop(bytes: Seq<u8>, pos: int) -> int {
    match spec_u32_at(bytes, pos) {
        Ok((_, p1)) => p1,
        Err(_) => pos,
    }
}

/// Where reading a length prefix from `pos` (after `k` groups) stops: after its last byte,
/// before a byte that is missing, or after five groups when a sixth would be needed.
pub open spec fn spec_length_prefix_stop(bytes: Seq<u8>, pos: int, k: nat) -> int
    decreases 5 - k,
{
    if k >= 5 {
        pos
    } else {
        match spec_take(bytes, pos, 1) {
            Err(_) => pos,
            Ok(next) => if bytes[pos] < 128 {
                next
            } else {
                spec_length_prefix_stop(bytes, next, k + 1)
            },
        }
    }
}

/// Where a failed string read leaves the position: where its length prefix stopped, or
/// after the prefix when the bytes are missing, or after the bytes when they are not UTF-8.
pub open spec fn string_stop(bytes: Seq<u8>, pos: int) -> int {
    match spec_length_prefix(bytes, pos, 0, 0) {
        Err(_) => spec_length_prefix_stop(bytes, pos, 0),
        Ok((len, start)) => match spec_take(bytes, start, len as int) {
            Err(_) => start,
            Ok(end) => end,
        },
    }
}

/// Whether `b2` holds the same first `end` bytes as `b1`.
pub open spec fn agree_upto(b1: Seq<u8>, b2: Seq<u8>, end: int) -> bool {
    &&& end <= b1.len()
    &&& end <= b2.len()
    &&& forall|i: int| 0 <= i < end ==> b1[i] == b2[i]
}

/// A successful `u32` read depends only on the bytes it reads.
pub proof fn lemma_u32_agree(b1: Seq<u8>, b2: Seq<u8>, pos: int)
    requires
        0 <= pos,
        spec_u32_at(b1, pos) is Ok,
        agree_upto(b1, b2, spec_u32_at(b1, pos)->Ok_0.1),
    ensures
        spec_u32_at(b2, pos) == spec_u32_at(b1, pos),
        spec_i32_at(b2, pos) == spec_i32_at(b1, pos),
        spec_u32_at(b1, pos)->Ok_0.1 == pos + 4,
{
    assert(b1[pos] == b2[pos] && b1[pos + 1] == b2[pos + 1] && b1[pos + 2] == b2[pos + 2] && b1[pos
        + 3] == b2[pos + 3]);
}

/// A `u32` read that runs past `k` fails on the first `k` bytes, as the data ending.
pub proof fn lemma_u32_cut(b: Seq<u8>, pos: int, k: int)
    requires
        0 <= pos <= k,
        spec_u32_at(b, pos) is Ok,
        k < spec_u32_at(b, pos)->Ok_0.1,
    ensures
        spec_u32_at(b.take(k), pos) == Err::<(u32, int), StrmError>(StrmError::MetadataEnded),
        spec_i32_at(b.take(k), pos) == Err::<(i32, int), StrmError>(StrmError::MetadataEnded),
{
}

/// A successful strong-ID read depends only on the bytes it reads.
pub proof fn lemma_strong_id_agree(b1: Seq<u8>, b2: Seq<u8>, pos: int)
    requires
        0 <= pos,
        spec_strong_id_at(b1, pos) is Ok,
        agree_upto(b1, b2, spec_strong_id_at(b1, pos)->Ok_0.1),
    ensures
        spec_strong_id_at(b2, pos) == spec_strong_id_at(b1, pos),
        spec_strong_id_at(b1, pos)->Ok_0.1 == pos + 8,
{
    lemma_u32_agree(b1, b2, pos);
    lemma_u32_agree(b1, b2, pos + 4);
}

/// A strong-ID read that runs past `k` fails on the first `k` bytes, as the data ending.
pub proof fn lemma_strong_id_cut(b: Seq<u8>, pos: int, k: int)
    requires
        0 <= pos <= k,
        spec_strong_id_at(b, pos) is Ok,
        k < spec_strong_id_at(b, pos)->Ok_0.1,
    ensures
        spec_strong_id_at(b.take(k), pos) == Err::<((u32, u32), int), StrmError>(
            StrmError::MetadataEnded,
        ),
{
    if k < pos + 4 {
        lemma_u32_cut(b, pos, k);
    } else {
        lemma_u32_agree(b, b.take(k), pos);
        lemma_u32_cut(b, pos + 4, k);
    }
}

/// A successful length prefix depends only on the bytes it reads, and reads at least one.
pub proof fn lemma_length_prefix_agree(b1: Seq<u8>, b2: Seq<u8>, pos: int, k: nat, acc: nat)
    requires
        0 <= pos,
        spec_length_prefix(b1, pos, k, acc) is Ok,
        agree_upto(b1, b2, spec_length_prefix(b1, pos, k, acc)->Ok_0.1),
    ensures
        spec_length_prefix(b2, pos, k, acc) == spec_length_prefix(b1, pos, k, acc),
        pos < spec_length_prefix(b1, pos, k, acc)->Ok_0.1,
    decreases 5 - k,
{
    let end = spec_length_prefix(b1, pos, k, acc)->Ok_0.1;
    let b = b1[pos];
    if b >= 128 {
        lemma_length_prefix_advances(b1, pos + 1, k + 1, acc + (b % 128) as nat * pow128(k));
        lemma_length_prefix_agree(b1, b2, pos + 1, k + 1, acc + (b % 128) as nat * pow128(k));
    }
}

/// A successful length prefix ends after where it starts.
pub proof fn lemma_length_prefix_advances(b: Seq<u8>, pos: int, k: nat, acc: nat)
    requires
        spec_length_prefix(b, pos, k, acc) is Ok,
    ensures
        pos < spec_length_prefix(b, pos, k, acc)->Ok_0.1,
        spec_length_prefix(b, pos, k, acc)->Ok_0.1 <= b.len(),
    decreases 5 - k,
{
    let byte = b[pos];
    if byte >= 128 {
        lemma_length_prefix_advances(b, pos + 1, k + 1, acc + (byte % 128) as nat * pow128(k));
    }
}

/// A length prefix that runs past `k` fails on the first `k` bytes, as the data ending.
pub proof fn lemma_length_prefix_cut(b: Seq<u8>, pos: int, k: nat, acc: nat, cut: int)
    requires
        0 <= pos <= cut,
        spec_length_prefix(b, pos, k, acc) is Ok,
        cut < spec_length_prefix(b, pos, k, acc)->Ok_0.1,
    ensures
        spec_length_prefix(b.take(cut), pos, k, acc) == Err::<(nat, int), StrmError>(
            StrmError::MetadataEnded,
        ),
    decreases 5 - k,
{
    lemma_length_prefix_advances(b, pos, k, acc);
    let byte = b[pos];
    if pos < cut {
        assert(b.take(cut)[pos] == byte);
        lemma_length_prefix_cut(b, pos + 1, k + 1, acc + (byte % 128) as nat * pow128(k), cut);
    }
}

/// A successful string read depends only on the bytes it reads.
pub proof fn lemma_string_agree(b1: Seq<u8>, b2: Seq<u8>, pos: int)
    requires
        0 <= pos,
        spec_string_at(b1, pos) is Ok,
        agree_upto(b1, b2, spec_string_at(b1, pos)->Ok_0.1),
    ensures
        spec_string_at(b2, pos) == spec_string_at(b1, pos),
        pos < spec_string_at(b1, pos)->Ok_0.1,
{
    let (len, start) = spec_length_prefix(b1, pos, 0, 0)->Ok_0;
    lemma_length_prefix_advances(b1, pos, 0, 0);
    lemma_length_prefix_agree(b1, b2, pos, 0, 0);
    let end = start + len;
    assert(b1.subrange(start, end) =~= b2.subrange(start, end));
}

/// A string read that runs past `k` fails on the first `k` bytes, as the data ending.
pub proof fn lemma_string_cut(b: Seq<u8>, pos: int, k: int)
    requires
        0 <= pos <= k,
        spec_string_at(b, pos) is Ok,
        k < spec_string_at(b, pos)->Ok_0.1,
    ensures
        spec_string_at(b.take(k), pos) == Err::<(Seq<char>, int), StrmError>(
            StrmError::MetadataEnded,
        ),
{
    let (len, start) = spec_length_prefix(b, pos, 0, 0)->Ok_0;
    lemma_length_prefix_advances(b, pos, 0, 0);
    if k < start {
        lemma_length_prefix_cut(b, pos, 0, 0, k);
    } else {
        lemma_length_prefix_agree(b, b.take(k), pos, 0, 0);
    }
}

/// Reading a string fails only as reading, length or UTF-8 checking fails.
pub proof fn lemma_string_error_kind(b: Seq<u8>, pos: int)
    ensures
        spec_string_at(b, pos) matches Err(e) ==> e == StrmError::MetadataOffsetOverflow || e
            == StrmError::MetadataEnded || e == StrmError::InvalidNameLength || e
            == StrmError::NameNotUtf8,
{
    lemma_length_prefix_error_kind(b, pos, 0, 0);
}

proof fn lemma_length_prefix_error_kind(b: Seq<u8>, pos: int, k: nat, acc: nat)
    ensures
        spec_length_prefix(b, pos, k, acc) matches Err(e) ==> e == StrmError::MetadataOffsetOverflow
            || e == StrmError::MetadataEnded || e == StrmError::InvalidNameLength,
    decreases 5 - k,
{
    if k < 5 && pos + 1 <= b.len() && pos + 1 <= usize::MAX && b[pos] >= 128 {
        lemma_length_prefix_error_kind(b, pos + 1, k + 1, acc + (b[pos] % 128) as nat * pow128(k));
    }
}

/// Builds a string from bytes with std's `String::from_utf8`, which accepts exactly the
/// well-formed UTF-8 byte sequences and keeps their characters.
#[verifier::external_body]
fn string_from_utf8(bytes: &[u8]) -> (r: Option<String>)
    ensures
        r is Some <==> valid_utf8(bytes@),
        r matches Some(s) ==> s@ == decode_utf8(bytes@),
{
    String::from_utf8(bytes.to_vec()).ok()
}

/// A cursor over the section metadata blob.
pub struct BinaryReader<'a> {
    bytes: &'a [u8],
    position: usize,
}

impl<'a> BinaryReader<'a> {
    #[verifier::type_invariant]
    spec fn position_in_bounds(self) -> bool {
        self.position <= self.bytes@.len()
    }

    /// The bytes being read.
    pub closed spec fn data(self) -> Seq<u8> {
        self.bytes@
    }

    /// The index of the next byte to read.
    pub closed spec fn pos(self) -> int {
        self.position as int
    }

    pub fn new(bytes: &'a [u8]) -> (r: Self)
        ensures
            r.data() == bytes@,
            r.pos() == 0,
            r.pos() <= r.data().len(),
    {
        BinaryReader { bytes, position: 0 }
    }

    /// Hands out the next `count` bytes and moves past them.
    pub fn take(&mut self, count: usize) -> (r: Result<&'a [u8], String>)
        ensures
            final(self).data() == old(self).data(),
            old(self).pos() <= final(self).pos() <= final(self).data().len(),
            match (r, spec_take(old(self).data(), old(self).pos(), count as int)) {
                (Ok(s), Ok(end)) => s@ == old(self).data().subrange(old(self).pos(), end)
                    && final(self).pos() == end,
                (Err(m), Err(e)) => m@ == error_text(e) && final(self).pos() == old(self).pos(),
                _ => false,
            },
    {
        proof {
            use_type_invariant(&*self);
        }
        if self.position > usize::MAX - count {
            return Err(StrmError::MetadataOffsetOverflow.message());
        }
        let end = self.position + count;
        if end > self.bytes.len() {
            return Err(StrmError::MetadataEnded.message());
        }
        let result = &self.bytes[self.position..end];
        self.position = end;
        Ok(result)
    }

    pub fn u32(&mut self) -> (r: Result<u32, String>)
        ensures
            final(self).data() == old(self).data(),
            old(self).pos() <= final(self).pos() <= final(self).data().len(),
            match (r, spec_u32_at(old(self).data(), old(self).pos())) {
                (Ok(v), Ok((w, end))) => v == w && final(self).pos() == end,
                (Err(m), Err(e)) => m@ == error_text(e) && final(self).pos() == old(self).pos(),
                _ => false,
            },
    {
        let b = self.take(4)?;
        Ok(decode_le_u32(b[0], b[1], b[2], b[3]))
    }

    pub fn i32(&mut self) -> (r: Result<i32, String>)
        ensures
            final(self).data() == old(self).data(),
            old(self).pos() <= final(self).pos() <= final(self).data().len(),
            match (r, spec_i32_at(old(self).data(), old(self).pos())) {
                (Ok(v), Ok((w, end))) => v == w && final(self).pos() == end,
                (Err(m), Err(e)) => m@ == error_text(e) && final(self).pos() == old(self).pos(),
                _ => false,
            },
    {
        let b = self.take(4)?;
        Ok(to_signed(decode_le_u32(b[0], b[1], b[2], b[3])))
    }

    pub fn strong_id(&mut self) -> (r: Result<(u32, u32), String>)
        ensures
            final(self).data() == old(self).data(),
            old(self).pos() <= final(self).pos() <= final(self).data().len(),
            match (r, spec_strong_id_at(old(self).data(), old(self).pos())) {
                (Ok(v), Ok((w, end))) => v == w && final(self).pos() == end,
                (Err(m), Err(e)) => m@ == error_text(e) && final(self).pos() == strong_id_stop(
                    old(self).data(),
                    old(self).pos(),
                ),
                _ => false,
            },
    {
        proof {
            use_type_invariant(&*self);
        }
        let first = self.u32()?;
        let second = self.u32()?;
        Ok((first, second))
    }

    /// Reads the 7-bit-group byte length that precedes a string.
    fn length_prefix(&mut self) -> (r: Result<u64, String>)
        ensures
            final(self).data() == old(self).data(),
            old(self).pos() <= final(self).pos() <= old(self).data().len(),
            match (r, spec_length_prefix(old(self).data(), old(self).pos(), 0, 0)) {
                (Ok(v), Ok((w, end))) => v == w && final(self).pos() == end,
                (Err(m), Err(e)) => m@ == error_text(e) && final(self).pos()
                    == spec_length_prefix_stop(old(self).data(), old(self).pos(), 0),
                _ => false,
            },
    {
        proof {
            use_type_invariant(&*self);
        }
        let ghost data = self.data();
        let ghost start = self.pos();
        let mut length: u64 = 0;
        let mut k: usize = 0;
        let mut scale: u64 = 1;
        loop
            invariant
                self.data() == data,
                data == old(self).data(),
                start == old(self).pos(),
                start <= self.pos() <= data.len(),
                k <= 5,
                scale == pow128(k as nat),
                length < pow128(k as nat),
                spec_length_prefix(data, start, 0, 0) == spec_length_prefix(
                    data,
                    self.pos(),
                    k as nat,
                    length as nat,
                ),
                spec_length_prefix_stop(data, start, 0) == spec_length_prefix_stop(
                    data,
                    self.pos(),
                    k as nat,
                ),
            decreases 5 - k,
        {
            if k >= 5 {
                return Err(StrmError::InvalidNameLength.message());
            }
            proof {
                lemma_pow128_monotone(k as nat, 4);
                reveal_with_fuel(pow128, 5);
            }
            let bytes = self.take(1)?;
            let byte = bytes[0];
            let group: u64 = (byte % 128) as u64;
            assert(group * scale <= 127 * pow128(k as nat)) by (nonlinear_arith)
                requires
                    group <= 127,
                    scale == pow128(k as nat),
            ;
            length = length + group * scale;
            if byte < 128 {
                return Ok(length);
            }
            scale = scale * 128;
            k = k + 1;
        }
    }

    /// Reads a string written as a 7-bit-group byte length followed by UTF-8 bytes.
    pub fn dotnet_string(&mut self) -> (r: Result<String, String>)
        ensures
            final(self).data() == old(self).data(),
            old(self).pos() <= final(self).pos() <= final(self).data().len(),
            match (r, spec_string_at(old(self).data(), old(self).pos())) {
                (Ok(v), Ok((w, end))) => v@ == w && final(self).pos() == end,
                (Err(m), Err(e)) => m@ == error_text(e) && final(self).pos() == string_stop(
                    old(self).data(),
                    old(self).pos(),
                ),
                _ => false,
            },
    {
        proof {
            use_type_invariant(&*self);
        }
        let length = self.length_prefix()?;
        proof {
            use_type_invariant(&*self);
        }
        if length > (usize::MAX - self.position) as u64 {
            return Err(StrmError::MetadataOffsetOverflow.message());
        }
        let raw = self.take(length as usize)?;
        match string_from_utf8(raw) {
            Some(s) => Ok(s),
            None => Err(StrmError::NameNotUtf8.message()),
        }
    }
}

proof fn lemma_pow128_monotone(a: nat, b: nat)
    requires
        a <= b,
    ensures
        pow128(a) <= pow128(b),
    decreases b,
{
    if a < b {
        lemma_pow128_monotone(a, (b - 1) as nat);
    }
}

} // verus!
