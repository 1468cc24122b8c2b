//! Named frame ranges ("sections") and the user-data blob that stores them.
use vstd::prelude::*;
use crate::error::{error_text, StrmError};
use crate::reader::{
    lemma_string_error_kind, agree_upto, le_i32, le_u32, lemma_string_agree, lemma_string_cut, lemma_strong_id_agree,
    lemma_strong_id_cut, lemma_u32_agree, lemma_u32_cut, spec_i32_at, spec_string_at,
    spec_strong_id_at, spec_u32_at, BinaryReader,
};
use crate::text::{end_action_label, spec_end_action_label};

verus! {

/// A named range of frames with the action taken when playback reaches its end.
#[derive(Debug)]
pub struct FrameRange {
    pub id: u32,
    pub generation: u32,
    pub name: String,
    pub begin: i32,
    pub end: i32,
    pub end_action: i32,
    pub end_action_label: String,
}

/// The plain contents of a `FrameRange`.
pub struct FrameRangeView {
    pub id: u32,
    pub generation: u32,
    pub name: Seq<char>,
    pub begin: i32,
    pub end: i32,
    pub end_action: i32,
    pub end_action_label: Seq<char>,
}

impl View for FrameRange {
    type V = FrameRangeView;

    open spec fn view(&self) -> FrameRangeView {
        FrameRangeView {
            id: self.id,
            generation: self.generation,
            name: self.name@,
            begin: self.begin,
            end: self.end,
            end_action: self.end_action,
            end_action_label: self.end_action_label@,
        }
    }
}

impl Clone for FrameRange {
    fn clone(&self) -> (r: Self)
        ensures
            r == *self,
    {
        FrameRange {
            id: self.id,
            generation: self.generation,
            name: self.name.clone(),
            begin: self.begin,
            end: self.end,
            end_action: self.end_action,
            end_action_label: self.end_action_label.clone(),
        }
    }
}

/// The views of a list of ranges.
pub open spec fn ranges_view(ranges: Seq<FrameRange>) -> Seq<FrameRangeView> {
    ranges.map_values(|r: FrameRange| r@)
}

/// A range as stored in the blob, its end-action label taken from its action.
pub open spec fn stored_range(
    id: u32,
    generation: u32,
    name: Seq<char>,
    begin: i32,
    end: i32,
    end_action: i32,
) -> FrameRangeView {
    FrameRangeView {
        id,
        generation,
        name,
        begin,
        end,
        end_action,
        end_action_label: spec_end_action_label(end_action),
    }
}

/// Skipping `n` strong IDs from `pos`: the position after them.
pub open spec fn spec_skip_ids(bytes: Seq<u8>, pos: int, n: nat) -> Result<int, StrmError>
    decreases n,
{
    if n == 0 {
        Ok(pos)
    } else {
        match spec_skip_ids(bytes, pos, (n - 1) as nat) {
            Ok(p) => match spec_strong_id_at(bytes, p) {
                Ok((_, next)) => Ok(next),
                Err(e) => Err(e),
            },
            Err(e) => Err(e),
        }
    }
}

/// One serialized range at `pos`: version (must be 1), strong ID, name, begin, end,
/// end action, and the end-action target's strong ID.
pub open spec fn spec_range_at(bytes: Seq<u8>, pos: int) -> Result<(FrameRangeView, int), StrmError> {
    match spec_i32_at(bytes, pos) {
        Err(e) => Err(e),
        Ok((version, p1)) => if version != 1 {
            Err(StrmError::UnsupportedRangeVersion(version))
        } else {
            match spec_strong_id_at(bytes, p1) {
                Err(e) => Err(e),
                Ok(((id, generation), p2)) => match spec_string_at(bytes, p2) {
                    Err(e) => Err(e),
                    Ok((name, p3)) => match spec_i32_at(bytes, p3) {
                        Err(e) => Err(e),
                        Ok((begin, p4)) => match spec_i32_at(bytes, p4) {
                            Err(e) => Err(e),
                            Ok((end, p5)) => match spec_i32_at(bytes, p5) {
                                Err(e) => Err(e),
                                Ok((end_action, p6)) => match spec_strong_id_at(bytes, p6) {
                                    Err(e) => Err(e),
                                    Ok((_, p7)) => Ok(
                                        (
                                            stored_range(
                                                id,
                                                generation,
                                                name,
                                                begin,
                                                end,
                                                end_action,
                                            ),
                                            p7,
                                        ),
                                    ),
                                },
                            },
                        },
                    },
                },
            }
        },
    }
}

/// The first `n` ranges stored from `pos`, with the position after them.
pub open spec fn spec_ranges(bytes: Seq<u8>, pos: int, n: nat) -> Result<
    (Seq<FrameRangeView>, int),
    StrmError,
>
    decreases n,
{
    if n == 0 {
        Ok((Seq::empty(), pos))
    } else {
        match spec_ranges(bytes, pos, (n - 1) as nat) {
            Ok((rs, p)) => match spec_range_at(bytes, p) {
                Ok((r, next)) => Ok((rs.push(r), next)),
                Err(e) => Err(e),
            },
            Err(e) => Err(e),
        }
    }
}

/// The most IDs or sections a blob may declare.
pub const MAX_BLOB_ENTRIES: u32 = 100_000;

/// What the user-data blob holds: nothing when it is empty; otherwise version 1, the
/// frame-rate override (kept only when positive), the next strong ID, the list of range
/// IDs, and the ranges themselves.
pub open spec fn spec_user_blob(bytes: Seq<u8>) -> Result<(Option<i32>, Seq<FrameRangeView>), StrmError> {
    if bytes.len() == 0 {
        Ok((None, Seq::empty()))
    } else {
        match spec_i32_at(bytes, 0) {
            Err(e) => Err(e),
            Ok((version, p1)) => if version != 1 {
                Err(StrmError::UnsupportedMetadataVersion(version))
            } else {
                match spec_i32_at(bytes, p1) {
                    Err(e) => Err(e),
                    Ok((override_value, p2)) => match spec_strong_id_at(bytes, p2) {
                        Err(e) => Err(e),
                        Ok((_, p3)) => match spec_u32_at(bytes, p3) {
                            Err(e) => Err(e),
                            Ok((id_count, p4)) => if id_count > MAX_BLOB_ENTRIES {
                                Err(StrmError::UnreasonableIdCount)
                            } else {
                                match spec_skip_ids(bytes, p4, id_count as nat) {
                                    Err(e) => Err(e),
                                    Ok(p5) => match spec_u32_at(bytes, p5) {
                                        Err(e) => Err(e),
                                        Ok((range_count, p6)) => if range_count
                                            > MAX_BLOB_ENTRIES {
                                            Err(StrmError::UnreasonableSectionCount)
                                        } else {
                                            match spec_ranges(bytes, p6, range_count as nat) {
                                                Err(e) => Err(e),
                                                Ok((ranges, _)) => Ok(
                                                    (
                                                        if override_value > 0 {
                                                            Some(override_value)
                                                        } else {
                                                            None
                                                        },
                                                        ranges,
                                                    ),
                                                ),
                                            }
                                        },
                                    },
                                }
                            },
                        },
                    },
                }
            },
        }
    }
}

/// How many bytes a blob's contents take: the end of its last section record (or 0 for an
/// empty blob). Meaningful when `spec_user_blob` succeeds.
pub open spec fn spec_blob_end(bytes: Seq<u8>) -> int {
    if bytes.len() == 0 {
        0
    } else {
        let ids_end = spec_skip_ids(bytes, 20, le_u32(bytes, 16) as nat)->Ok_0;
        spec_ranges(bytes, ids_end + 4, le_u32(bytes, ids_end) as nat)->Ok_0.1
    }
}

/// The reads of a blob that parses, and where they end.
proof fn lemma_blob_positions(b: Seq<u8>)
    requires
        b.len() > 0,
        spec_user_blob(b) is Ok,
    ensures
        ({
            let ids_end = spec_skip_ids(b, 20, le_u32(b, 16) as nat)->Ok_0;
            &&& spec_i32_at(b, 0) is Ok
            &&& spec_i32_at(b, 4) is Ok
            &&& spec_strong_id_at(b, 8) is Ok
            &&& spec_u32_at(b, 16) is Ok
            &&& spec_skip_ids(b, 20, le_u32(b, 16) as nat) is Ok
            &&& 20 <= ids_end
            &&& spec_u32_at(b, ids_end) is Ok
            &&& spec_ranges(b, ids_end + 4, le_u32(b, ids_end) as nat) is Ok
            &&& ids_end + 4 <= spec_blob_end(b) <= b.len()
        }),
{
    let ids_end = spec_skip_ids(b, 20, le_u32(b, 16) as nat)->Ok_0;
    lemma_skip_ids_end(b, 20, le_u32(b, 16) as nat);
    lemma_ranges_end(b, ids_end + 4, le_u32(b, ids_end) as nat);
}

/// Bytes after the last section record do not change what a non-empty blob says.
pub proof fn lemma_blob_ignores_trailing_bytes(b: Seq<u8>, t: Seq<u8>)
    requires
        b.len() > 0,
        spec_user_blob(b) is Ok,
    ensures
        spec_user_blob(b + t) == spec_user_blob(b),
{
    lemma_blob_positions(b);
    let bt = b + t;
    let ids_end = spec_skip_ids(b, 20, le_u32(b, 16) as nat)->Ok_0;
    assert forall|e: int| 0 <= e <= b.len() implies #[trigger] agree_upto(b, bt, e) by {
        assert forall|i: int| 0 <= i < e implies b[i] == bt[i] by {}
    }
    assert(agree_upto(b, bt, 4));
    assert(agree_upto(b, bt, 8));
    assert(agree_upto(b, bt, 16));
    assert(agree_upto(b, bt, 20));
    lemma_u32_agree(b, bt, 0);
    lemma_u32_agree(b, bt, 4);
    lemma_strong_id_agree(b, bt, 8);
    lemma_u32_agree(b, bt, 16);
    assert(agree_upto(b, bt, ids_end));
    lemma_skip_ids_agree(b, bt, 20, le_u32(b, 16) as nat);
    assert(agree_upto(b, bt, ids_end + 4));
    lemma_u32_agree(b, bt, ids_end);
    assert(agree_upto(b, bt, spec_blob_end(b)));
    lemma_ranges_agree(b, bt, ids_end + 4, le_u32(b, ids_end) as nat);
}

/// A blob cut short anywhere inside its contents is refused: its data ended unexpectedly.
pub proof fn lemma_blob_truncated(b: Seq<u8>, k: int)
    requires
        spec_user_blob(b) is Ok,
        0 < k < spec_blob_end(b),
    ensures
        spec_user_blob(b.take(k)) == Err::<(Option<i32>, Seq<FrameRangeView>), StrmError>(
            StrmError::MetadataEnded,
        ),
{
    lemma_blob_positions(b);
    let t = b.take(k);
    let ids_end = spec_skip_ids(b, 20, le_u32(b, 16) as nat)->Ok_0;
    if k < 4 {
        lemma_u32_cut(b, 0, k);
    } else {
        lemma_u32_agree(b, t, 0);
        if k < 8 {
            lemma_u32_cut(b, 4, k);
        } else {
            lemma_u32_agree(b, t, 4);
            if k < 16 {
                lemma_strong_id_cut(b, 8, k);
            } else {
                lemma_strong_id_agree(b, t, 8);
                if k < 20 {
                    lemma_u32_cut(b, 16, k);
                } else {
                    lemma_u32_agree(b, t, 16);
                    if k < ids_end {
                        lemma_skip_ids_cut(b, 20, le_u32(b, 16) as nat, k);
                    } else {
                        lemma_skip_ids_agree(b, t, 20, le_u32(b, 16) as nat);
                        if k < ids_end + 4 {
                            lemma_u32_cut(b, ids_end, k);
                        } else {
                            lemma_u32_agree(b, t, ids_end);
                            lemma_ranges_cut(b, ids_end + 4, le_u32(b, ids_end) as nat, k);
                        }
                    }
                }
            }
        }
    }
}

/// A non-empty blob that parses starts with the version 1; its frame-rate override is the
/// `i32` stored at offset 4 when that is positive and absent otherwise, whatever sections
/// follow; and it holds as many sections as the count stored after the ID list says.
/// An empty blob has no override and no sections.
pub proof fn lemma_blob_fields(bytes: Seq<u8>)
    requires
        spec_user_blob(bytes) is Ok,
    ensures
        bytes.len() > 0 ==> le_i32(bytes, 0) == 1,
        spec_user_blob(bytes)->Ok_0.0 == if bytes.len() > 0 && le_i32(bytes, 4) > 0 {
            Some(le_i32(bytes, 4))
        } else {
            None::<i32>
        },
        bytes.len() > 0 ==> spec_user_blob(bytes)->Ok_0.1.len() == le_u32(
            bytes,
            spec_skip_ids(bytes, 20, le_u32(bytes, 16) as nat)->Ok_0,
        ),
        bytes.len() == 0 ==> spec_user_blob(bytes)->Ok_0.1.len() == 0,
        bytes.len() > 0 ==> le_u32(bytes, 16) <= 100_000 && le_u32(
            bytes,
            spec_skip_ids(bytes, 20, le_u32(bytes, 16) as nat)->Ok_0,
        ) <= 100_000,
{
    if bytes.len() > 0 {
        lemma_blob_positions(bytes);
        let ids_end = spec_skip_ids(bytes, 20, le_u32(bytes, 16) as nat)->Ok_0;
        lemma_ranges_labelled(bytes, ids_end + 4, le_u32(bytes, ids_end) as nat);
    }
}

/// A blob is refused for too many IDs exactly when its version is 1 and the ID count
/// stored at offset 16 is above 100 000, and for too many sections only when the section
/// count stored after the ID list is above 100 000.
pub proof fn lemma_blob_count_limits(bytes: Seq<u8>)
    ensures
        spec_user_blob(bytes) == Err::<(Option<i32>, Seq<FrameRangeView>), StrmError>(
            StrmError::UnreasonableIdCount,
        ) <==> (bytes.len() >= 20 && le_i32(bytes, 0) == 1 && le_u32(bytes, 16) > 100_000),
        spec_user_blob(bytes) == Err::<(Option<i32>, Seq<FrameRangeView>), StrmError>(
            StrmError::UnreasonableSectionCount,
        ) ==> ({
            let ids_end = spec_skip_ids(bytes, 20, le_u32(bytes, 16) as nat)->Ok_0;
            &&& le_u32(bytes, 16) <= 100_000
            &&& spec_skip_ids(bytes, 20, le_u32(bytes, 16) as nat) is Ok
            &&& le_u32(bytes, ids_end) > 100_000
        }),
{
    if bytes.len() >= 20 && le_i32(bytes, 0) == 1 && le_u32(bytes, 16) <= 100_000 {
        if spec_skip_ids(bytes, 20, le_u32(bytes, 16) as nat) is Ok {
            let ids_end = spec_skip_ids(bytes, 20, le_u32(bytes, 16) as nat)->Ok_0;
            lemma_skip_ids_end(bytes, 20, le_u32(bytes, 16) as nat);
            if le_u32(bytes, ids_end) <= 100_000 {
                lemma_ranges_error_kind(bytes, ids_end + 4, le_u32(bytes, ids_end) as nat);
            }
        } else {
            lemma_skip_ids_error_kind(bytes, 20, le_u32(bytes, 16) as nat);
        }
    }
}

/// Skipping strong IDs fails only as reading fails.
proof fn lemma_skip_ids_error_kind(bytes: Seq<u8>, pos: int, n: nat)
    ensures
        spec_skip_ids(bytes, pos, n) matches Err(e) ==> e == StrmError::MetadataOffsetOverflow
            || e == StrmError::MetadataEnded,
    decreases n,
{
    if n > 0 {
        lemma_skip_ids_error_kind(bytes, pos, (n - 1) as nat);
    }
}

/// Reading sections never fails for too many IDs or sections.
proof fn lemma_ranges_error_kind(bytes: Seq<u8>, pos: int, n: nat)
    ensures
        spec_ranges(bytes, pos, n) matches Err(e) ==> e != StrmError::UnreasonableIdCount && e
            != StrmError::UnreasonableSectionCount,
    decreases n,
{
    if n > 0 {
        lemma_ranges_error_kind(bytes, pos, (n - 1) as nat);
        if spec_ranges(bytes, pos, (n - 1) as nat) is Ok {
            let p = spec_ranges(bytes, pos, (n - 1) as nat)->Ok_0.1;
            lemma_string_error_kind(bytes, p + 12);
        }
    }
}

/// The frame-rate override read from a blob is always positive.
pub proof fn lemma_override_positive(bytes: Seq<u8>)
    ensures
        spec_user_blob(bytes) matches Ok((Some(v), _)) ==> v > 0,
{
}

/// Each stored range's end-action label is the label of its end action.
pub proof fn lemma_ranges_labelled(bytes: Seq<u8>, pos: int, n: nat)
    ensures
        spec_ranges(bytes, pos, n) matches Ok((rs, _)) ==> rs.len() == n && forall|i: int|
            0 <= i < rs.len() ==> (#[trigger] rs[i]).end_action_label == spec_end_action_label(
                rs[i].end_action,
            ),
    decreases n,
{
    if n > 0 {
        lemma_ranges_labelled(bytes, pos, (n - 1) as nat);
    }
}

proof fn lemma_skip_ids_agree(b1: Seq<u8>, b2: Seq<u8>, pos: int, n: nat)
    requires
        0 <= pos,
        spec_skip_ids(b1, pos, n) is Ok,
        agree_upto(b1, b2, spec_skip_ids(b1, pos, n)->Ok_0),
    ensures
        spec_skip_ids(b2, pos, n) == spec_skip_ids(b1, pos, n),
        pos <= spec_skip_ids(b1, pos, n)->Ok_0,
    decreases n,
{
    if n > 0 {
        lemma_skip_ids_end(b1, pos, (n - 1) as nat);
        let p = spec_skip_ids(b1, pos, (n - 1) as nat)->Ok_0;
        lemma_strong_id_agree(b1, b2, p);
        lemma_skip_ids_agree(b1, b2, pos, (n - 1) as nat);
    }
}

proof fn lemma_skip_ids_end(b: Seq<u8>, pos: int, n: nat)
    requires
        0 <= pos,
        spec_skip_ids(b, pos, n) is Ok,
    ensures
        pos <= spec_skip_ids(b, pos, n)->Ok_0,
    decreases n,
{
    if n > 0 {
        lemma_skip_ids_end(b, pos, (n - 1) as nat);
    }
}

proof fn lemma_skip_ids_cut(b: Seq<u8>, pos: int, n: nat, k: int)
    requires
        0 <= pos <= k,
        spec_skip_ids(b, pos, n) is Ok,
        k < spec_skip_ids(b, pos, n)->Ok_0,
    ensures
        spec_skip_ids(b.take(k), pos, n) == Err::<int, StrmError>(StrmError::MetadataEnded),
    decreases n,
{
    if n > 0 {
        lemma_skip_ids_end(b, pos, (n - 1) as nat);
        let p = spec_skip_ids(b, pos, (n - 1) as nat)->Ok_0;
        if k < p {
            lemma_skip_ids_cut(b, pos, (n - 1) as nat, k);
        } else {
            lemma_skip_ids_agree(b, b.take(k), pos, (n - 1) as nat);
            lemma_strong_id_cut(b, p, k);
        }
    }
}

/// The positions inside a successfully read range record.
proof fn lemma_range_positions(b: Seq<u8>, pos: int)
    requires
        0 <= pos,
        spec_range_at(b, pos) is Ok,
    ensures
        ({
            let p3 = spec_string_at(b, pos + 12)->Ok_0.1;
            &&& spec_i32_at(b, pos) is Ok
            &&& spec_strong_id_at(b, pos + 4) is Ok
            &&& spec_string_at(b, pos + 12) is Ok
            &&& pos + 12 < p3
            &&& spec_i32_at(b, p3) is Ok
            &&& spec_i32_at(b, p3 + 4) is Ok
            &&& spec_i32_at(b, p3 + 8) is Ok
            &&& spec_strong_id_at(b, p3 + 12) is Ok
            &&& spec_range_at(b, pos)->Ok_0.1 == p3 + 20
            &&& p3 + 20 <= b.len()
        }),
{
    let p3 = spec_string_at(b, pos + 12)->Ok_0.1;
    lemma_string_agree(b, b, pos + 12);
}

proof fn lemma_range_agree(b1: Seq<u8>, b2: Seq<u8>, pos: int)
    requires
        0 <= pos,
        spec_range_at(b1, pos) is Ok,
        agree_upto(b1, b2, spec_range_at(b1, pos)->Ok_0.1),
    ensures
        spec_range_at(b2, pos) == spec_range_at(b1, pos),
        pos < spec_range_at(b1, pos)->Ok_0.1,
{
    lemma_range_positions(b1, pos);
    let p3 = spec_string_at(b1, pos + 12)->Ok_0.1;
    lemma_u32_agree(b1, b2, pos);
    lemma_strong_id_agree(b1, b2, pos + 4);
    lemma_string_agree(b1, b2, pos + 12);
    lemma_u32_agree(b1, b2, p3);
    lemma_u32_agree(b1, b2, p3 + 4);
    lemma_u32_agree(b1, b2, p3 + 8);
    lemma_strong_id_agree(b1, b2, p3 + 12);
}

proof fn lemma_range_cut(b: Seq<u8>, pos: int, k: int)
    requires
        0 <= pos <= k,
        spec_range_at(b, pos) is Ok,
        k < spec_range_at(b, pos)->Ok_0.1,
    ensures
        spec_range_at(b.take(k), pos) == Err::<(FrameRangeView, int), StrmError>(
            StrmError::MetadataEnded,
        ),
{
    lemma_range_positions(b, pos);
    let t = b.take(k);
    let p3 = spec_string_at(b, pos + 12)->Ok_0.1;
    if k < pos + 4 {
        lemma_u32_cut(b, pos, k);
    } else {
        lemma_u32_agree(b, t, pos);
        if k < pos + 12 {
            lemma_strong_id_cut(b, pos + 4, k);
        } else {
            lemma_strong_id_agree(b, t, pos + 4);
            if k < p3 {
                lemma_string_cut(b, pos + 12, k);
            } else {
                lemma_string_agree(b, t, pos + 12);
                if k < p3 + 4 {
                    lemma_u32_cut(b, p3, k);
                } else {
                    lemma_u32_agree(b, t, p3);
                    if k < p3 + 8 {
                        lemma_u32_cut(b, p3 + 4, k);
                    } else {
                        lemma_u32_agree(b, t, p3 + 4);
                        if k < p3 + 12 {
                            lemma_u32_cut(b, p3 + 8, k);
                        } else {
                            lemma_u32_agree(b, t, p3 + 8);
                            lemma_strong_id_cut(b, p3 + 12, k);
                        }
                    }
                }
            }
        }
    }
}

proof fn lemma_ranges_end(b: Seq<u8>, pos: int, n: nat)
    requires
        0 <= pos,
        spec_ranges(b, pos, n) is Ok,
    ensures
        pos <= spec_ranges(b, pos, n)->Ok_0.1 <= b.len() || n == 0,
        pos <= spec_ranges(b, pos, n)->Ok_0.1,
    decreases n,
{
    if n > 0 {
        lemma_ranges_end(b, pos, (n - 1) as nat);
        let p = spec_ranges(b, pos, (n - 1) as nat)->Ok_0.1;
        lemma_range_positions(b, p);
    }
}

proof fn lemma_ranges_agree(b1: Seq<u8>, b2: Seq<u8>, pos: int, n: nat)
    requires
        0 <= pos,
        spec_ranges(b1, pos, n) is Ok,
        agree_upto(b1, b2, spec_ranges(b1, pos, n)->Ok_0.1),
    ensures
        spec_ranges(b2, pos, n) == spec_ranges(b1, pos, n),
    decreases n,
{
    if n > 0 {
        lemma_ranges_end(b1, pos, (n - 1) as nat);
        let p = spec_ranges(b1, pos, (n - 1) as nat)->Ok_0.1;
        lemma_range_agree(b1, b2, p);
        lemma_ranges_agree(b1, b2, pos, (n - 1) as nat);
    }
}

proof fn lemma_ranges_cut(b: Seq<u8>, pos: int, n: nat, k: int)
    requires
        0 <= pos <= k,
        spec_ranges(b, pos, n) is Ok,
        k < spec_ranges(b, pos, n)->Ok_0.1,
    ensures
        spec_ranges(b.take(k), pos, n) == Err::<(Seq<FrameRangeView>, int), StrmError>(
            StrmError::MetadataEnded,
        ),
    decreases n,
{
    if n > 0 {
        lemma_ranges_end(b, pos, (n - 1) as nat);
        let p = spec_ranges(b, pos, (n - 1) as nat)->Ok_0.1;
        if k < p {
            lemma_ranges_cut(b, pos, (n - 1) as nat, k);
        } else {
            lemma_ranges_agree(b, b.take(k), pos, (n - 1) as nat);
            lemma_range_cut(b, p, k);
        }
    }
}

proof fn lemma_skip_ids_error_stays(bytes: Seq<u8>, pos: int, i: nat, n: nat)
    requires
        i <= n,
        spec_skip_ids(bytes, pos, i) is Err,
    ensures
        spec_skip_ids(bytes, pos, n) == spec_skip_ids(bytes, pos, i),
    decreases n,
{
    if i < n {
        lemma_skip_ids_error_stays(bytes, pos, i, (n - 1) as nat);
    }
}

proof fn lemma_ranges_error_stays(bytes: Seq<u8>, pos: int, i: nat, n: nat)
    requires
        i <= n,
        spec_ranges(bytes, pos, i) is Err,
    ensures
        spec_ranges(bytes, pos, n) == spec_ranges(bytes, pos, i),
    decreases n,
{
    if i < n {
        lemma_ranges_error_stays(bytes, pos, i, (n - 1) as nat);
    }
}

fn read_range(reader: &mut BinaryReader) -> (r: Result<FrameRange, String>)
    ensures
        final(reader).data() == old(reader).data(),
        match (r, spec_range_at(old(reader).data(), old(reader).pos())) {
            (Ok(v), Ok((w, end))) => v@ == w && final(reader).pos() == end,
            (Err(m), Err(e)) => m@ == error_text(e),
            _ => false,
        },
{
    let range_version = reader.i32()?;
    if range_version != 1 {
        return Err(StrmError::UnsupportedRangeVersion(range_version).message());
    }
    let (id, generation) = reader.strong_id()?;
    let name = reader.dotnet_string()?;
    let begin = reader.i32()?;
    let end = reader.i32()?;
    let end_action = reader.i32()?;
    reader.strong_id()?;
    Ok(
        FrameRange {
            id,
            generation,
            name,
            begin,
            end,
            end_action,
            end_action_label: String::from_str(end_action_label(end_action)),
        },
    )
}

/// Parses the user-data blob into the frame-rate override and the list of sections.
#[verifier::loop_isolation(false)]
pub fn parse_user_blob(bytes: &[u8]) -> (r: Result<(Option<i32>, Vec<FrameRange>), String>)
    ensures
        match (r, spec_user_blob(bytes@)) {
            (Ok((o, rs)), Ok((so, srs))) => o == so && ranges_view(rs@) == srs,
            (Err(m), Err(e)) => m@ == error_text(e),
            _ => false,
        },
{
    if bytes.len() == 0 {
        return Ok((None, Vec::new()));
    }
    let ghost data = bytes@;
    let mut reader = BinaryReader::new(bytes);
    let version = reader.i32()?;
    if version != 1 {
        return Err(StrmError::UnsupportedMetadataVersion(version).message());
    }
    let override_value = reader.i32()?;
    reader.strong_id()?;
    let id_count = reader.u32()?;
    if id_count > MAX_BLOB_ENTRIES {
        return Err(StrmError::UnreasonableIdCount.message());
    }
    let ghost ids_start = reader.pos();
    let mut i: u32 = 0;
    while i < id_count
        invariant
            reader.data() == data,
            i <= id_count,
            spec_skip_ids(data, ids_start, i as nat) == Ok::<int, StrmError>(reader.pos()),
        decreases id_count - i,
    {
        match reader.strong_id() {
            Ok(_) => {},
            Err(m) => {
                proof {
                    lemma_skip_ids_error_stays(data, ids_start, (i + 1) as nat, id_count as nat);
                }
                return Err(m);
            },
        }
        i = i + 1;
    }
    let range_count = reader.u32()?;
    if range_count > MAX_BLOB_ENTRIES {
        return Err(StrmError::UnreasonableSectionCount.message());
    }
    let ghost ranges_start = reader.pos();
    let mut ranges: Vec<FrameRange> = Vec::with_capacity(range_count as usize);
    let mut j: u32 = 0;
    assert(ranges_view(ranges@) =~= Seq::<FrameRangeView>::empty());
    while j < range_count
        invariant
            reader.data() == data,
            j <= range_count,
            spec_ranges(data, ranges_start, j as nat) == Ok::<(Seq<FrameRangeView>, int), StrmError>(
                (ranges_view(ranges@), reader.pos()),
            ),
        decreases range_count - j,
    {
        match read_range(&mut reader) {
            Ok(range) => {
                let ghost before = ranges@;
                ranges.push(range);
                assert(ranges_view(ranges@) =~= ranges_view(before).push(range@));
            },
            Err(m) => {
                proof {
                    lemma_ranges_error_stays(data, ranges_start, (j + 1) as nat, range_count as nat);
                }
                return Err(m);
            },
        }
        j = j + 1;
    }
    let frame_rate_override = if override_value > 0 {
        Some(override_value)
    } else {
        None
    };
    Ok((frame_rate_override, ranges))
}

} // verus!
