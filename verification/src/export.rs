//! Naming exported PNG files and planning the export of sections.
use vstd::prelude::*;
use crate::error::{error_text, StrmError};
use crate::metadata::{FrameRange, FrameRangeView, ranges_view};
use crate::reader::{as_signed, to_signed};
use crate::text::{
    append_decimal, append_two_digit_decimal, decimal, safe_name, spec_safe_name,
    two_digit_decimal,
};

verus! {

/// The separator placed before numbers in exported file names: `_` when none is given.
pub open spec fn export_separator(separator: Seq<char>) -> Seq<char> {
    if separator.len() == 0 {
        "_"@
    } else {
        separator
    }
}

/// The file name of an exported frame numbered `number`.
pub open spec fn spec_export_name(file_name: Seq<char>, separator: Seq<char>, number: nat) -> Seq<char> {
    spec_safe_name(file_name) + export_separator(separator) + decimal(number) + ".png"@
}

/// The file name of a frame exported from a section: the sequence number within the
/// section, then the frame's index in the stream.
pub open spec fn spec_section_export_name(
    file_name: Seq<char>,
    separator: Seq<char>,
    number: nat,
    frame_index: nat,
) -> Seq<char> {
    spec_safe_name(file_name) + export_separator(separator) + decimal(number) + export_separator(
        separator,
    ) + "frame"@ + decimal(frame_index) + ".png"@
}

/// An exported frame's name is the sanitised file name, the separator (`_` when none is
/// given), the number in decimal and `.png`; a frame exported from a section has the
/// separator, `frame` and the frame's index in decimal before `.png` as well.
pub proof fn lemma_export_name_shape(file_name: Seq<char>, separator: Seq<char>, number: nat, frame_index: nat)
    ensures
        spec_export_name(file_name, separator, number) == spec_safe_name(file_name) + (if separator.len()
            == 0 {
            seq!['_']
        } else {
            separator
        }) + decimal(number) + seq!['.', 'p', 'n', 'g'],
        spec_section_export_name(file_name, separator, number, frame_index) == spec_safe_name(
            file_name,
        ) + (if separator.len() == 0 {
            seq!['_']
        } else {
            separator
        }) + decimal(number) + (if separator.len() == 0 {
            seq!['_']
        } else {
            separator
        }) + seq!['f', 'r', 'a', 'm', 'e'] + decimal(frame_index) + seq!['.', 'p', 'n', 'g'],
{
    reveal_strlit("_");
    reveal_strlit(".png");
    reveal_strlit("frame");
    assert("_"@ =~= seq!['_']);
    assert(".png"@ =~= seq!['.', 'p', 'n', 'g']);
    assert("frame"@ =~= seq!['f', 'r', 'a', 'm', 'e']);
}

/// Builds the file name of an exported frame.
pub fn build_export_name(file_name: &str, separator: &str, number: usize) -> (r: Result<String, String>)
    ensures
        r matches Ok(name) && name@ == spec_export_name(file_name@, separator@, number as nat),
{
    let mut name = safe_name(file_name);
    let separator = if separator.is_empty() {
        "_"
    } else {
        separator
    };
    name.append(separator);
    append_decimal(&mut name, number as u64);
    name.append(".png");
    Ok(name)
}

/// Builds the file name of a frame exported from a section.
pub fn build_section_export_name(
    file_name: &str,
    separator: &str,
    number: usize,
    frame_index: usize,
) -> (name: String)
    ensures
        name@ == spec_section_export_name(
            file_name@,
            separator@,
            number as nat,
            frame_index as nat,
        ),
{
    let mut name = safe_name(file_name);
    let separator = if separator.is_empty() {
        "_"
    } else {
        separator
    };
    name.append(separator);
    append_decimal(&mut name, number as u64);
    name.append(separator);
    name.append("frame");
    append_decimal(&mut name, frame_index as u64);
    name.append(".png");
    name
}

/// The number of the exported file `offset` places after `start_number`.
pub fn export_number(start_number: usize, offset: usize) -> (r: Result<usize, String>)
    ensures
        start_number + offset <= usize::MAX ==> r == Ok::<usize, String>(
            (start_number + offset) as usize,
        ),
        start_number + offset > usize::MAX ==> (r matches Err(m) && m@ == error_text(
            StrmError::ExportNumberOverflow,
        )),
{
    match start_number.checked_add(offset) {
        Some(number) => Ok(number),
        None => Err(StrmError::ExportNumberOverflow.message()),
    }
}

/// One step of exporting sections, to be carried out in order.
pub enum ExportStep {
    /// Create this folder under the export root; later frames go into it.
    CreateFolder(String),
    /// Write frame `.0`, encoded as PNG, under the name `.1` into the current folder.
    WriteFrame(usize, String),
    /// Stop the export with this message.
    Fail(String),
}

/// The plain contents of an `ExportStep`.
pub enum ExportStepView {
    CreateFolder(Seq<char>),
    WriteFrame(usize, Seq<char>),
    Fail(Seq<char>),
}

impl View for ExportStep {
    type V = ExportStepView;

    open spec fn view(&self) -> ExportStepView {
        match self {
            ExportStep::CreateFolder(name) => ExportStepView::CreateFolder(name@),
            ExportStep::WriteFrame(index, name) => ExportStepView::WriteFrame(*index, name@),
            ExportStep::Fail(message) => ExportStepView::Fail(message@),
        }
    }
}

pub open spec fn steps_view(steps: Seq<ExportStep>) -> Seq<ExportStepView> {
    steps.map_values(|s: ExportStep| s@)
}

pub open spec fn min_int(a: int, b: int) -> int {
    if a <= b {
        a
    } else {
        b
    }
}

/// The value that `as usize` gives an `i32`.
pub open spec fn usize_of_i32(v: i32) -> int {
    if v >= 0 {
        v as int
    } else {
        usize::MAX + 1 + v
    }
}

/// The first frame that a section exports: its beginning, or frame 0 when negative.
pub open spec fn section_first(r: FrameRangeView) -> int {
    if r.begin < 0 {
        0
    } else {
        r.begin as int
    }
}

/// The last frame that a section exports: the last frame of the stream when its end is
/// negative, otherwise its end limited to the last frame (both compared as `i32`).
pub open spec fn section_last(r: FrameRangeView, frame_count: u32) -> int {
    if r.end < 0 {
        frame_count - 1
    } else {
        let limit = as_signed((frame_count - 1) as u32);
        usize_of_i32(
            if r.end < limit {
                r.end
            } else {
                limit
            },
        )
    }
}

/// Whether a section names at least one frame of the stream.
pub open spec fn section_is_valid(r: FrameRangeView, frame_count: u32) -> bool {
    !(section_first(r) > section_last(r, frame_count) || section_first(r) >= frame_count)
}

/// The folder of the section at position `range_index`: that position with two digits,
/// `_`, and the section's sanitised name.
pub open spec fn section_folder(r: FrameRangeView, range_index: usize) -> Seq<char> {
    two_digit_decimal(range_index as nat) + "_"@ + spec_safe_name(r.name)
}

/// How many frames the section names.
pub open spec fn section_total(r: FrameRangeView, frame_count: u32) -> int {
    section_last(r, frame_count) - section_first(r) + 1
}

/// How many of a valid section's frames are written before its export stops: the export
/// stops when the file number would pass `usize::MAX` or the frame is not in the stream.
pub open spec fn section_written(r: FrameRangeView, frame_count: u32, start_number: usize) -> int {
    min_int(
        section_total(r, frame_count),
        min_int(usize::MAX - start_number + 1, frame_count - section_first(r)),
    )
}

/// Whether exporting a section writes all of its frames.
pub open spec fn section_completes(r: FrameRangeView, frame_count: u32, start_number: usize) -> bool {
    section_is_valid(r, frame_count) && section_written(r, frame_count, start_number)
        == section_total(r, frame_count)
}

/// The step that writes the `k`-th frame of a section that starts at frame `first`.
pub open spec fn section_frame_step(
    first: int,
    k: int,
    file_name: Seq<char>,
    separator: Seq<char>,
    start_number: usize,
) -> ExportStepView {
    ExportStepView::WriteFrame(
        (first + k) as usize,
        spec_section_export_name(file_name, separator, (start_number + k) as nat, (first + k) as nat),
    )
}

/// The steps of exporting one section.
pub open spec fn section_steps(
    r: FrameRangeView,
    range_index: usize,
    frame_count: u32,
    file_name: Seq<char>,
    separator: Seq<char>,
    start_number: usize,
) -> Seq<ExportStepView> {
    if !section_is_valid(r, frame_count) {
        seq![ExportStepView::Fail("Section '"@ + r.name + "' has an invalid frame range"@)]
    } else {
        let first = section_first(r);
        let written = section_written(r, frame_count, start_number);
        let frames = Seq::new(
            written as nat,
            |k: int| section_frame_step(first, k, file_name, separator, start_number),
        );
        let tail = if written == section_total(r, frame_count) {
            Seq::empty()
        } else if written == usize::MAX - start_number + 1 {
            seq![ExportStepView::Fail(error_text(StrmError::ExportNumberOverflow))]
        } else {
            seq![
                ExportStepView::Fail(
                    error_text(StrmError::FrameNotInStream((first + written) as usize)),
                ),
            ]
        };
        seq![ExportStepView::CreateFolder(section_folder(r, range_index))] + frames + tail
    }
}

/// The steps of exporting the sections at `range_indexes`, in order, up to the first
/// failure.
pub open spec fn spec_export_plan(
    ranges: Seq<FrameRangeView>,
    frame_count: u32,
    range_indexes: Seq<usize>,
    file_name: Seq<char>,
    separator: Seq<char>,
    start_number: usize,
) -> Seq<ExportStepView>
    decreases range_indexes.len(),
{
    if range_indexes.len() == 0 {
        Seq::empty()
    } else {
        let i = range_indexes[0];
        if i >= ranges.len() {
            seq![ExportStepView::Fail(error_text(StrmError::SectionMissing(i)))]
        } else {
            let steps = section_steps(
                ranges[i as int],
                i,
                frame_count,
                file_name,
                separator,
                start_number,
            );
            if section_completes(ranges[i as int], frame_count, start_number) {
                steps + spec_export_plan(
                    ranges,
                    frame_count,
                    range_indexes.drop_first(),
                    file_name,
                    separator,
                    start_number,
                )
            } else {
                steps
            }
        }
    }
}

/// A section's first frame is its beginning, or frame 0 when that is negative; its last
/// frame is its end limited to the last frame of the stream, or the last frame when its end
/// is negative (for streams of at most 2^31 frames). Its folder is its position with at
/// least two digits, `_` and its sanitised name.
pub proof fn lemma_section_bounds(r: FrameRangeView, range_index: usize, frame_count: u32)
    requires
        0 < frame_count <= 0x8000_0000,
    ensures
        section_first(r) == if r.begin < 0 {
            0
        } else {
            r.begin as int
        },
        section_last(r, frame_count) == if r.end < 0 || r.end >= frame_count - 1 {
            frame_count - 1
        } else {
            r.end as int
        },
        section_folder(r, range_index) == two_digit_decimal(range_index as nat) + seq!['_']
            + spec_safe_name(r.name),
{
    reveal_strlit("_");
    assert("_"@ =~= seq!['_']);
}

/// Whether every two consecutive frame-writing steps write consecutive frames.
pub open spec fn writes_in_order(steps: Seq<ExportStepView>) -> bool {
    forall|j: int|
        0 <= j < steps.len() - 1 ==> (#[trigger] steps[j] is WriteFrame && steps[j + 1] is WriteFrame
            ==> steps[j + 1]->WriteFrame_0 == steps[j]->WriteFrame_0 + 1)
}

proof fn lemma_section_in_order(
    r: FrameRangeView,
    range_index: usize,
    frame_count: u32,
    file_name: Seq<char>,
    separator: Seq<char>,
    start_number: usize,
)
    ensures
        ({
            let steps = section_steps(r, range_index, frame_count, file_name, separator, start_number);
            &&& writes_in_order(steps)
            &&& steps.len() > 0
            &&& !(steps[0] is WriteFrame)
        }),
{
    let steps = section_steps(r, range_index, frame_count, file_name, separator, start_number);
    if section_is_valid(r, frame_count) {
        let first = section_first(r);
        let written = section_written(r, frame_count, start_number);
        assert forall|j: int|
            0 <= j < steps.len() - 1 && #[trigger] steps[j] is WriteFrame && steps[j + 1] is WriteFrame
                implies steps[j + 1]->WriteFrame_0 == steps[j]->WriteFrame_0 + 1 by {
            assert(1 <= j && j + 1 <= written);
            assert(steps[j] == section_frame_step(first, j - 1, file_name, separator, start_number));
            assert(steps[j + 1] == section_frame_step(first, j, file_name, separator, start_number));
        }
    }
}

/// Within an export plan, frames are written in the order of the stream: a frame-writing
/// step that follows another writes the next frame. A plan never starts by writing a frame,
/// so each section's frames follow the creation of its folder.
pub proof fn lemma_export_plan_in_order(
    ranges: Seq<FrameRangeView>,
    frame_count: u32,
    range_indexes: Seq<usize>,
    file_name: Seq<char>,
    separator: Seq<char>,
    start_number: usize,
)
    ensures
        ({
            let plan = spec_export_plan(ranges, frame_count, range_indexes, file_name, separator, start_number);
            &&& writes_in_order(plan)
            &&& plan.len() > 0 ==> !(plan[0] is WriteFrame)
        }),
    decreases range_indexes.len(),
{
    if range_indexes.len() > 0 {
        let i = range_indexes[0];
        if i < ranges.len() {
            let r = ranges[i as int];
            lemma_section_in_order(r, i, frame_count, file_name, separator, start_number);
            if section_completes(r, frame_count, start_number) {
                let head = section_steps(r, i, frame_count, file_name, separator, start_number);
                let rest = spec_export_plan(
                    ranges,
                    frame_count,
                    range_indexes.drop_first(),
                    file_name,
                    separator,
                    start_number,
                );
                lemma_export_plan_in_order(
                    ranges,
                    frame_count,
                    range_indexes.drop_first(),
                    file_name,
                    separator,
                    start_number,
                );
                let plan = head + rest;
                assert forall|j: int|
                    0 <= j < plan.len() - 1 && #[trigger] plan[j] is WriteFrame && plan[j + 1] is WriteFrame
                        implies plan[j + 1]->WriteFrame_0 == plan[j]->WriteFrame_0 + 1 by {
                    if j + 1 < head.len() {
                        assert(plan[j] == head[j] && plan[j + 1] == head[j + 1]);
                    } else if j + 1 == head.len() {
                        assert(plan[j + 1] == rest[0]);
                    } else {
                        assert(plan[j] == rest[j - head.len()]);
                        assert(plan[j + 1] == rest[j - head.len() + 1]);
                    }
                }
            }
        }
    }
}

/// A section whose beginning and end are both negative stands for the whole stream: it
/// exports every frame from the first to the last, the `k`-th as frame `k` numbered
/// `start_number + k`, as long as those numbers fit in `usize`.
pub proof fn lemma_negative_bounds_cover_stream(
    r: FrameRangeView,
    range_index: usize,
    frame_count: u32,
    file_name: Seq<char>,
    separator: Seq<char>,
    start_number: usize,
)
    requires
        r.begin < 0,
        r.end < 0,
        frame_count > 0,
        start_number + frame_count - 1 <= usize::MAX,
    ensures
        section_first(r) == 0,
        section_last(r, frame_count) == frame_count - 1,
        section_completes(r, frame_count, start_number),
        ({
            let steps = section_steps(r, range_index, frame_count, file_name, separator, start_number);
            &&& steps.len() == frame_count + 1
            &&& steps[0] == ExportStepView::CreateFolder(section_folder(r, range_index))
            &&& forall|k: int|
                0 <= k < frame_count ==> #[trigger] steps[k + 1] == ExportStepView::WriteFrame(
                    k as usize,
                    spec_section_export_name(file_name, separator, (start_number + k) as nat, k as nat),
                )
        }),
{
}

fn section_last_frame(end: i32, frame_count: u32) -> (last: usize)
    requires
        frame_count > 0,
    ensures
        last == section_last(
            FrameRangeView {
                id: 0,
                generation: 0,
                name: Seq::empty(),
                begin: 0,
                end,
                end_action: 0,
                end_action_label: Seq::empty(),
            },
            frame_count,
        ),
{
    if end < 0 {
        frame_count as usize - 1
    } else {
        let limit = to_signed(frame_count - 1);
        let bounded = if end < limit {
            end
        } else {
            limit
        };
        if bounded >= 0 {
            bounded as usize
        } else {
            usize::MAX - ((-(bounded as i64) - 1) as usize)
        }
    }
}

/// Appends the steps of exporting one section, and tells whether all its frames are
/// written.
fn push_section_steps(
    steps: &mut Vec<ExportStep>,
    range: &FrameRange,
    range_index: usize,
    frame_count: u32,
    file_name: &str,
    separator: &str,
    start_number: usize,
) -> (complete: bool)
    requires
        frame_count > 0,
    ensures
        steps_view(final(steps)@) == steps_view(old(steps)@) + section_steps(
            range@,
            range_index,
            frame_count,
            file_name@,
            separator@,
            start_number,
        ),
        complete == section_completes(range@, frame_count, start_number),
{
    let ghost r = range@;
    let ghost before = steps_view(steps@);
    let first: usize = if range.begin < 0 {
        0
    } else {
        range.begin as usize
    };
    let last = section_last_frame(range.end, frame_count);
    assert(last == section_last(r, frame_count));
    if first > last || first >= frame_count as usize {
        let message = StrmError::InvalidSectionRange(range.name.clone()).message();
        steps.push(ExportStep::Fail(message));
        assert(steps_view(steps@) =~= before + section_steps(
            r,
            range_index,
            frame_count,
            file_name@,
            separator@,
            start_number,
        ));
        return false;
    }
    let mut folder = String::new();
    append_two_digit_decimal(&mut folder, range_index as u64);
    folder.append("_");
    let sanitized = safe_name(range.name.as_str());
    folder.append(sanitized.as_str());
    steps.push(ExportStep::CreateFolder(folder));
    let ghost frames_start = steps_view(steps@);
    assert(frames_start =~= before + seq![ExportStepView::CreateFolder(section_folder(r, range_index))]);
    let ghost written_frames = |j: int|
        section_frame_step(first as int, j, file_name@, separator@, start_number);
    let mut k: usize = 0;
    loop
        invariant
            r == range@,
            before == steps_view(old(steps)@),
            frames_start == before + seq![ExportStepView::CreateFolder(section_folder(r, range_index))],
            first <= last,
            first < frame_count,
            first == section_first(r),
            last == section_last(r, frame_count),
            k <= last - first + 1,
            k <= usize::MAX - start_number + 1,
            k <= frame_count - first,
            written_frames == (|j: int|
                section_frame_step(first as int, j, file_name@, separator@, start_number)),
            steps_view(steps@) == frames_start + Seq::new(k as nat, written_frames),
        decreases last - first + 1 - k,
    {
        if k > last - first {
            assert(section_is_valid(r, frame_count));
            assert(section_total(r, frame_count) == k);
            assert(section_written(r, frame_count, start_number) == k);
            assert(section_steps(r, range_index, frame_count, file_name@, separator@, start_number)
                =~= seq![ExportStepView::CreateFolder(section_folder(r, range_index))] + Seq::new(
                k as nat,
                written_frames,
            ));
            assert(steps_view(steps@) =~= before + section_steps(
                r,
                range_index,
                frame_count,
                file_name@,
                separator@,
                start_number,
            ));
            return true;
        }
        let number = match start_number.checked_add(k) {
            Some(number) => number,
            None => {
                let ghost prior = steps@;
                let message = StrmError::ExportNumberOverflow.message();
                steps.push(ExportStep::Fail(message));
                assert(steps_view(steps@) =~= steps_view(prior).push(ExportStepView::Fail(message@)));
                assert(section_written(r, frame_count, start_number) == k);
                assert(section_steps(r, range_index, frame_count, file_name@, separator@, start_number)
                    =~= seq![ExportStepView::CreateFolder(section_folder(r, range_index))] + Seq::new(
                    k as nat,
                    written_frames,
                ) + seq![ExportStepView::Fail(error_text(StrmError::ExportNumberOverflow))]);
                assert(steps_view(steps@) =~= before + section_steps(
                    r,
                    range_index,
                    frame_count,
                    file_name@,
                    separator@,
                    start_number,
                ));
                return false;
            },
        };
        let frame_index = first + k;
        if frame_index >= frame_count as usize {
            let ghost prior = steps@;
            let message = StrmError::FrameNotInStream(frame_index).message();
            steps.push(ExportStep::Fail(message));
            assert(steps_view(steps@) =~= steps_view(prior).push(ExportStepView::Fail(message@)));
            assert(section_written(r, frame_count, start_number) == k);
            assert(section_steps(r, range_index, frame_count, file_name@, separator@, start_number)
                =~= seq![ExportStepView::CreateFolder(section_folder(r, range_index))] + Seq::new(
                k as nat,
                written_frames,
            ) + seq![ExportStepView::Fail(error_text(StrmError::FrameNotInStream(frame_index)))]);
            assert(steps_view(steps@) =~= before + section_steps(
                r,
                range_index,
                frame_count,
                file_name@,
                separator@,
                start_number,
            ));
            return false;
        }
        let name = build_section_export_name(file_name, separator, number, frame_index);
        let ghost prior = steps@;
        steps.push(ExportStep::WriteFrame(frame_index, name));
        assert(steps_view(steps@) =~= steps_view(prior).push(written_frames(k as int)));
        assert(Seq::new((k + 1) as nat, written_frames) =~= Seq::new(k as nat, written_frames).push(
            written_frames(k as int),
        ));
        k = k + 1;
    }
}

/// Plans the export of the sections at `range_indexes`, in that order.
pub fn plan_section_exports(
    ranges: &Vec<FrameRange>,
    frame_count: u32,
    range_indexes: &[usize],
    file_name: &str,
    separator: &str,
    start_number: usize,
) -> (steps: Vec<ExportStep>)
    requires
        frame_count > 0,
    ensures
        steps_view(steps@) == spec_export_plan(
            ranges_view(ranges@),
            frame_count,
            range_indexes@,
            file_name@,
            separator@,
            start_number,
        ),
{
    let ghost rv = ranges_view(ranges@);
    let ghost whole = spec_export_plan(
        rv,
        frame_count,
        range_indexes@,
        file_name@,
        separator@,
        start_number,
    );
    let mut steps: Vec<ExportStep> = Vec::new();
    let mut p: usize = 0;
    assert(range_indexes@.skip(0) =~= range_indexes@);
    assert(steps_view(steps@) =~= Seq::<ExportStepView>::empty());
    while p < range_indexes.len()
        invariant
            frame_count > 0,
            rv == ranges_view(ranges@),
            p <= range_indexes@.len(),
            whole == spec_export_plan(
                rv,
                frame_count,
                range_indexes@,
                file_name@,
                separator@,
                start_number,
            ),
            whole == steps_view(steps@) + spec_export_plan(
                rv,
                frame_count,
                range_indexes@.skip(p as int),
                file_name@,
                separator@,
                start_number,
            ),
        decreases range_indexes@.len() - p,
    {
        let ghost rest = range_indexes@.skip(p as int);
        assert(rest[0] == range_indexes@[p as int]);
        assert(rest.drop_first() =~= range_indexes@.skip(p + 1));
        let range_index = range_indexes[p];
        if range_index >= ranges.len() {
            steps.push(ExportStep::Fail(StrmError::SectionMissing(range_index).message()));
            assert(steps_view(steps@) =~= whole);
            return steps;
        }
        assert(rv[range_index as int] == ranges@[range_index as int]@);
        let ghost before = steps_view(steps@);
        let complete = push_section_steps(
            &mut steps,
            &ranges[range_index],
            range_index,
            frame_count,
            file_name,
            separator,
            start_number,
        );
        if !complete {
            assert(steps_view(steps@) =~= whole);
            return steps;
        }
        assert(whole =~= steps_view(steps@) + spec_export_plan(
            rv,
            frame_count,
            range_indexes@.skip(p + 1),
            file_name@,
            separator@,
            start_number,
        ));
        p = p + 1;
    }
    assert(steps_view(steps@) =~= whole);
    steps
}

} // verus!
