//! The STRM v2 container: header, frame table and section metadata.
use vstd::prelude::*;
use crate::error::{error_text, StrmError};
use crate::metadata::{
    parse_user_blob, ranges_view, spec_user_blob, FrameRange, FrameRangeView,
};
use crate::reader::{decode_le_u32, le_u32};
use crate::export::{
    export_number, build_export_name, plan_section_exports, spec_export_name, spec_export_plan,
    steps_view, ExportStep,
};
use crate::text::{gpu_compression_label, safe_name, spec_gpu_compression_label, spec_safe_name};
use crate::decode::{
    decode_frame_bytes, encode_frame_png, frame_decoded_as, frame_failure_message,
    frame_sizes_fit, lz4_input_fits, lz4_runs_bounded, png_failure_prefix, png_rgba8_encoding,
    sizes_fit, spec_decode_frame, FrameDecoding,
};

verus! {

/// Size of the fixed header in bytes.
pub const HEADER_SIZE: usize = 44;

/// Size of one frame-table entry in bytes.
pub const FRAME_ENTRY_SIZE: usize = 8;

/// The only container version that is read.
pub const SUPPORTED_VERSION: u32 = 2;

/// The frame compression code for raw LZ4 blocks, the only one that is read.
pub const LZ4_BLOCK_COMPRESSION: u32 = 2;

/// The largest known GPU block-compression code.
pub const MAX_GPU_COMPRESSION: u32 = 5;

/// Where a frame's compressed bytes lie in the file.
#[derive(Clone, Copy)]
pub struct FrameEntry {
    pub offset: usize,
    pub size: usize,
}

/// The numeric fields of the fixed header.
#[derive(Clone, Copy)]
pub struct StreamHeader {
    pub version: u32,
    pub width: u32,
    pub height: u32,
    pub frame_count: u32,
    pub gpu_compression: u32,
    pub alpha_type: u32,
    pub block_compression: u32,
    pub fps: u32,
    pub compressed_frame_bytes: u32,
}

/// Everything that a file's bytes say about the stream.
pub struct StreamLayout {
    pub header: StreamHeader,
    pub frames: Seq<FrameEntry>,
    pub frame_rate_override: Option<i32>,
    pub ranges: Seq<FrameRangeView>,
}

/// Whether the file starts with the magic `STRM`.
pub open spec fn has_magic(file: Seq<u8>) -> bool {
    file[0] == 0x53 && file[1] == 0x54 && file[2] == 0x52 && file[3] == 0x4d
}

/// The header fields as they are stored at their offsets.
pub open spec fn stored_header(file: Seq<u8>) -> StreamHeader {
    StreamHeader {
        version: le_u32(file, 4),
        width: le_u32(file, 8),
        height: le_u32(file, 12),
        frame_count: le_u32(file, 16),
        gpu_compression: le_u32(file, 20),
        alpha_type: le_u32(file, 24),
        block_compression: le_u32(file, 28),
        fps: le_u32(file, 32),
        compressed_frame_bytes: le_u32(file, 36),
    }
}

/// The header of a file, or why it is refused.
pub open spec fn spec_header(file: Seq<u8>) -> Result<StreamHeader, StrmError> {
    let h = stored_header(file);
    if file.len() < HEADER_SIZE || !has_magic(file) {
        Err(StrmError::NotStrm)
    } else if h.version != SUPPORTED_VERSION {
        Err(StrmError::UnsupportedVersion(h.version))
    } else if h.width == 0 || h.height == 0 || h.frame_count == 0 || h.fps == 0 {
        Err(StrmError::InvalidHeader)
    } else if h.gpu_compression > MAX_GPU_COMPRESSION {
        Err(StrmError::UnknownGpuCompression(h.gpu_compression))
    } else if h.block_compression != LZ4_BLOCK_COMPRESSION {
        Err(StrmError::UnsupportedBlockCompression(h.block_compression))
    } else {
        Ok(h)
    }
}

/// The first byte after the frame table.
pub open spec fn table_end(frame_count: u32) -> int {
    HEADER_SIZE + FRAME_ENTRY_SIZE * frame_count
}

/// The table entry of frame `i`.
pub open spec fn stored_entry(file: Seq<u8>, i: int) -> (u32, u32) {
    (le_u32(file, HEADER_SIZE + FRAME_ENTRY_SIZE * i), le_u32(file, HEADER_SIZE + FRAME_ENTRY_SIZE * i + 4))
}

/// The first `n` frame entries, each of which must lie after the table and inside the
/// file, with the end of the furthest of them.
pub open spec fn spec_frames(file: Seq<u8>, tab_end: int, n: nat) -> Result<(Seq<FrameEntry>, int), StrmError>
    decreases n,
{
    if n == 0 {
        Ok((Seq::empty(), 0))
    } else {
        let i = n - 1;
        match spec_frames(file, tab_end, i as nat) {
            Err(e) => Err(e),
            Ok((frames, data_end)) => {
                let (offset, size) = stored_entry(file, i);
                let end = offset + size;
                if end > usize::MAX {
                    Err(StrmError::FrameOffsetOverflow(i as usize))
                } else if offset < tab_end || end > file.len() {
                    Err(StrmError::FrameOutsideFile(i as usize))
                } else {
                    Ok(
                        (
                            frames.push(FrameEntry { offset: offset as usize, size: size as usize }),
                            if end > data_end { end } else { data_end },
                        ),
                    )
                }
            },
        }
    }
}

/// The section metadata after the last frame: an eight-byte header whose first `u32` is
/// the blob size, then the blob. A missing or empty blob means no sections.
pub open spec fn spec_metadata(file: Seq<u8>, data_end: int) -> Result<(Option<i32>, Seq<FrameRangeView>), StrmError> {
    if data_end + 8 > file.len() {
        Ok((None, Seq::empty()))
    } else {
        let blob_size = le_u32(file, data_end);
        let start = data_end + 8;
        if blob_size == 0 || start + blob_size > file.len() {
            Ok((None, Seq::empty()))
        } else {
            spec_user_blob(file.subrange(start, start + blob_size))
        }
    }
}

/// The section that stands for the whole stream when the file names none.
pub open spec fn all_frames_range() -> FrameRangeView {
    FrameRangeView {
        id: 0,
        generation: 0,
        name: "All Frames"@,
        begin: -1i32,
        end: -1i32,
        end_action: 0,
        end_action_label: "Stop"@,
    }
}

/// What a whole file says about the stream, or why it is refused.
pub open spec fn spec_parse_stream(file: Seq<u8>) -> Result<StreamLayout, StrmError> {
    match spec_header(file) {
        Err(e) => Err(e),
        Ok(h) => {
            let tab_end = table_end(h.frame_count);
            if tab_end > usize::MAX {
                Err(StrmError::FrameTableOverflow)
            } else if tab_end > file.len() {
                Err(StrmError::FrameTableBeyondFile)
            } else {
                match spec_frames(file, tab_end, h.frame_count as nat) {
                    Err(e) => Err(e),
                    Ok((frames, data_end)) => match spec_metadata(file, data_end) {
                        Err(e) => Err(e),
                        Ok((frame_rate_override, ranges)) => Ok(
                            StreamLayout {
                                header: h,
                                frames,
                                frame_rate_override,
                                ranges: if ranges.len() == 0 {
                                    seq![all_frames_range()]
                                } else {
                                    ranges
                                },
                            },
                        ),
                    },
                }
            }
        },
    }
}

proof fn lemma_frames_error_stays(file: Seq<u8>, tab_end: int, i: nat, n: nat)
    requires
        i <= n,
        spec_frames(file, tab_end, i) is Err,
    ensures
        spec_frames(file, tab_end, n) == spec_frames(file, tab_end, i),
    decreases n,
{
    if i < n {
        lemma_frames_error_stays(file, tab_end, i, (n - 1) as nat);
    }
}

/// Every entry that `spec_frames` accepts lies after the table and inside the file, and
/// the returned end covers them all.
pub proof fn lemma_frames_in_file(file: Seq<u8>, tab_end: int, n: nat)
    requires
        spec_frames(file, tab_end, n) is Ok,
    ensures
        ({
            let (frames, data_end) = spec_frames(file, tab_end, n)->Ok_0;
            &&& frames.len() == n
            &&& data_end <= file.len()
            &&& forall|i: int|
                0 <= i < n ==> tab_end <= #[trigger] frames[i].offset && frames[i].offset
                    + frames[i].size <= data_end
        }),
    decreases n,
{
    if n > 0 {
        lemma_frames_in_file(file, tab_end, (n - 1) as nat);
    }
}

/// A file that parses describes a stream with nonzero size, frame count and known GPU
/// format, one table entry per frame, every frame after the table and inside the file, and
/// at least one section.
pub proof fn lemma_parsed_stream_fits(file: Seq<u8>)
    requires
        spec_parse_stream(file) is Ok,
    ensures
        spec_parse_stream(file)->Ok_0.header.version == SUPPORTED_VERSION,
        spec_parse_stream(file)->Ok_0.header.block_compression == LZ4_BLOCK_COMPRESSION,
        spec_parse_stream(file)->Ok_0.header.fps > 0,
        layout_fits(file, spec_parse_stream(file)->Ok_0),
        forall|i: int|
            0 <= i < spec_parse_stream(file)->Ok_0.frames.len() ==> table_end(
                spec_parse_stream(file)->Ok_0.header.frame_count,
            ) <= (#[trigger] spec_parse_stream(file)->Ok_0.frames[i]).offset,
{
    let h = spec_header(file)->Ok_0;
    lemma_frames_in_file(file, table_end(h.frame_count), h.frame_count as nat);
}

/// A file's header is accepted exactly when the file has at least 44 bytes, starts with
/// `STRM`, and stores version 2, a nonzero width, height, frame count and frame rate, a GPU
/// format of at most 5 and block compression 2; the accepted header holds the `u32` values
/// stored at offsets 4 to 36.
pub proof fn lemma_header_acceptance(file: Seq<u8>)
    ensures
        spec_header(file) is Ok <==> (file.len() >= 44 && file[0] == 0x53 && file[1] == 0x54
            && file[2] == 0x52 && file[3] == 0x4d && le_u32(file, 4) == 2 && le_u32(file, 8) != 0
            && le_u32(file, 12) != 0 && le_u32(file, 16) != 0 && le_u32(file, 32) != 0 && le_u32(
            file,
            20,
        ) <= 5 && le_u32(file, 28) == 2),
        spec_header(file) is Ok ==> spec_header(file)->Ok_0 == (StreamHeader {
            version: le_u32(file, 4),
            width: le_u32(file, 8),
            height: le_u32(file, 12),
            frame_count: le_u32(file, 16),
            gpu_compression: le_u32(file, 20),
            alpha_type: le_u32(file, 24),
            block_compression: le_u32(file, 28),
            fps: le_u32(file, 32),
            compressed_frame_bytes: le_u32(file, 36),
        }),
{
}

/// Whether table entry `i` is acceptable: its offset (the `u32` at 44 + 8i) is at or after
/// `tab_end`, and that offset plus its size (the `u32` at 48 + 8i) is within the file.
pub open spec fn entry_within(file: Seq<u8>, tab_end: int, i: int) -> bool {
    &&& tab_end <= le_u32(file, 44 + 8 * i)
    &&& le_u32(file, 44 + 8 * i) + le_u32(file, 48 + 8 * i) <= file.len()
}

/// A table of `n` entries is accepted exactly when every entry is acceptable
/// (`entry_within`); entry i then holds the offset and size stored for it, and the
/// returned end lies within the file and at or after every entry's end.
pub proof fn lemma_frame_table_acceptance(file: Seq<u8>, tab_end: int, n: nat)
    requires
        file.len() <= usize::MAX,
    ensures
        spec_frames(file, tab_end, n) is Ok <==> forall|i: int|
            0 <= i < n ==> #[trigger] entry_within(file, tab_end, i),
        spec_frames(file, tab_end, n) is Ok ==> ({
            let (frames, data_end) = spec_frames(file, tab_end, n)->Ok_0;
            &&& frames.len() == n
            &&& data_end <= file.len()
            &&& forall|i: int|
                0 <= i < n ==> (#[trigger] frames[i]).offset == le_u32(file, 44 + 8 * i)
                    && frames[i].size == le_u32(file, 48 + 8 * i) && le_u32(file, 44 + 8 * i)
                    + le_u32(file, 48 + 8 * i) <= data_end
        }),
    decreases n,
{
    if n > 0 {
        let i = n - 1;
        lemma_frame_table_acceptance(file, tab_end, i as nat);
        if spec_frames(file, tab_end, n) is Ok {
            assert(spec_frames(file, tab_end, i as nat) is Ok);
            assert(entry_within(file, tab_end, i));
            assert forall|j: int| 0 <= j < n implies #[trigger] entry_within(file, tab_end, j) by {
                if j < i {
                    assert(entry_within(file, tab_end, j));
                }
            }
        }
        if forall|j: int| 0 <= j < n ==> #[trigger] entry_within(file, tab_end, j) {
            assert(entry_within(file, tab_end, i));
            assert forall|j: int| 0 <= j < i implies #[trigger] entry_within(file, tab_end, j) by {
                assert(entry_within(file, tab_end, j));
            }
            assert(spec_frames(file, tab_end, i as nat) is Ok);
        }
    }
}

/// Opening accepts exactly the files whose header is accepted, whose table of 8-byte
/// entries after the 44-byte header fits in the file, whose entries each lie after the
/// table and inside the file, and whose section metadata after the furthest frame is
/// missing or parses. In particular a file in which some frame ends less than 8 bytes
/// before the end of the file (so no metadata follows) is accepted whatever its frame rate,
/// and the stream reports the header fields as stored.
pub proof fn lemma_open_acceptance(file: Seq<u8>)
    requires
        file.len() <= usize::MAX,
    ensures
        ({
            let count = le_u32(file, 16);
            let tab_end = 44 + 8 * count;
            let header_ok = spec_header(file) is Ok;
            let entries_ok = forall|i: int|
                0 <= i < count ==> #[trigger] entry_within(file, tab_end, i);
            &&& spec_parse_stream(file) is Ok ==> header_ok && tab_end <= file.len() && entries_ok
            &&& header_ok && tab_end <= file.len() && entries_ok ==> (spec_parse_stream(file) is Ok
                <==> spec_metadata(file, spec_frames(file, tab_end, count as nat)->Ok_0.1) is Ok)
            &&& header_ok && tab_end <= file.len() && entries_ok && (exists|i: int|
                0 <= i < count && #[trigger] le_u32(file, 44 + 8 * i) + le_u32(file, 48 + 8 * i)
                    + 8 > file.len()) ==> spec_parse_stream(file) is Ok
            &&& spec_parse_stream(file) is Ok ==> spec_parse_stream(file)->Ok_0.header
                == spec_header(file)->Ok_0 && spec_parse_stream(file)->Ok_0.header.fps == le_u32(
                file,
                32,
            )
        }),
{
    let count = le_u32(file, 16);
    let tab_end = 44 + 8 * count;
    lemma_header_acceptance(file);
    lemma_frame_table_acceptance(file, tab_end, count as nat);
    if spec_frames(file, tab_end, count as nat) is Ok {
        let data_end = spec_frames(file, tab_end, count as nat)->Ok_0.1;
        let frames = spec_frames(file, tab_end, count as nat)->Ok_0.0;
        if exists|i: int|
            0 <= i < count && #[trigger] le_u32(file, 44 + 8 * i) + le_u32(file, 48 + 8 * i) + 8
                > file.len() {
            let i = choose|i: int|
                0 <= i < count && #[trigger] le_u32(file, 44 + 8 * i) + le_u32(file, 48 + 8 * i)
                    + 8 > file.len();
            assert(frames[i].offset == le_u32(file, 44 + 8 * i));
            assert(data_end + 8 > file.len());
        }
    }
}

/// A file without section metadata has exactly one section, covering all frames.
pub proof fn lemma_default_section(file: Seq<u8>)
    requires
        spec_parse_stream(file) is Ok,
        spec_frames(
            file,
            table_end(spec_header(file)->Ok_0.frame_count),
            spec_header(file)->Ok_0.frame_count as nat,
        ) matches Ok((_, data_end)) && data_end + 8 > file.len(),
    ensures
        spec_parse_stream(file)->Ok_0.ranges == seq![all_frames_range()],
        spec_parse_stream(file)->Ok_0.frame_rate_override is None,
        ({
            let r = spec_parse_stream(file)->Ok_0.ranges[0];
            &&& r.name == seq!['A', 'l', 'l', ' ', 'F', 'r', 'a', 'm', 'e', 's']
            &&& r.begin == -1 && r.end == -1 && r.end_action == 0
            &&& r.end_action_label == seq!['S', 't', 'o', 'p']
        }),
{
    reveal_strlit("All Frames");
    reveal_strlit("Stop");
    assert("All Frames"@ =~= seq!['A', 'l', 'l', ' ', 'F', 'r', 'a', 'm', 'e', 's']);
    assert("Stop"@ =~= seq!['S', 't', 'o', 'p']);
}

/// A stream read from a file: where it came from, the file's bytes, and what they say.
pub struct LoadedStream {
    path: String,
    file_name: String,
    file_stem: String,
    contents: Vec<u8>,
    header: StreamHeader,
    frame_rate_override: Option<i32>,
    frames: Vec<FrameEntry>,
    ranges: Vec<FrameRange>,
}

/// The abstract contents of a `LoadedStream`.
pub struct StreamView {
    pub path: Seq<char>,
    pub file_name: Seq<char>,
    pub file_stem: Seq<char>,
    pub data: Seq<u8>,
    pub layout: StreamLayout,
}

impl View for LoadedStream {
    type V = StreamView;

    closed spec fn view(&self) -> StreamView {
        StreamView {
            path: self.path@,
            file_name: self.file_name@,
            file_stem: self.file_stem@,
            data: self.contents@,
            layout: StreamLayout {
                header: self.header,
                frames: self.frames@,
                frame_rate_override: self.frame_rate_override,
                ranges: ranges_view(self.ranges@),
            },
        }
    }
}

/// The stream facts that decoding and exporting rely on.
pub open spec fn layout_fits(data: Seq<u8>, layout: StreamLayout) -> bool {
    &&& layout.header.width > 0
    &&& layout.header.height > 0
    &&& layout.header.frame_count > 0
    &&& layout.header.gpu_compression <= MAX_GPU_COMPRESSION
    &&& layout.frames.len() == layout.header.frame_count
    &&& layout.ranges.len() > 0
    &&& forall|i: int|
        0 <= i < layout.frames.len() ==> #[trigger] layout.frames[i].offset
            + layout.frames[i].size <= data.len()
}

/// The message of a failed parse, or the parsed stream.
pub open spec fn opened_matches(
    r: Result<LoadedStream, String>,
    path: Seq<char>,
    file_name: Seq<char>,
    file_stem: Seq<char>,
    contents: Seq<u8>,
) -> bool {
    match (r, spec_parse_stream(contents)) {
        (Ok(s), Ok(layout)) => s@ == (StreamView {
            path,
            file_name,
            file_stem,
            data: contents,
            layout,
        }),
        (Err(m), Err(e)) => m@ == error_text(e),
        _ => false,
    }
}

/// The compressed bytes of frame `index` of a stream.
pub open spec fn frame_bytes(s: StreamView, index: int) -> Seq<u8> {
    let entry = s.layout.frames[index];
    s.data.subrange(entry.offset as int, entry.offset + entry.size)
}

/// Whether frame `index` of a stream can be decoded without overflowing: its sizes fit in
/// `usize` and its compressed bytes have no run of `0xFF` too long for the LZ4 decoder.
pub open spec fn frame_decodable(s: StreamView, index: int) -> bool {
    &&& frame_sizes_fit(s.layout.header.width, s.layout.header.height)
    &&& lz4_runs_bounded(frame_bytes(s, index))
}

/// What decoding frame `index` of a stream comes to.
pub open spec fn stream_frame_decoding(s: StreamView, index: int) -> FrameDecoding {
    spec_decode_frame(
        frame_bytes(s, index),
        s.layout.header.width,
        s.layout.header.height,
        s.layout.header.gpu_compression,
    )
}

/// Whether `r` is what encoding frame `index` of a stream as PNG gives: the PNG file, or
/// the message of the first failure.
pub open spec fn frame_png_outcome(s: StreamView, index: usize, r: Result<Seq<u8>, Seq<char>>) -> bool {
    if index >= s.layout.frames.len() {
        r == Err::<Seq<u8>, Seq<char>>(error_text(StrmError::FrameNotInStream(index)))
    } else {
        match stream_frame_decoding(s, index as int) {
            FrameDecoding::Pixels(rgba) => match png_rgba8_encoding(
                rgba,
                s.layout.header.width,
                s.layout.header.height,
            ) {
                Some(png) => r == Ok::<Seq<u8>, Seq<char>>(png),
                None => r matches Err(m) && png_failure_prefix(index).is_prefix_of(m),
            },
            outcome => r matches Err(m) && frame_failure_message(
                m,
                outcome,
                s.layout.header.width,
                s.layout.header.height,
                s.layout.header.gpu_compression,
                index,
            ),
        }
    }
}

/// The views of a byte-vector result.
pub open spec fn bytes_result_view(r: Result<Vec<u8>, String>) -> Result<Seq<u8>, Seq<char>> {
    match r {
        Ok(v) => Ok(v@),
        Err(m) => Err(m@),
    }
}

/// A frame ready to be written: its file name and its PNG bytes.
pub struct ExportedFrame {
    pub file_name: String,
    pub png: Vec<u8>,
}

/// The export of sections: the root folder's name and the steps to carry out in it.
pub struct ExportPlan {
    pub root_folder: String,
    pub steps: Vec<ExportStep>,
}

/// What `info` reports about a stream.
#[derive(Debug)]
pub struct StreamInfo {
    pub path: String,
    pub file_name: String,
    pub file_stem: String,
    pub file_size: usize,
    pub version: u32,
    pub width: u32,
    pub height: u32,
    pub frame_count: u32,
    pub fps: u32,
    pub gpu_compression: u32,
    pub gpu_compression_label: String,
    pub alpha_type: u32,
    pub block_compression: u32,
    pub compressed_frame_bytes: u32,
    pub frame_rate_override: Option<i32>,
    pub ranges: Vec<FrameRange>,
}

fn frame_at(contents: &Vec<u8>, index: usize) -> (entry: (u32, u32))
    requires
        HEADER_SIZE + FRAME_ENTRY_SIZE * index + 8 <= contents.len(),
    ensures
        entry == stored_entry(contents@, index as int),
{
    let at = HEADER_SIZE + FRAME_ENTRY_SIZE * index;
    let offset = decode_le_u32(contents[at], contents[at + 1], contents[at + 2], contents[at + 3]);
    let size = decode_le_u32(contents[at + 4], contents[at + 5], contents[at + 6], contents[at + 7]);
    (offset, size)
}

fn header_field(contents: &Vec<u8>, at: usize) -> (v: u32)
    requires
        at + 4 <= contents.len(),
    ensures
        v == le_u32(contents@, at as int),
{
    decode_le_u32(contents[at], contents[at + 1], contents[at + 2], contents[at + 3])
}

/// Reads and checks the fixed header, and finds the end of the frame table.
fn read_header(contents: &Vec<u8>) -> (r: Result<(StreamHeader, usize), String>)
    ensures
        match (r, spec_header(contents@)) {
            (Ok((h, tab_end)), Ok(sh)) => h == sh && tab_end == table_end(h.frame_count)
                && tab_end <= contents.len(),
            (Err(m), Ok(sh)) => if table_end(sh.frame_count) > usize::MAX {
                m@ == error_text(StrmError::FrameTableOverflow)
            } else {
                table_end(sh.frame_count) > contents.len() && m@ == error_text(
                    StrmError::FrameTableBeyondFile,
                )
            },
            (Err(m), Err(e)) => m@ == error_text(e),
            _ => false,
        },
{
    let file_size = contents.len();
    if file_size < HEADER_SIZE {
        return Err(StrmError::NotStrm.message());
    }
    if !(contents[0] == 0x53 && contents[1] == 0x54 && contents[2] == 0x52 && contents[3] == 0x4d) {
        return Err(StrmError::NotStrm.message());
    }
    let version = header_field(contents, 4);
    if version != SUPPORTED_VERSION {
        return Err(StrmError::UnsupportedVersion(version).message());
    }
    let header = StreamHeader {
        version,
        width: header_field(contents, 8),
        height: header_field(contents, 12),
        frame_count: header_field(contents, 16),
        gpu_compression: header_field(contents, 20),
        alpha_type: header_field(contents, 24),
        block_compression: header_field(contents, 28),
        fps: header_field(contents, 32),
        compressed_frame_bytes: header_field(contents, 36),
    };
    assert(header == stored_header(contents@));
    if header.width == 0 || header.height == 0 || header.frame_count == 0 || header.fps == 0 {
        return Err(StrmError::InvalidHeader.message());
    }
    if header.gpu_compression > MAX_GPU_COMPRESSION {
        return Err(StrmError::UnknownGpuCompression(header.gpu_compression).message());
    }
    if header.block_compression != LZ4_BLOCK_COMPRESSION {
        return Err(StrmError::UnsupportedBlockCompression(header.block_compression).message());
    }
    let frame_count = header.frame_count as usize;
    let tab_end = match frame_count.checked_mul(FRAME_ENTRY_SIZE) {
        Some(table_size) => match HEADER_SIZE.checked_add(table_size) {
            Some(end) => end,
            None => {
                return Err(StrmError::FrameTableOverflow.message());
            },
        },
        None => {
            return Err(StrmError::FrameTableOverflow.message());
        },
    };
    if tab_end > file_size {
        return Err(StrmError::FrameTableBeyondFile.message());
    }
    Ok((header, tab_end))
}

/// Reads the frame table, checking every entry, and finds the end of the furthest frame.
fn read_frames(contents: &Vec<u8>, tab_end: usize, frame_count: u32) -> (r: Result<
    (Vec<FrameEntry>, usize),
    String,
>)
    requires
        tab_end == table_end(frame_count),
        tab_end <= contents.len(),
    ensures
        match (r, spec_frames(contents@, tab_end as int, frame_count as nat)) {
            (Ok((frames, data_end)), Ok((sf, se))) => frames@ == sf && data_end == se,
            (Err(m), Err(e)) => m@ == error_text(e),
            _ => false,
        },
{
    let file_size = contents.len();
    let count = frame_count as usize;
    let mut frames: Vec<FrameEntry> = Vec::with_capacity(count);
    let mut frame_data_end: usize = 0;
    let mut index: usize = 0;
    while index < count
        invariant
            index <= count,
            count == frame_count,
            file_size == contents.len(),
            tab_end == table_end(frame_count),
            tab_end <= contents.len(),
            spec_frames(contents@, tab_end as int, index as nat) == Ok::<
                (Seq<FrameEntry>, int),
                StrmError,
            >((frames@, frame_data_end as int)),
        decreases count - index,
    {
        let (offset32, size32) = frame_at(contents, index);
        let offset = offset32 as usize;
        let size = size32 as usize;
        let end = match offset.checked_add(size) {
            Some(end) => end,
            None => {
                proof {
                    lemma_frames_error_stays(
                        contents@,
                        tab_end as int,
                        (index + 1) as nat,
                        count as nat,
                    );
                }
                return Err(StrmError::FrameOffsetOverflow(index).message());
            },
        };
        if offset < tab_end || end > file_size {
            proof {
                lemma_frames_error_stays(contents@, tab_end as int, (index + 1) as nat, count as nat);
            }
            return Err(StrmError::FrameOutsideFile(index).message());
        }
        if end > frame_data_end {
            frame_data_end = end;
        }
        frames.push(FrameEntry { offset, size });
        index = index + 1;
    }
    Ok((frames, frame_data_end))
}

/// Reads the section metadata that follows the last frame.
fn read_metadata(contents: &Vec<u8>, frame_data_end: usize) -> (r: Result<
    (Option<i32>, Vec<FrameRange>),
    String,
>)
    requires
        frame_data_end <= contents.len(),
    ensures
        match (r, spec_metadata(contents@, frame_data_end as int)) {
            (Ok((o, rs)), Ok((so, srs))) => o == so && ranges_view(rs@) == srs,
            (Err(m), Err(e)) => m@ == error_text(e),
            _ => false,
        },
{
    let file_size = contents.len();
    if file_size >= 8 && frame_data_end <= file_size - 8 {
        let blob_size = header_field(contents, frame_data_end) as usize;
        let start = frame_data_end + 8;
        if blob_size == 0 || blob_size > file_size - start {
            let none: Vec<FrameRange> = Vec::new();
            assert(ranges_view(none@) =~= Seq::<FrameRangeView>::empty());
            Ok((None, none))
        } else {
            let blob = &contents.as_slice()[start..start + blob_size];
            parse_user_blob(blob)
        }
    } else {
        let none: Vec<FrameRange> = Vec::new();
        assert(ranges_view(none@) =~= Seq::<FrameRangeView>::empty());
        Ok((None, none))
    }
}

impl LoadedStream {
    #[verifier::type_invariant]
    spec fn parsed_from_contents(self) -> bool {
        &&& spec_parse_stream(self.contents@) == Ok::<StreamLayout, StrmError>(self@.layout)
        &&& layout_fits(self.contents@, self@.layout)
    }

    /// Reads a stream from the whole contents of the file at `path`, whose name and stem
    /// (the name without its extension) are given beside it.
    pub fn open(path: String, file_name: String, file_stem: String, contents: Vec<u8>) -> (r: Result<
        Self,
        String,
    >)
        ensures
            opened_matches(r, path@, file_name@, file_stem@, contents@),
    {
        let (header, tab_end) = read_header(&contents)?;
        let (frames, frame_data_end) = read_frames(&contents, tab_end, header.frame_count)?;
        proof {
            lemma_frames_in_file(contents@, tab_end as int, header.frame_count as nat);
        }
        let (frame_rate_override, mut ranges) = read_metadata(&contents, frame_data_end)?;
        if ranges.len() == 0 {
            ranges.push(
                FrameRange {
                    id: 0,
                    generation: 0,
                    name: String::from_str("All Frames"),
                    begin: -1,
                    end: -1,
                    end_action: 0,
                    end_action_label: String::from_str("Stop"),
                },
            );
            assert(ranges_view(ranges@) =~= seq![all_frames_range()]);
        }
        Ok(
            LoadedStream {
                path,
                file_name,
                file_stem,
                contents,
                header,
                frame_rate_override,
                frames,
                ranges,
            },
        )
    }

    /// Whether frame `index` can be decoded here: either it is not in the stream (which
    /// decoding reports as an error) or `frame_decodable` holds of it.
    pub fn can_decode_frame(&self, index: usize) -> (b: bool)
        ensures
            b == (index < self@.layout.frames.len() ==> frame_decodable(self@, index as int)),
    {
        proof {
            use_type_invariant(self);
        }
        if index >= self.frames.len() {
            return true;
        }
        let entry = self.frames[index];
        assert(entry == self@.layout.frames[index as int]);
        assert(entry.offset + entry.size <= self.contents.len());
        let compressed = &self.contents.as_slice()[entry.offset..entry.offset + entry.size];
        sizes_fit(self.header.width, self.header.height) && lz4_input_fits(compressed)
    }

    /// Decodes frame `index` into RGBA8 pixels, top row first.
    pub fn decode_frame_rgba(&self, index: usize) -> (r: Result<Vec<u8>, String>)
        requires
            index < self@.layout.frames.len() ==> frame_decodable(self@, index as int),
        ensures
            index >= self@.layout.frames.len() ==> (r matches Err(m) && m@ == error_text(
                StrmError::FrameNotInStream(index),
            )),
            index < self@.layout.frames.len() ==> frame_decoded_as(
                r,
                frame_bytes(self@, index as int),
                self@.layout.header.width,
                self@.layout.header.height,
                self@.layout.header.gpu_compression,
                index,
            ),
    {
        proof {
            use_type_invariant(self);
        }
        if index >= self.frames.len() {
            return Err(StrmError::FrameNotInStream(index).message());
        }
        let entry = self.frames[index];
        assert(self@.layout.frames[index as int].offset + self@.layout.frames[index as int].size
            <= self@.data.len());
        assert(entry == self@.layout.frames[index as int]);
        assert(entry.offset + entry.size <= self.contents.len());
        let compressed = &self.contents.as_slice()[entry.offset..entry.offset + entry.size];
        decode_frame_bytes(
            compressed,
            self.header.width,
            self.header.height,
            self.header.gpu_compression,
            index,
        )
    }

    /// Decodes frame `index` and encodes it as a PNG file.
    pub fn decode_frame_png(&self, index: usize) -> (r: Result<Vec<u8>, String>)
        requires
            index < self@.layout.frames.len() ==> frame_decodable(self@, index as int),
        ensures
            frame_png_outcome(self@, index, bytes_result_view(r)),
    {
        proof {
            use_type_invariant(self);
        }
        let rgba = self.decode_frame_rgba(index)?;
        proof {
            crate::decode::lemma_flipped_len(self@.layout.header.width, self@.layout.header.height, rgba@);
        }
        encode_frame_png(rgba.as_slice(), self.header.width, self.header.height, index)
    }

    /// Prepares frame `index` for export: its file name, numbered `start_number + index`,
    /// and its PNG bytes.
    pub fn export_frame(&self, index: usize, file_name: &str, separator: &str, start_number: usize) -> (r: Result<
        ExportedFrame,
        String,
    >)
        requires
            start_number + index <= usize::MAX && index < self@.layout.frames.len()
                ==> frame_decodable(self@, index as int),
        ensures
            start_number + index > usize::MAX ==> (r matches Err(m) && m@ == error_text(
                StrmError::ExportNumberOverflow,
            )),
            start_number + index <= usize::MAX ==> match r {
                Ok(f) => f.file_name@ == spec_export_name(
                    file_name@,
                    separator@,
                    (start_number + index) as nat,
                ) && frame_png_outcome(self@, index, Ok(f.png@)),
                Err(m) => frame_png_outcome(self@, index, Err(m@)),
            },
    {
        let number = export_number(start_number, index)?;
        let name = match build_export_name(file_name, separator, number) {
            Ok(name) => name,
            Err(m) => {
                return Err(m);
            },
        };
        let png = self.decode_frame_png(index)?;
        Ok(ExportedFrame { file_name: name, png })
    }

    /// Plans the export of the sections at `range_indexes`: a root folder named after the
    /// file, and in it one folder per section holding its frames, in order.
    pub fn export_ranges(
        &self,
        range_indexes: &[usize],
        file_name: &str,
        separator: &str,
        start_number: usize,
    ) -> (plan: ExportPlan)
        ensures
            plan.root_folder@ == spec_safe_name(self@.file_stem) + "_export"@,
            steps_view(plan.steps@) == spec_export_plan(
                self@.layout.ranges,
                self@.layout.header.frame_count,
                range_indexes@,
                file_name@,
                separator@,
                start_number,
            ),
    {
        proof {
            use_type_invariant(self);
        }
        let mut root_folder = safe_name(self.file_stem.as_str());
        root_folder.append("_export");
        let steps = plan_section_exports(
            &self.ranges,
            self.header.frame_count,
            range_indexes,
            file_name,
            separator,
            start_number,
        );
        ExportPlan { root_folder, steps }
    }

    /// A summary of the stream for display.
    pub fn info(&self) -> (info: StreamInfo)
        ensures
            info.path@ == self@.path,
            info.file_name@ == self@.file_name,
            info.file_stem@ == self@.file_stem,
            info.file_size == self@.data.len(),
            info.version == self@.layout.header.version,
            info.width == self@.layout.header.width,
            info.height == self@.layout.header.height,
            info.frame_count == self@.layout.header.frame_count,
            info.fps == self@.layout.header.fps,
            info.gpu_compression == self@.layout.header.gpu_compression,
            info.gpu_compression_label@ == spec_gpu_compression_label(
                self@.layout.header.gpu_compression,
            ),
            info.alpha_type == self@.layout.header.alpha_type,
            info.block_compression == self@.layout.header.block_compression,
            info.compressed_frame_bytes == self@.layout.header.compressed_frame_bytes,
            info.frame_rate_override == self@.layout.frame_rate_override,
            ranges_view(info.ranges@) == self@.layout.ranges,
    {
        let ranges = self.ranges.clone();
        assert(ranges@ =~= self.ranges@) by {
            assert forall|i: int| 0 <= i < ranges@.len() implies ranges@[i] == self.ranges@[i] by {
                assert(cloned::<FrameRange>(self.ranges[i], ranges[i]));
            }
        }
        StreamInfo {
            path: self.path.clone(),
            file_name: self.file_name.clone(),
            file_stem: self.file_stem.clone(),
            file_size: self.contents.len(),
            version: self.header.version,
            width: self.header.width,
            height: self.header.height,
            frame_count: self.header.frame_count,
            fps: self.header.fps,
            gpu_compression: self.header.gpu_compression,
            gpu_compression_label: String::from_str(
                gpu_compression_label(self.header.gpu_compression),
            ),
            alpha_type: self.header.alpha_type,
            block_compression: self.header.block_compression,
            compressed_frame_bytes: self.header.compressed_frame_bytes,
            frame_rate_override: self.frame_rate_override,
            ranges,
        }
    }
}

} // verus!
