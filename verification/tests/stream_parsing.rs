use strm_inspector::metadata::parse_user_blob;
use strm_inspector::reader::{read_u32, BinaryReader};
use strm_inspector::stream::LoadedStream;

fn le(v: u32) -> [u8; 4] {
    v.to_le_bytes()
}

fn push_name(out: &mut Vec<u8>, name: &[u8]) {
    let mut len = name.len();
    loop {
        let byte = (len & 0x7f) as u8;
        len >>= 7;
        if len == 0 {
            out.push(byte);
            break;
        }
        out.push(byte | 0x80);
    }
    out.extend_from_slice(name);
}

fn range_bytes(id: u32, name: &[u8], begin: i32, end: i32, action: i32) -> Vec<u8> {
    let mut out = Vec::new();
    out.extend_from_slice(&1i32.to_le_bytes());
    out.extend_from_slice(&le(id));
    out.extend_from_slice(&le(3));
    push_name(&mut out, name);
    out.extend_from_slice(&begin.to_le_bytes());
    out.extend_from_slice(&end.to_le_bytes());
    out.extend_from_slice(&action.to_le_bytes());
    out.extend_from_slice(&le(0));
    out.extend_from_slice(&le(0));
    out
}

fn blob(override_value: i32, ids: u32, ranges: &[Vec<u8>]) -> Vec<u8> {
    let mut out = Vec::new();
    out.extend_from_slice(&1i32.to_le_bytes());
    out.extend_from_slice(&override_value.to_le_bytes());
    out.extend_from_slice(&le(9));
    out.extend_from_slice(&le(9));
    out.extend_from_slice(&le(ids));
    for i in 0..ids {
        out.extend_from_slice(&le(i));
        out.extend_from_slice(&le(0));
    }
    out.extend_from_slice(&le(ranges.len() as u32));
    for r in ranges {
        out.extend_from_slice(r);
    }
    out
}

/// A stream file with the given header fields, frames and optional metadata blob.
fn stream_file(fields: [u32; 10], frames: &[Vec<u8>], metadata: Option<Vec<u8>>) -> Vec<u8> {
    let mut out = b"STRM".to_vec();
    for f in fields.iter().skip(1) {
        out.extend_from_slice(&le(*f));
    }
    out.truncate(40);
    out.extend_from_slice(&le(0));
    let count = frames.len();
    let mut offset = 44 + 8 * count;
    for f in frames {
        out.extend_from_slice(&le(offset as u32));
        out.extend_from_slice(&le(f.len() as u32));
        offset += f.len();
    }
    for f in frames {
        out.extend_from_slice(f);
    }
    if let Some(b) = metadata {
        out.extend_from_slice(&le(b.len() as u32));
        out.extend_from_slice(&le(0));
        out.extend_from_slice(&b);
    }
    out
}

fn fields(width: u32, height: u32, frames: u32, gpu: u32) -> [u32; 10] {
    [0, 2, width, height, frames, gpu, 1, 2, 30, 1234]
}

fn open(bytes: Vec<u8>) -> Result<LoadedStream, String> {
    LoadedStream::open("/tmp/clip.strm".to_string(), "clip.strm".to_string(), "clip".to_string(), bytes)
}

#[test]
fn reads_little_endian_u32() {
    let bytes = [0x78, 0x56, 0x34, 0x12, 0xff];
    assert_eq!(read_u32(&bytes, 0), Ok(0x1234_5678));
    assert_eq!(read_u32(&bytes, 1), Ok(0xff12_3456));
    assert_eq!(read_u32(&bytes, 2), Err("The STRM file ended unexpectedly".to_string()));
    assert_eq!(read_u32(&bytes, usize::MAX - 1), Err("File offset overflow".to_string()));
}

#[test]
fn binary_reader_reads_in_sequence() {
    let mut bytes = Vec::new();
    bytes.extend_from_slice(&le(7));
    bytes.extend_from_slice(&(-2i32).to_le_bytes());
    bytes.extend_from_slice(&le(10));
    bytes.extend_from_slice(&le(11));
    push_name(&mut bytes, "Intro é".as_bytes());
    let mut reader = BinaryReader::new(&bytes);
    assert_eq!(reader.u32(), Ok(7));
    assert_eq!(reader.i32(), Ok(-2));
    assert_eq!(reader.strong_id(), Ok((10, 11)));
    assert_eq!(reader.dotnet_string(), Ok("Intro é".to_string()));
    assert_eq!(reader.take(1), Err("Section metadata ended unexpectedly".to_string()));
}

#[test]
fn binary_reader_take_hands_out_bytes() {
    let bytes = [1u8, 2, 3];
    let mut reader = BinaryReader::new(&bytes);
    assert_eq!(reader.take(2), Ok(&[1u8, 2][..]));
    assert_eq!(reader.take(2), Err("Section metadata ended unexpectedly".to_string()));
    assert_eq!(reader.take(1), Ok(&[3u8][..]));
    assert_eq!(reader.take(usize::MAX), Err("Metadata offset overflow".to_string()));
}

#[test]
fn long_string_length_uses_several_groups() {
    let name = vec![b'a'; 300];
    let mut bytes = Vec::new();
    push_name(&mut bytes, &name);
    assert_eq!(&bytes[..2], &[0xac, 0x02]);
    let mut reader = BinaryReader::new(&bytes);
    assert_eq!(reader.dotnet_string(), Ok("a".repeat(300)));
}

#[test]
fn string_length_of_six_groups_is_refused() {
    let bytes = [0x80u8, 0x80, 0x80, 0x80, 0x80, 0x00];
    let mut reader = BinaryReader::new(&bytes);
    assert_eq!(reader.dotnet_string(), Err("Invalid section name length".to_string()));
}

#[test]
fn string_must_be_utf8() {
    let bytes = [0x02u8, 0xc3, 0x28];
    let mut reader = BinaryReader::new(&bytes);
    assert_eq!(reader.dotnet_string(), Err("Section name is not valid UTF-8".to_string()));
}

#[test]
fn empty_blob_has_no_sections() {
    let (override_value, ranges) = parse_user_blob(&[]).unwrap();
    assert_eq!(override_value, None);
    assert!(ranges.is_empty());
}

#[test]
fn blob_with_sections() {
    let b = blob(24, 2, &[range_bytes(5, b"Loop / Win", 0, 9, 100), range_bytes(6, b"Tail", -1, -1, 200)]);
    let (override_value, ranges) = parse_user_blob(&b).unwrap();
    assert_eq!(override_value, Some(24));
    assert_eq!(ranges.len(), 2);
    assert_eq!(ranges[0].id, 5);
    assert_eq!(ranges[0].generation, 3);
    assert_eq!(ranges[0].name, "Loop / Win");
    assert_eq!((ranges[0].begin, ranges[0].end, ranges[0].end_action), (0, 9, 100));
    assert_eq!(ranges[0].end_action_label, "Loop");
    assert_eq!(ranges[1].name, "Tail");
    assert_eq!(ranges[1].end_action_label, "Play section");
}

#[test]
fn non_positive_override_is_dropped() {
    let (override_value, _) = parse_user_blob(&blob(0, 0, &[])).unwrap();
    assert_eq!(override_value, None);
    let (override_value, _) = parse_user_blob(&blob(-5, 0, &[])).unwrap();
    assert_eq!(override_value, None);
}

#[test]
fn blob_errors() {
    let mut b = blob(1, 0, &[]);
    b[0] = 2;
    assert_eq!(parse_user_blob(&b).err(), Some("Unsupported section metadata version 2".to_string()));
    let mut b = blob(1, 0, &[]);
    b[..4].copy_from_slice(&(-3i32).to_le_bytes());
    assert_eq!(parse_user_blob(&b).err(), Some("Unsupported section metadata version -3".to_string()));
    let mut b = blob(1, 0, &[]);
    b[16..20].copy_from_slice(&le(100_001));
    assert_eq!(parse_user_blob(&b).err(), Some("Section ID count is unreasonable".to_string()));
    let mut b = blob(1, 0, &[]);
    b[20..24].copy_from_slice(&le(100_001));
    assert_eq!(parse_user_blob(&b).err(), Some("Section count is unreasonable".to_string()));
    let mut r = range_bytes(1, b"x", 0, 0, 0);
    r[0] = 7;
    assert_eq!(parse_user_blob(&blob(1, 0, &[r])).err(), Some("Unsupported frame range version 7".to_string()));
    let b = blob(1, 3, &[]);
    assert_eq!(parse_user_blob(&b[..30]).err(), Some("Section metadata ended unexpectedly".to_string()));
}

#[test]
fn opens_stream_without_metadata() {
    let bytes = stream_file(fields(8, 4, 2, 3), &[vec![1, 2, 3], vec![4, 5]], None);
    let size = bytes.len();
    let stream = open(bytes).unwrap();
    let info = stream.info();
    assert_eq!(info.path, "/tmp/clip.strm");
    assert_eq!(info.file_name, "clip.strm");
    assert_eq!(info.file_stem, "clip");
    assert_eq!(info.file_size, size);
    assert_eq!((info.version, info.width, info.height, info.frame_count), (2, 8, 4, 2));
    assert_eq!((info.gpu_compression, info.alpha_type, info.block_compression, info.fps), (3, 1, 2, 30));
    assert_eq!(info.compressed_frame_bytes, 1234);
    assert_eq!(info.gpu_compression_label, "BC7 / Standard");
    assert_eq!(info.frame_rate_override, None);
    assert_eq!(info.ranges.len(), 1);
    assert_eq!(info.ranges[0].name, "All Frames");
    assert_eq!((info.ranges[0].begin, info.ranges[0].end), (-1, -1));
    assert_eq!(info.ranges[0].end_action_label, "Stop");
}

#[test]
fn opens_stream_with_metadata() {
    let b = blob(12, 1, &[range_bytes(5, b"Intro", 0, 0, 0)]);
    let bytes = stream_file(fields(8, 4, 1, 2), &[vec![9, 9]], Some(b));
    let info = open(bytes).unwrap().info();
    assert_eq!(info.frame_rate_override, Some(12));
    assert_eq!(info.ranges.len(), 1);
    assert_eq!(info.ranges[0].name, "Intro");
}

#[test]
fn empty_or_truncated_blob_means_default_section() {
    let bytes = stream_file(fields(8, 4, 1, 2), &[vec![9, 9]], Some(Vec::new()));
    assert_eq!(open(bytes).unwrap().info().ranges[0].name, "All Frames");
    let mut bytes = stream_file(fields(8, 4, 1, 2), &[vec![9, 9]], Some(blob(1, 0, &[])));
    bytes.pop();
    assert_eq!(open(bytes).unwrap().info().ranges[0].name, "All Frames");
}

#[test]
fn broken_blob_fails_open() {
    let mut b = blob(1, 0, &[]);
    b[0] = 3;
    let bytes = stream_file(fields(8, 4, 1, 2), &[vec![9, 9]], Some(b));
    assert_eq!(open(bytes).err(), Some("Unsupported section metadata version 3".to_string()));
}

#[test]
fn header_errors() {
    assert_eq!(open(vec![0; 10]).err(), Some("This is not a supported STRM file".to_string()));
    let mut bytes = stream_file(fields(8, 4, 1, 2), &[vec![1]], None);
    bytes[0] = b'X';
    assert_eq!(open(bytes).err(), Some("This is not a supported STRM file".to_string()));
    let mut f = fields(8, 4, 1, 2);
    f[1] = 3;
    assert_eq!(
        open(stream_file(f, &[vec![1]], None)).err(),
        Some("Unsupported STRM version 3; expected version 2".to_string())
    );
    assert_eq!(
        open(stream_file(fields(0, 4, 1, 2), &[vec![1]], None)).err(),
        Some("The STRM header contains invalid dimensions, frame count, or frame rate".to_string())
    );
    let mut f = fields(8, 4, 1, 2);
    f[8] = 0;
    assert_eq!(
        open(stream_file(f, &[vec![1]], None)).err(),
        Some("The STRM header contains invalid dimensions, frame count, or frame rate".to_string())
    );
    assert_eq!(
        open(stream_file(fields(8, 4, 1, 6), &[vec![1]], None)).err(),
        Some("GPU compression format 6 is not a known BC7 variant".to_string())
    );
    let mut f = fields(8, 4, 1, 2);
    f[7] = 1;
    assert_eq!(
        open(stream_file(f, &[vec![1]], None)).err(),
        Some("Frame compression 1 is unsupported; expected LZ4 block compression".to_string())
    );
}

#[test]
fn frame_table_errors() {
    let mut bytes = stream_file(fields(8, 4, 1, 2), &[vec![1]], None);
    bytes[16..20].copy_from_slice(&le(50));
    assert_eq!(open(bytes).err(), Some("The frame table extends beyond the file".to_string()));
    let mut bytes = stream_file(fields(8, 4, 2, 2), &[vec![1], vec![2]], None);
    bytes[52..56].copy_from_slice(&le(10));
    assert_eq!(open(bytes).err(), Some("Frame 1 points outside the file".to_string()));
    let mut bytes = stream_file(fields(8, 4, 2, 2), &[vec![1], vec![2]], None);
    bytes[56..60].copy_from_slice(&le(100));
    assert_eq!(open(bytes).err(), Some("Frame 1 points outside the file".to_string()));
}

#[test]
fn failed_strong_id_keeps_first_value_consumed() {
    let bytes = [7u8, 0, 0, 0, 1, 0];
    let mut reader = BinaryReader::new(&bytes);
    assert_eq!(reader.strong_id(), Err("Section metadata ended unexpectedly".to_string()));
    assert_eq!(reader.take(2), Ok(&[1u8, 0][..]));
}

#[test]
fn refused_length_prefix_stops_after_five_bytes() {
    let bytes = [0x80u8, 0x80, 0x80, 0x80, 0x80, 0x00];
    let mut reader = BinaryReader::new(&bytes);
    assert_eq!(reader.dotnet_string(), Err("Invalid section name length".to_string()));
    assert_eq!(reader.take(1), Ok(&[0u8][..]));
}

#[test]
fn blob_ignores_trailing_bytes_and_refuses_truncation() {
    let b = blob(7, 1, &[range_bytes(5, b"Intro", 0, 3, 0)]);
    let mut longer = b.clone();
    longer.extend_from_slice(&[1, 2, 3, 4, 5]);
    let (o1, r1) = parse_user_blob(&b).unwrap();
    let (o2, r2) = parse_user_blob(&longer).unwrap();
    assert_eq!(o1, o2);
    assert_eq!(r1.len(), r2.len());
    assert_eq!(r1[0].name, r2[0].name);
    for k in 1..b.len() {
        assert_eq!(parse_user_blob(&b[..k]).err(), Some("Section metadata ended unexpectedly".to_string()), "cut at {k}");
    }
}
