use strm_inspector::decode::{decode_frame_bytes, lz4_input_fits, sizes_fit};
use strm_inspector::export::ExportStep;
use strm_inspector::stream::LoadedStream;

fn le(v: u32) -> [u8; 4] {
    v.to_le_bytes()
}

/// One BC3 block whose top row is red and whose other rows are blue, all opaque.
fn red_over_blue_block() -> Vec<u8> {
    let mut block = vec![255u8, 255, 0, 0, 0, 0, 0, 0];
    block.extend_from_slice(&0xF800u16.to_le_bytes());
    block.extend_from_slice(&0x001Fu16.to_le_bytes());
    block.extend_from_slice(&[0x00, 0x55, 0x55, 0x55]);
    block
}

fn stream_file(width: u32, height: u32, gpu: u32, frames: &[Vec<u8>], metadata: Option<Vec<u8>>) -> Vec<u8> {
    let mut out = b"STRM".to_vec();
    for f in [2, width, height, frames.len() as u32, gpu, 1, 2, 30, 0, 0] {
        out.extend_from_slice(&le(f));
    }
    let mut offset = 44 + 8 * frames.len();
    for f in frames {
        out.extend_from_slice(&le(offset as u32));
        out.extend_from_slice(&le(f.len() as u32));
        offset += f.len();
    }
    for f in frames {
        out.extend_from_slice(f);
    }
    if let Some(b) = metadata {
        out.extend_from_slice(&le(b.len() as u32));
        out.extend_from_slice(&le(0));
        out.extend_from_slice(&b);
    }
    out
}

fn sections_blob(ranges: &[(&str, i32, i32)]) -> Vec<u8> {
    let mut out = Vec::new();
    out.extend_from_slice(&1i32.to_le_bytes());
    out.extend_from_slice(&0i32.to_le_bytes());
    out.extend_from_slice(&[0; 8]);
    out.extend_from_slice(&le(0));
    out.extend_from_slice(&le(ranges.len() as u32));
    for (name, begin, end) in ranges {
        out.extend_from_slice(&1i32.to_le_bytes());
        out.extend_from_slice(&[0; 8]);
        out.push(name.len() as u8);
        out.extend_from_slice(name.as_bytes());
        out.extend_from_slice(&begin.to_le_bytes());
        out.extend_from_slice(&end.to_le_bytes());
        out.extend_from_slice(&0i32.to_le_bytes());
        out.extend_from_slice(&[0; 8]);
    }
    out
}

fn open(bytes: Vec<u8>) -> LoadedStream {
    LoadedStream::open("/x/clip.strm".to_string(), "clip.strm".to_string(), "My Clip".to_string(), bytes).unwrap()
}

fn pixel(rgba: &[u8], width: usize, row: usize, col: usize) -> [u8; 4] {
    let at = (row * width + col) * 4;
    [rgba[at], rgba[at + 1], rgba[at + 2], rgba[at + 3]]
}

#[test]
fn decodes_bc3_frame_upside_down_as_rgba() {
    let compressed = lz4_flex::block::compress(&red_over_blue_block());
    let rgba = decode_frame_bytes(&compressed, 4, 4, 2, 0).unwrap();
    assert_eq!(rgba.len(), 4 * 4 * 4);
    let top = pixel(&rgba, 4, 0, 0);
    let bottom = pixel(&rgba, 4, 3, 2);
    assert!(top[0] < 16 && top[2] > 240 && top[3] == 255, "top row comes from the last stored row: {top:?}");
    assert!(bottom[0] > 240 && bottom[2] < 16 && bottom[3] == 255, "bottom row comes from the first stored row: {bottom:?}");
}

#[test]
fn decodes_bc7_zero_block() {
    let compressed = lz4_flex::block::compress(&[0u8; 16]);
    let rgba = decode_frame_bytes(&compressed, 3, 2, 4, 0).unwrap();
    assert_eq!(rgba, vec![0u8; 3 * 2 * 4]);
}

#[test]
fn decodes_bc7_white_block() {
    let mut block = vec![0x40u8];
    block.extend_from_slice(&[0xff; 15]);
    let compressed = lz4_flex::block::compress(&block);
    let rgba = decode_frame_bytes(&compressed, 4, 4, 3, 0).unwrap();
    assert_eq!(rgba.len(), 4 * 4 * 4);
    assert!(rgba.iter().all(|&b| b >= 254), "{rgba:?}");
}

#[test]
fn decode_errors() {
    let compressed = lz4_flex::block::compress(&[0u8; 8]);
    assert_eq!(
        decode_frame_bytes(&compressed, 4, 4, 3, 2).err(),
        Some("Frame 2 decoded to 8 bytes; expected 16".to_string())
    );
    let compressed = lz4_flex::block::compress(&[0u8; 16]);
    assert_eq!(
        decode_frame_bytes(&compressed, 4, 4, 1, 0).err(),
        Some("Frame 0 uses unsupported GPU compression format 1".to_string())
    );
    let garbage = [0xf0u8, 1, 2];
    assert_eq!(
        decode_frame_bytes(&garbage, 4, 4, 3, 5).err(),
        Some("Frame 5 LZ4 decode failed: literal is out of bounds of the input".to_string())
    );
    let too_long = lz4_flex::block::compress(&[0u8; 64]);
    assert_eq!(
        decode_frame_bytes(&too_long, 4, 4, 3, 1).err(),
        Some(
            "Frame 1 LZ4 decode failed: provided output is too small for the decompressed data, actual 16, expected 58"
                .to_string()
        )
    );
}

#[test]
fn size_limits() {
    assert!(sizes_fit(4, 4));
    assert!(sizes_fit(1, 1));
    assert!(!sizes_fit(u32::MAX, u32::MAX) || usize::BITS > 64);
}

#[test]
fn stream_frames_decode_to_png() {
    let frame = lz4_flex::block::compress(&red_over_blue_block());
    let stream = open(stream_file(4, 4, 2, &[frame.clone(), frame], None));
    assert!(stream.can_decode_frame(0));
    assert!(stream.can_decode_frame(9));
    assert_eq!(stream.decode_frame_rgba(1).unwrap().len(), 64);
    let png = stream.decode_frame_png(0).unwrap();
    assert_eq!(&png[..8], &[0x89, b'P', b'N', b'G', 0x0d, 0x0a, 0x1a, 0x0a]);
    assert_eq!(stream.decode_frame_rgba(2).err(), Some("Frame 2 is outside the stream".to_string()));
    assert_eq!(stream.decode_frame_png(7).err(), Some("Frame 7 is outside the stream".to_string()));
}

#[test]
fn export_frame_names_and_encodes() {
    let frame = lz4_flex::block::compress(&red_over_blue_block());
    let stream = open(stream_file(4, 4, 2, &[frame.clone(), frame], None));
    let exported = stream.export_frame(1, "Shot 1", "-", 10).unwrap();
    assert_eq!(exported.file_name, "Shot_1-11.png");
    assert_eq!(exported.png, stream.decode_frame_png(1).unwrap());
    assert_eq!(stream.export_frame(1, "a", "", usize::MAX).err(), Some("Export number overflowed".to_string()));
    assert_eq!(stream.export_frame(4, "a", "", 0).err(), Some("Frame 4 is outside the stream".to_string()));
}

fn describe(steps: &[ExportStep]) -> Vec<String> {
    steps
        .iter()
        .map(|s| match s {
            ExportStep::CreateFolder(name) => format!("mkdir {name}"),
            ExportStep::WriteFrame(index, name) => format!("write {index} {name}"),
            ExportStep::Fail(message) => format!("fail {message}"),
        })
        .collect()
}

#[test]
fn export_plan_for_sections() {
    let frames: Vec<Vec<u8>> = (0..4).map(|_| vec![0u8]).collect();
    let blob = sections_blob(&[("Loop / Win", 1, 2), ("All", -1, -1), ("Past", 2, 99)]);
    let stream = open(stream_file(4, 4, 2, &frames, Some(blob)));
    let plan = stream.export_ranges(&[0, 2, 1], "clip", "", 1);
    assert_eq!(plan.root_folder, "My_Clip_export");
    assert_eq!(
        describe(&plan.steps),
        vec![
            "mkdir 00_Loop___Win",
            "write 1 clip_1_frame1.png",
            "write 2 clip_2_frame2.png",
            "mkdir 02_Past",
            "write 2 clip_1_frame2.png",
            "write 3 clip_2_frame3.png",
            "mkdir 01_All",
            "write 0 clip_1_frame0.png",
            "write 1 clip_2_frame1.png",
            "write 2 clip_3_frame2.png",
            "write 3 clip_4_frame3.png",
        ]
    );
}

#[test]
fn export_plan_stops_at_first_failure() {
    let frames: Vec<Vec<u8>> = (0..4).map(|_| vec![0u8]).collect();
    let blob = sections_blob(&[("Ok", 0, 0), ("Backwards", 3, 1), ("Late", 9, -1)]);
    let stream = open(stream_file(4, 4, 2, &frames, Some(blob)));
    let plan = stream.export_ranges(&[0, 1, 0], "f", "-", 0);
    assert_eq!(
        describe(&plan.steps),
        vec!["mkdir 00_Ok", "write 0 f-0-frame0.png", "fail Section 'Backwards' has an invalid frame range"]
    );
    let plan = stream.export_ranges(&[2], "f", "-", 0);
    assert_eq!(describe(&plan.steps), vec!["fail Section 'Late' has an invalid frame range"]);
    let plan = stream.export_ranges(&[0, 5], "f", "-", 0);
    assert_eq!(describe(&plan.steps), vec!["mkdir 00_Ok", "write 0 f-0-frame0.png", "fail Section index 5 does not exist"]);
    let plan = stream.export_ranges(&[], "f", "-", 0);
    assert!(plan.steps.is_empty());
}

#[test]
fn export_plan_stops_when_numbers_overflow() {
    let frames: Vec<Vec<u8>> = (0..3).map(|_| vec![0u8]).collect();
    let stream = open(stream_file(4, 4, 2, &frames, None));
    let plan = stream.export_ranges(&[0], "f", "", usize::MAX - 1);
    let max = usize::MAX;
    assert_eq!(
        describe(&plan.steps),
        vec![
            "mkdir 00_All_Frames".to_string(),
            format!("write 0 f_{}_frame0.png", max - 1),
            format!("write 1 f_{}_frame1.png", max),
            "fail Export number overflowed".to_string(),
        ]
    );
}

#[test]
fn long_runs_of_ff_are_refused_before_decoding() {
    let mut input = vec![0xf0u8];
    input.extend(std::iter::repeat(0xffu8).take(16_843_008));
    input.push(0);
    assert!(lz4_input_fits(&input));
    input.insert(1, 0xff);
    assert!(!lz4_input_fits(&input));
    assert!(lz4_input_fits(&[]));
    let stream = open(stream_file(4, 4, 2, &[input.clone(), input], None));
    assert!(!stream.can_decode_frame(0));
    assert!(!stream.can_decode_frame(1));
    assert!(stream.can_decode_frame(2));
    assert_eq!(stream.decode_frame_png(2).err(), Some("Frame 2 is outside the stream".to_string()));
    assert_eq!(stream.export_frame(1, "a", "", usize::MAX).err(), Some("Export number overflowed".to_string()));
}

#[test]
fn png_error_equals_rgba_error() {
    let garbage = vec![0xf0u8, 1, 2];
    let stream = open(stream_file(4, 4, 3, &[garbage], None));
    assert_eq!(stream.decode_frame_png(0).err(), stream.decode_frame_rgba(0).err());
}
