//! The failures of reading, decoding and exporting a stream, and their messages.
use vstd::prelude::*;
use crate::text::{
    append_decimal, append_signed_decimal, decimal, signed_decimal,
};

verus! {

/// Every way in which reading, decoding or exporting a stream can fail.
pub enum StrmError {
    FileOffsetOverflow,
    FileEnded,
    NotStrm,
    UnsupportedVersion(u32),
    InvalidHeader,
    UnknownGpuCompression(u32),
    UnsupportedBlockCompression(u32),
    FrameTableOverflow,
    FrameTableBeyondFile,
    FrameOffsetOverflow(usize),
    FrameOutsideFile(usize),
    MetadataOffsetOverflow,
    MetadataEnded,
    InvalidNameLength,
    NameNotUtf8,
    UnsupportedMetadataVersion(i32),
    UnreasonableIdCount,
    UnreasonableSectionCount,
    UnsupportedRangeVersion(i32),
    FrameNotInStream(usize),
    Lz4DecodeFailed(usize, String),
    WrongDecodedSize(usize, usize, usize),
    UnsupportedGpuCompression(usize, u32),
    TextureDecodeFailed(usize, String),
    PngEncodeFailed(usize, String),
    ExportNumberOverflow,
    SectionMissing(usize),
    InvalidSectionRange(String),
}

/// The message of a failure, as a sequence of characters.
pub open spec fn error_text(e: StrmError) -> Seq<char> {
    match e {
        StrmError::FileOffsetOverflow => "File offset overflow"@,
        StrmError::FileEnded => "The STRM file ended unexpectedly"@,
        StrmError::NotStrm => "This is not a supported STRM file"@,
        StrmError::UnsupportedVersion(v) => "Unsupported STRM version "@ + decimal(v as nat)
            + "; expected version 2"@,
        StrmError::InvalidHeader =>
            "The STRM header contains invalid dimensions, frame count, or frame rate"@,
        StrmError::UnknownGpuCompression(g) => "GPU compression format "@ + decimal(g as nat)
            + " is not a known BC7 variant"@,
        StrmError::UnsupportedBlockCompression(b) => "Frame compression "@ + decimal(b as nat)
            + " is unsupported; expected LZ4 block compression"@,
        StrmError::FrameTableOverflow => "Frame table size overflow"@,
        StrmError::FrameTableBeyondFile => "The frame table extends beyond the file"@,
        StrmError::FrameOffsetOverflow(i) => "Frame "@ + decimal(i as nat) + " offset overflow"@,
        StrmError::FrameOutsideFile(i) => "Frame "@ + decimal(i as nat)
            + " points outside the file"@,
        StrmError::MetadataOffsetOverflow => "Metadata offset overflow"@,
        StrmError::MetadataEnded => "Section metadata ended unexpectedly"@,
        StrmError::InvalidNameLength => "Invalid section name length"@,
        StrmError::NameNotUtf8 => "Section name is not valid UTF-8"@,
        StrmError::UnsupportedMetadataVersion(v) => "Unsupported section metadata version "@
            + signed_decimal(v as int),
        StrmError::UnreasonableIdCount => "Section ID count is unreasonable"@,
        StrmError::UnreasonableSectionCount => "Section count is unreasonable"@,
        StrmError::UnsupportedRangeVersion(v) => "Unsupported frame range version "@
            + signed_decimal(v as int),
        StrmError::FrameNotInStream(i) => "Frame "@ + decimal(i as nat)
            + " is outside the stream"@,
        StrmError::Lz4DecodeFailed(i, t) => "Frame "@ + decimal(i as nat)
            + " LZ4 decode failed: "@ + t@,
        StrmError::WrongDecodedSize(i, written, expected) => "Frame "@ + decimal(i as nat)
            + " decoded to "@ + decimal(written as nat) + " bytes; expected "@ + decimal(
            expected as nat,
        ),
        StrmError::UnsupportedGpuCompression(i, g) => "Frame "@ + decimal(i as nat)
            + " uses unsupported GPU compression format "@ + decimal(g as nat),
        StrmError::TextureDecodeFailed(i, t) => "Frame "@ + decimal(i as nat)
            + " texture decode failed: "@ + t@,
        StrmError::PngEncodeFailed(i, t) => "Could not encode frame "@ + decimal(i as nat)
            + " as PNG: "@ + t@,
        StrmError::ExportNumberOverflow => "Export number overflowed"@,
        StrmError::SectionMissing(i) => "Section index "@ + decimal(i as nat)
            + " does not exist"@,
        StrmError::InvalidSectionRange(name) => "Section '"@ + name@
            + "' has an invalid frame range"@,
    }
}

fn text_with_number(before: &str, n: u64, after: &str) -> (s: String)
    ensures
        s@ == before@ + decimal(n as nat) + after@,
{
    let mut s = String::from_str(before);
    append_decimal(&mut s, n);
    s.append(after);
    s
}

fn text_with_signed(before: &str, v: i64) -> (s: String)
    ensures
        s@ == before@ + signed_decimal(v as int),
{
    let mut s = String::from_str(before);
    append_signed_decimal(&mut s, v);
    s
}

fn text_with_number_and_text(before: &str, n: u64, middle: &str, t: &String) -> (s: String)
    ensures
        s@ == before@ + decimal(n as nat) + middle@ + t@,
{
    let mut s = text_with_number(before, n, middle);
    s.append(t.as_str());
    s
}

impl StrmError {
    /// The message shown for this failure.
    pub fn message(&self) -> (s: String)
        ensures
            s@ == error_text(*self),
    {
        match self {
            StrmError::FileOffsetOverflow => String::from_str("File offset overflow"),
            StrmError::FileEnded => String::from_str("The STRM file ended unexpectedly"),
            StrmError::NotStrm => String::from_str("This is not a supported STRM file"),
            StrmError::UnsupportedVersion(v) => text_with_number(
                "Unsupported STRM version ",
                *v as u64,
                "; expected version 2",
            ),
            StrmError::InvalidHeader => String::from_str(
                "The STRM header contains invalid dimensions, frame count, or frame rate",
            ),
            StrmError::UnknownGpuCompression(g) => text_with_number(
                "GPU compression format ",
                *g as u64,
                " is not a known BC7 variant",
            ),
            StrmError::UnsupportedBlockCompression(b) => text_with_number(
                "Frame compression ",
                *b as u64,
                " is unsupported; expected LZ4 block compression",
            ),
            StrmError::FrameTableOverflow => String::from_str("Frame table size overflow"),
            StrmError::FrameTableBeyondFile => String::from_str(
                "The frame table extends beyond the file",
            ),
            StrmError::FrameOffsetOverflow(i) => text_with_number(
                "Frame ",
                *i as u64,
                " offset overflow",
            ),
            StrmError::FrameOutsideFile(i) => text_with_number(
                "Frame ",
                *i as u64,
                " points outside the file",
            ),
            StrmError::MetadataOffsetOverflow => String::from_str("Metadata offset overflow"),
            StrmError::MetadataEnded => String::from_str("Section metadata ended unexpectedly"),
            StrmError::InvalidNameLength => String::from_str("Invalid section name length"),
            StrmError::NameNotUtf8 => String::from_str("Section name is not valid UTF-8"),
            StrmError::UnsupportedMetadataVersion(v) => text_with_signed(
                "Unsupported section metadata version ",
                *v as i64,
            ),
            StrmError::UnreasonableIdCount => String::from_str("Section ID count is unreasonable"),
            StrmError::UnreasonableSectionCount => String::from_str(
                "Section count is unreasonable",
            ),
            StrmError::UnsupportedRangeVersion(v) => text_with_signed(
                "Unsupported frame range version ",
                *v as i64,
            ),
            StrmError::FrameNotInStream(i) => text_with_number(
                "Frame ",
                *i as u64,
                " is outside the stream",
            ),
            StrmError::Lz4DecodeFailed(i, t) => text_with_number_and_text(
                "Frame ",
                *i as u64,
                " LZ4 decode failed: ",
                t,
            ),
            StrmError::WrongDecodedSize(i, written, expected) => {
                let mut s = text_with_number("Frame ", *i as u64, " decoded to ");
                append_decimal(&mut s, *written as u64);
                s.append(" bytes; expected ");
                append_decimal(&mut s, *expected as u64);
                s
            },
            StrmError::UnsupportedGpuCompression(i, g) => {
                let mut s = text_with_number(
                    "Frame ",
                    *i as u64,
                    " uses unsupported GPU compression format ",
                );
                append_decimal(&mut s, *g as u64);
                s
            },
            StrmError::TextureDecodeFailed(i, t) => text_with_number_and_text(
                "Frame ",
                *i as u64,
                " texture decode failed: ",
                t,
            ),
            StrmError::PngEncodeFailed(i, t) => text_with_number_and_text(
                "Could not encode frame ",
                *i as u64,
                " as PNG: ",
                t,
            ),
            StrmError::ExportNumberOverflow => String::from_str("Export number overflowed"),
            StrmError::SectionMissing(i) => text_with_number(
                "Section index ",
                *i as u64,
                " does not exist",
            ),
            StrmError::InvalidSectionRange(name) => {
                let mut s = String::from_str("Section '");
                s.append(name.as_str());
                s.append("' has an invalid frame range");
                s
            },
        }
    }
}

} // verus!
