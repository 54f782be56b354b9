use vstd::prelude::*;
use vstd::slice::slice_subrange;
use vstd::slice::slice_to_vec;

verus! {

/// Whether an image file carries a color map.
#[derive(Debug, Clone, Copy, PartialEq, Eq, Structural)]
pub enum ColorMapType {
    NoColorMap,
    Present,
    Reserved,
    DeveloperUse,
}

/// How the pixels of an image file are stored.
#[derive(Debug, Clone, Copy, PartialEq, Eq, Structural)]
pub enum ImageType {
    NoImageData,
    UncompressedColorMapped,
    UncompressedTrueColor,
    UncompressedBlackAndWhite,
    RunLengthColorMapped,
    RunLengthTrueColor,
    RunLengthBlackAndWhite,
}

/// The image specification of a file's header.
#[derive(Debug, Clone, Copy, PartialEq, Eq, Structural)]
pub struct ImgSpec {
    pub x_origin: u16,
    pub y_origin: u16,
    pub width: u16,
    pub height: u16,
    pub pixel_depth: u8,
    pub alpha_depth: u8,
    pub pixels_right_to_left: bool,
    pub pixels_top_to_bottom: bool,
}

/// An image file taken apart: its header, and its three runs of bytes as
/// they are stored.
#[derive(Debug, Clone)]
pub struct TgaImage {
    pub color_map_type: ColorMapType,
    pub image_type: ImageType,
    pub img_spec: ImgSpec,
    pub image_data: Vec<u8>,
    pub color_map: Vec<u8>,
    pub image_id: Vec<u8>,
}

/// Why a run of bytes is not an image file.
#[derive(Debug, Clone, Copy, PartialEq, Eq, Structural)]
pub enum TgaError {
    /// The bytes end before the header or one of the runs it announces.
    UnexpectedEof,
    /// The header names an image type that does not exist.
    InvalidImageType,
}

/// The length of the header in bytes.
pub const HEADER_LEN: usize = 18;

/// The number that two bytes hold, the low byte first.
pub open spec fn le16(b: Seq<u8>, at: int) -> int {
    b[at] + 256 * b[at + 1]
}

/// The meaning of the header's color map byte.
pub open spec fn color_map_type_of(b: u8) -> ColorMapType {
    if b == 0 {
        ColorMapType::NoColorMap
    } else if b == 1 {
        ColorMapType::Present
    } else if b <= 127 {
        ColorMapType::Reserved
    } else {
        ColorMapType::DeveloperUse
    }
}

/// The meaning of the header's image type byte, where it has one.
pub open spec fn image_type_of(b: u8) -> Option<ImageType> {
    if b == 0 {
        Some(ImageType::NoImageData)
    } else if b == 1 {
        Some(ImageType::UncompressedColorMapped)
    } else if b == 2 {
        Some(ImageType::UncompressedTrueColor)
    } else if b == 3 {
        Some(ImageType::UncompressedBlackAndWhite)
    } else if b == 9 {
        Some(ImageType::RunLengthColorMapped)
    } else if b == 10 {
        Some(ImageType::RunLengthTrueColor)
    } else if b == 11 {
        Some(ImageType::RunLengthBlackAndWhite)
    } else {
        None
    }
}

/// The image specification that a header holds.
pub open spec fn img_spec_of(b: Seq<u8>) -> ImgSpec {
    ImgSpec {
        x_origin: le16(b, 8) as u16,
        y_origin: le16(b, 10) as u16,
        width: le16(b, 12) as u16,
        height: le16(b, 14) as u16,
        pixel_depth: b[16],
        alpha_depth: b[17] & 0x0f,
        pixels_right_to_left: b[17] & 0x10 != 0,
        pixels_top_to_bottom: b[17] & 0x20 != 0,
    }
}

/// The length of the image id that a header announces.
pub open spec fn id_len(b: Seq<u8>) -> int {
    b[0] as int
}

/// The length of the color map that a header announces: its number of
/// entries times its entry size.
pub open spec fn color_map_len(b: Seq<u8>) -> int {
    le16(b, 5) * b[7]
}

/// The length of the image data that a header announces: one run of whole
/// bytes for each pixel.
pub open spec fn image_data_len(b: Seq<u8>) -> int {
    le16(b, 12) * le16(b, 14) * (b[16] / 8)
}

/// Whether the bytes hold a header and all three runs that it announces.
pub open spec fn complete(b: Seq<u8>) -> bool {
    b.len() >= HEADER_LEN && b.len() >= HEADER_LEN + id_len(b) + color_map_len(b) + image_data_len(
        b,
    )
}

/// Whether `img` is what the bytes of a complete file with an image type
/// that exists hold.
pub open spec fn holds(b: Seq<u8>, img: TgaImage) -> bool {
    let id_end = HEADER_LEN + id_len(b);
    let map_end = id_end + color_map_len(b);
    &&& img.color_map_type == color_map_type_of(b[1])
    &&& Some(img.image_type) == image_type_of(b[2])
    &&& img.img_spec == img_spec_of(b)
    &&& img.image_id@ == b.subrange(HEADER_LEN as int, id_end)
    &&& img.color_map@ == b.subrange(id_end, map_end)
    &&& img.image_data@ == b.subrange(map_end, map_end + image_data_len(b))
}

/// Two bytes as one number, the low byte first.
fn u16_at(bytes: &[u8], at: usize) -> (r: u16)
    requires
        at + 1 < bytes@.len(),
    ensures
        r == le16(bytes@, at as int),
{
    bytes[at] as u16 + 256 * (bytes[at + 1] as u16)
}

/// The lengths of the image id, the color map and the image data that a
/// header announces.
fn run_lens(bytes: &[u8]) -> (r: (u64, u64, u64))
    requires
        bytes@.len() >= HEADER_LEN,
    ensures
        r.0 == id_len(bytes@),
        r.1 == color_map_len(bytes@),
        r.2 == image_data_len(bytes@),
        r.1 <= 0xffff * 0xff,
        r.2 <= 0xffff * 0xffff * 31,
{
    let color_map_length: u16 = u16_at(bytes, 5);
    let color_map_entry_size: u8 = bytes[7];
    let width: u16 = u16_at(bytes, 12);
    let height: u16 = u16_at(bytes, 14);
    let bytes_per_pixel: u8 = bytes[16] / 8;
    assert(color_map_length as u64 * color_map_entry_size as u64 <= 0xffff * 0xff)
        by (nonlinear_arith)
        requires
            color_map_length <= 0xffff,
            color_map_entry_size <= 0xff,
    ;
    assert(width as u64 * height as u64 <= 0xffff * 0xffff) by (nonlinear_arith)
        requires
            width <= 0xffff,
            height <= 0xffff,
    ;
    assert(width as u64 * height as u64 * bytes_per_pixel as u64 <= 0xffff * 0xffff * 31)
        by (nonlinear_arith)
        requires
            width as u64 * height as u64 <= 0xffff * 0xffff,
            bytes_per_pixel <= 31,
    ;
    (
        bytes[0] as u64,
        color_map_length as u64 * color_map_entry_size as u64,
        width as u64 * height as u64 * bytes_per_pixel as u64,
    )
}

/// How many bytes follow the header of an image file: the image id, the
/// color map and the image data that the header announces.
pub fn payload_len(header: &[u8]) -> (n: u64)
    requires
        header@.len() >= HEADER_LEN,
    ensures
        n == id_len(header@) + color_map_len(header@) + image_data_len(header@),
{
    let lens: (u64, u64, u64) = run_lens(header);
    lens.0 + lens.1 + lens.2
}

/// Takes an image file apart. The bytes must hold the header and the image
/// id, color map and image data that it announces, in this order; what
/// follows them is not looked at. The image type is tested last.
pub fn read(bytes: &[u8]) -> (r: Result<TgaImage, TgaError>)
    ensures
        r is Ok <==> complete(bytes@) && image_type_of(bytes@[2]) is Some,
        r matches Ok(img) ==> holds(bytes@, img),
        r matches Err(e) ==> (e == TgaError::UnexpectedEof <==> !complete(bytes@)),
{
    if bytes.len() < HEADER_LEN {
        return Err(TgaError::UnexpectedEof);
    }
    let id_len: u8 = bytes[0];
    let color_map_type: u8 = bytes[1];
    let image_type: u8 = bytes[2];
    let x_origin: u16 = u16_at(bytes, 8);
    let y_origin: u16 = u16_at(bytes, 10);
    let width: u16 = u16_at(bytes, 12);
    let height: u16 = u16_at(bytes, 14);
    let pixel_depth: u8 = bytes[16];
    let image_descriptor: u8 = bytes[17];

    let lens: (u64, u64, u64) = run_lens(bytes);
    let map_len: u64 = lens.1;
    let data_len: u64 = lens.2;
    let needed: u64 = 18 + id_len as u64 + map_len + data_len;
    if (bytes.len() as u64) < needed {
        return Err(TgaError::UnexpectedEof);
    }
    let id_end: usize = 18 + id_len as usize;
    let map_end: usize = id_end + map_len as usize;
    let data_end: usize = map_end + data_len as usize;
    let image_id: Vec<u8> = slice_to_vec(slice_subrange(bytes, 18, id_end));
    let color_map: Vec<u8> = slice_to_vec(slice_subrange(bytes, id_end, map_end));
    let image_data: Vec<u8> = slice_to_vec(slice_subrange(bytes, map_end, data_end));

    let kind: ImageType = match image_type {
        0 => ImageType::NoImageData,
        1 => ImageType::UncompressedColorMapped,
        2 => ImageType::UncompressedTrueColor,
        3 => ImageType::UncompressedBlackAndWhite,
        9 => ImageType::RunLengthColorMapped,
        10 => ImageType::RunLengthTrueColor,
        11 => ImageType::RunLengthBlackAndWhite,
        _ => {
            return Err(TgaError::InvalidImageType);
        },
    };
    Ok(
        TgaImage {
            color_map_type: if color_map_type == 0 {
                ColorMapType::NoColorMap
            } else if color_map_type == 1 {
                ColorMapType::Present
            } else if color_map_type <= 127 {
                ColorMapType::Reserved
            } else {
                ColorMapType::DeveloperUse
            },
            image_type: kind,
            img_spec: ImgSpec {
                pixels_right_to_left: image_descriptor & 0x10 != 0,
                pixels_top_to_bottom: image_descriptor & 0x20 != 0,
                alpha_depth: image_descriptor & 0x0f,
                pixel_depth,
                x_origin,
                y_origin,
                width,
                height,
            },
            image_data,
            color_map,
            image_id,
        },
    )
}

} // verus!
