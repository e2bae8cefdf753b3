//! Writing the scene to a file, so the screen can be read from a terminal.
//!
//! The path comes from whoever is at the other end of the control socket, so the
//! compositor does not follow a symlink there, writes only a regular file, and
//! creates it for its own user alone: a screenshot shows whatever is on the screen,
//! a sign-in code included.

use vstd::prelude::*;
use crate::text;

verus! {

/// What there is at a path before it is opened, not following a symlink.
pub enum Found {
    /// A regular file.
    File,
    /// Something else: a symlink, a FIFO, a device.
    Other,
    /// Nothing.
    Nothing,
    /// It cannot be said.
    Unknown,
}

/// What was opened.
#[derive(Debug, Clone, Copy, PartialEq, Eq, Structural)]
pub struct Opened {
    /// Whether it is a regular file.
    pub is_file: bool,
    /// Whom it belongs to.
    pub uid: u32,
}

/// Whether a path starts at the root.
pub open spec fn is_absolute(path: Seq<char>) -> bool {
    path.len() > 0 && path[0] == '/'
}

/// Why nothing is opened at a path, where nothing is.
pub open spec fn objection(path: Seq<char>, found: Found) -> Option<Seq<char>> {
    if !is_absolute(path) {
        Some("a screenshot path must be absolute"@)
    } else {
        match found {
            Found::File => None,
            Found::Nothing => None,
            Found::Other => Some(path + " is not a regular file"@),
            Found::Unknown => Some("failed to inspect "@ + path),
        }
    }
}

/// Check a path. An absolute one, because the compositor's working directory is nobody's
/// business.
pub fn check_path(path: &str) -> (r: Result<(), String>)
    ensures
        match r {
            Ok(_) => is_absolute(path@),
            Err(why) => !is_absolute(path@) && why@ == "a screenshot path must be absolute"@,
        },
{
    let chars = text::chars_of(path);
    if chars.len() > 0 && chars[0] == '/' {
        Ok(())
    } else {
        Err("a screenshot path must be absolute".to_owned())
    }
}

/// Check what is at a path before opening it: opening a FIFO for writing blocks until a
/// reader appears, and a device node may act on the open itself.
pub fn check_target(path: &str, found: Found) -> (r: Result<(), String>)
    ensures
        match r {
            Ok(_) => objection(path@, found) is None,
            Err(why) => objection(path@, found) == Some(why@),
        },
{
    match check_path(path) {
        Ok(_) => {},
        Err(why) => return Err(why),
    }
    match found {
        Found::File => Ok(()),
        Found::Nothing => Ok(()),
        Found::Other => {
            let mut why = path.to_owned();
            why.append(" is not a regular file");
            Err(why)
        },
        Found::Unknown => {
            let mut why = "failed to inspect ".to_owned();
            why.append(path);
            Err(why)
        },
    }
}

/// Why nothing is written to what was opened, where nothing is.
pub open spec fn opened_objection(path: Seq<char>, opened: Opened, own: u32) -> Option<Seq<char>> {
    if !opened.is_file {
        Some(path + " is not a regular file"@)
    } else if opened.uid != own {
        Some(path + " belongs to another user"@)
    } else {
        None
    }
}

/// Check what was opened: an existing file is only replaced when it is ours.
pub fn check_opened(path: &str, opened: Opened, own: u32) -> (r: Result<(), String>)
    ensures
        match r {
            Ok(_) => opened_objection(path@, opened, own) is None,
            Err(why) => opened_objection(path@, opened, own) == Some(why@),
        },
{
    let mut why = path.to_owned();
    if !opened.is_file {
        why.append(" is not a regular file");
        return Err(why);
    }
    if opened.uid != own {
        why.append(" belongs to another user");
        return Err(why);
    }
    Ok(())
}

/// Only a regular file of our own at an absolute path is ever written to.
pub proof fn law_only_our_own_files_are_written(
    path: Seq<char>,
    found: Found,
    opened: Opened,
    own: u32,
)
    requires
        objection(path, found) is None,
        opened_objection(path, opened, own) is None,
    ensures
        is_absolute(path),
        found is File || found is Nothing,
        opened.is_file,
        opened.uid == own,
{
}

/// The PNG file that `png::Encoder` makes of an image with 8 bits each of red, green, blue
/// and alpha.
pub uninterp spec fn png_file(width: u32, height: u32, pixels: Seq<u8>) -> Seq<u8>;

/// The first eight bytes of every PNG file.
pub open spec fn png_signature() -> Seq<u8> {
    seq![137u8, 80, 78, 71, 13, 10, 26, 10]
}

/// Four bytes as a number, the highest first.
pub open spec fn big_endian(bytes: Seq<u8>) -> int {
    bytes[0] * 0x100_0000 + bytes[1] * 0x1_0000 + bytes[2] * 0x100 + bytes[3]
}

/// Calls `png::Encoder`: `new` on a vector, `set_color`, `set_depth`, `write_header` and
/// `write_image_data`.
///
/// An image that is not empty and has four bytes for each pixel is encoded without fail,
/// and the file depends on the image alone. It begins with the PNG signature, and the
/// header that follows holds the width and the height. How the pixels are compressed is
/// left unsaid.
#[verifier::external_body]
fn encode_image(width: u32, height: u32, pixels: &[u8]) -> (r: Result<Vec<u8>, String>)
    requires
        width > 0,
        height > 0,
        pixels@.len() == width * height * 4,
    ensures
        match r {
            Ok(file) => {
                &&& file@ == png_file(width, height, pixels@)
                &&& file@.len() > 24
                &&& file@.take(8) == png_signature()
                &&& big_endian(file@.subrange(16, 20)) == width
                &&& big_endian(file@.subrange(20, 24)) == height
            },
            Err(_) => false,
        },
{
    let mut file = Vec::new();
    let mut encoder = png::Encoder::new(&mut file, width, height);
    encoder.set_color(png::ColorType::Rgba);
    encoder.set_depth(png::BitDepth::Eight);
    let mut writer = encoder.write_header().map_err(|err| err.to_string())?;
    writer.write_image_data(pixels).map_err(|err| err.to_string())?;
    drop(writer);
    Ok(file)
}

/// What is said where a picture has no size.
pub const NO_HEADER: &'static str = "failed to write the header";

/// What is said where a picture's pixels do not fill it.
pub const NO_IMAGE: &'static str = "failed to write the image";

/// Why an image is not encoded, where it is not: it has no size, or not four bytes for
/// each pixel. Sizes count as unsigned numbers.
pub open spec fn image_objection(width: i32, height: i32, bytes: nat) -> Option<Seq<char>> {
    if width == 0 || height == 0 {
        Some(NO_HEADER@)
    } else if bytes != (width as u32) * (height as u32) * 4 {
        Some(NO_IMAGE@)
    } else {
        None
    }
}

/// Encode a picture as a PNG file.
pub fn encode_png(width: i32, height: i32, pixels: &[u8]) -> (r: Result<Vec<u8>, String>)
    ensures
        match r {
            Ok(file) => {
                &&& image_objection(width, height, pixels@.len()) is None
                &&& file@ == png_file(width as u32, height as u32, pixels@)
                &&& file@.len() > 24
                &&& file@.take(8) == png_signature()
                &&& big_endian(file@.subrange(16, 20)) == width as u32
                &&& big_endian(file@.subrange(20, 24)) == height as u32
            },
            Err(why) => image_objection(width, height, pixels@.len()) == Some(why@),
        },
{
    if width == 0 || height == 0 {
        return Err(NO_HEADER.to_owned());
    }
    let w: u32 = width as u32;
    let h: u32 = height as u32;
    proof {
        assert(width != 0 ==> width as u32 != 0) by (bit_vector);
        assert(height != 0 ==> height as u32 != 0) by (bit_vector);
        assert(0 <= w * h <= 0xffff_ffff * 0xffff_ffff) by (nonlinear_arith)
            requires
                0 <= w <= 0xffff_ffff,
                0 <= h <= 0xffff_ffff,
        ;
    }
    let bytes: u128 = w as u128 * h as u128 * 4;
    if pixels.len() as u128 != bytes {
        return Err(NO_IMAGE.to_owned());
    }
    encode_image(w, h, pixels)
}

/// A picture is written wherever it may be: at an absolute path where there is a regular file
/// or nothing yet, to a regular file of our own. Everything else is refused, and told why.
pub proof fn law_what_may_be_written_is_written(
    path: Seq<char>,
    found: Found,
    opened: Opened,
    own: u32,
)
    ensures
        objection(path, found) is None <==> path.len() > 0 && path[0] == '/' && (found is File
            || found is Nothing),
        opened_objection(path, opened, own) is None <==> opened.is_file && opened.uid == own,
        !(path.len() > 0 && path[0] == '/') ==> objection(path, found) == Some(
            "a screenshot path must be absolute"@,
        ),
        path.len() > 0 && path[0] == '/' && found is Other ==> objection(path, found) == Some(
            path + " is not a regular file"@,
        ),
        path.len() > 0 && path[0] == '/' && found is Unknown ==> objection(path, found) == Some(
            "failed to inspect "@ + path,
        ),
        !opened.is_file ==> opened_objection(path, opened, own) == Some(
            path + " is not a regular file"@,
        ),
        opened.is_file && opened.uid != own ==> opened_objection(path, opened, own) == Some(
            path + " belongs to another user"@,
        ),
{
}

/// A picture is encoded where it has a size and four bytes for each of its pixels, and only
/// there.
pub proof fn law_a_whole_picture_is_encoded(width: i32, height: i32, bytes: nat)
    requires
        width >= 0,
        height >= 0,
    ensures
        image_objection(width, height, bytes) is None <==> width > 0 && height > 0 && bytes == width
            * height * 4,
        width == 0 || height == 0 ==> image_objection(width, height, bytes) == Some(NO_HEADER@),
{
}

}
