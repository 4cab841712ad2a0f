use vstd::prelude::*;

use crate::config::{opt_view, Icons};
use vstd::string::StringExecFns;

verus! {

/// A decoded window icon: 8-bit RGBA pixels, row by row.
pub struct IconImage {
    pub rgba: Vec<u8>,
    pub width: u32,
    pub height: u32,
}

/// Why no icon could be had.
#[derive(Clone, Copy, PartialEq, Eq, Structural, Debug)]
pub enum IconError {
    /// The icon file could not be read.
    Unreadable,
    /// The file is not an image that can be decoded.
    Undecodable,
}

/// The RGBA pixels, width and height of the image encoded in `bytes`, if it
/// decodes.
pub uninterp spec fn decoded_icon(bytes: Seq<u8>) -> Option<(Seq<u8>, u32, u32)>;

/// Relies on `image::load_from_memory` and `DynamicImage::into_rgba8`: the
/// result depends on the bytes alone.
#[verifier::external_body]
fn decode_rgba(bytes: &Vec<u8>) -> (r: Option<IconImage>)
    ensures
        match r {
            Some(i) => decoded_icon(bytes@) == Some((i.rgba@, i.width, i.height)),
            None => decoded_icon(bytes@) is None,
        },
{
    match image::load_from_memory(bytes) {
        Ok(img) => {
            let rgba = img.into_rgba8();
            let (width, height) = rgba.dimensions();
            Some(IconImage { rgba: rgba.into_raw(), width, height })
        },
        Err(_) => None,
    }
}

/// The icon file used when none is configured for the running system.
pub open spec fn default_icon_path() -> Seq<char> {
    "pywui.png"@
}

/// The icon file for the operating system named `os`: the configured one,
/// else `pywui.png`.
pub fn icon_path(icons: &Icons, os: &str) -> (r: String)
    ensures
        r@ == match opt_view(icons.get_for_current_os_spec(os@)) {
            Some(p) => p,
            None => default_icon_path(),
        },
{
    match icons.get_for_current_os(os) {
        Some(p) => p,
        None => String::from_str("pywui.png"),
    }
}

/// The icon decoded from the bytes of its file, or why there is none; `None`
/// stands for a file that could not be read.
pub fn window_icon(file: Option<Vec<u8>>) -> (r: Result<IconImage, IconError>)
    ensures
        match file {
            None => r == Err::<IconImage, IconError>(IconError::Unreadable),
            Some(b) => match decoded_icon(b@) {
                Some((rgba, w, h)) => r matches Ok(i) && i.rgba@ == rgba && i.width == w
                    && i.height == h,
                None => r == Err::<IconImage, IconError>(IconError::Undecodable),
            },
        },
{
    match file {
        None => Err(IconError::Unreadable),
        Some(bytes) => match decode_rgba(&bytes) {
            Some(i) => Ok(i),
            None => Err(IconError::Undecodable),
        },
    }
}

} // verus!
