//! Pictures for a preview.
use vstd::prelude::*;
use vstd::string::*;
use crate::scanner::Finding;
use crate::views::{fragment, fragment_of};

verus! {

/// A decoded picture of `image`, as an opaque value.
#[verifier::external_type_specification]
#[verifier::external_body]
pub struct ExDynamicImage(image::DynamicImage);

/// The width of a picture in pixels.
pub uninterp spec fn width_of(picture: image::DynamicImage) -> u32;

/// The height of a picture in pixels.
pub uninterp spec fn height_of(picture: image::DynamicImage) -> u32;

/// The largest picture that is decoded.
#[derive(Clone, Copy, Debug, PartialEq, Eq, Structural)]
pub struct PictureLimits {
    /// The greatest width in pixels.
    pub max_width: u32,
    /// The greatest height in pixels.
    pub max_height: u32,
    /// The most bytes that may be taken up.
    pub max_alloc: u64,
}

impl PictureLimits {
    /// The sides of a picture, and the bytes that its pixels take up at least, keep
    /// within the limits.
    pub open spec fn allow(self, picture: image::DynamicImage) -> bool {
        &&& width_of(picture) <= self.max_width
        &&& height_of(picture) <= self.max_height
        &&& width_of(picture) * height_of(picture) <= self.max_alloc
    }
}

/// `image::DynamicImage::width`: the width of the picture.
#[verifier::external_body]
fn picture_width(picture: &image::DynamicImage) -> (r: u32)
    ensures
        r == width_of(*picture),
{
    picture.width()
}

/// `image::DynamicImage::height`: the height of the picture.
#[verifier::external_body]
fn picture_height(picture: &image::DynamicImage) -> (r: u32)
    ensures
        r == height_of(*picture),
{
    picture.height()
}

/// `image::ImageReader::decode`, in the format that `with_guessed_format` finds and
/// within limits: the picture that the bytes hold, or why there is none.
///
/// It holds the sides of the picture, and the bytes that its pixels take up, at least
/// one each, against the limits before it reads the pixels. A decoder that a program
/// registers for its whole process could do without; nothing in this project registers
/// one. Which picture comes out, on which bytes there is one, and the text of an error
/// are not stated: they depend on what is registered, too.
#[verifier::external_body]
fn decode_within(bytes: &[u8], limits: &PictureLimits) -> (r: Result<image::DynamicImage, String>)
    ensures
        r matches Ok(picture) ==> limits.allow(picture),
{
    let mut bounds = image::Limits::default();
    bounds.max_image_width = Some(limits.max_width);
    bounds.max_image_height = Some(limits.max_height);
    bounds.max_alloc = Some(limits.max_alloc);
    let mut reader = image::ImageReader::new(std::io::Cursor::new(bytes));
    reader.limits(bounds);
    let guessed = reader.with_guessed_format().map_err(|error| error.to_string())?;
    guessed.decode().map_err(|error| error.to_string())
}

/// The limits of a preview: a small file may claim a huge picture, and a terminal
/// shows little of it.
pub open spec fn preview_limits() -> PictureLimits {
    PictureLimits { max_width: 16_384, max_height: 16_384, max_alloc: 0x400_0000 }
}

/// The limits of a preview.
pub fn image_preview_limits() -> (r: PictureLimits)
    ensures
        r == preview_limits(),
{
    PictureLimits { max_width: 16_384, max_height: 16_384, max_alloc: 0x400_0000 }
}

/// The width and the height of a picture.
pub fn picture_size(picture: &image::DynamicImage) -> (r: (u32, u32))
    ensures
        r == (width_of(*picture), height_of(*picture)),
{
    (picture_width(picture), picture_height(picture))
}

/// Decodes a picture for a preview.
pub fn decode_image_for_preview(fragment: &[u8]) -> (r: Result<image::DynamicImage, String>)
    ensures
        r matches Ok(picture) ==> preview_limits().allow(picture),
{
    decode_within(fragment, &image_preview_limits())
}

/// What is shown where a picture cannot be decoded.
pub open spec fn undecoded_text(reason: Seq<char>) -> Seq<char> {
    "Не вдалося декодувати зображення: "@ + reason
}

/// The picture to be shown, or what is shown in its place.
pub fn picture_or_message(decoded: Result<image::DynamicImage, String>) -> (r: Result<
    image::DynamicImage,
    String,
>)
    ensures
        match (decoded, r) {
            (Ok(picture), Ok(shown)) => shown == picture,
            (Err(reason), Err(message)) => message@ == undecoded_text(reason@),
            _ => false,
        },
{
    match decoded {
        Ok(picture) => Ok(picture),
        Err(reason) => {
            let mut message = "Не вдалося декодувати зображення: ".to_owned();
            message.append(reason.as_str());
            Err(message)
        },
    }
}

/// The preview of a finding, if its bytes are all there: the picture that they hold,
/// or what is shown in its place.
pub fn preview(data: &[u8], finding: &Finding) -> (r: Option<Result<image::DynamicImage, String>>)
    ensures
        r is Some <==> fragment_of(data@, finding@) is Some,
        r matches Some(Ok(picture)) ==> preview_limits().allow(picture),
        r matches Some(Err(message)) ==> "Не вдалося декодувати зображення: "@.is_prefix_of(message@),
{
    let bytes = match fragment(data, finding) {
        Some(bytes) => bytes,
        None => {
            return None;
        },
    };
    match picture_or_message(decode_image_for_preview(bytes)) {
        Ok(picture) => Some(Ok(picture)),
        Err(message) => {
            proof {
                let start = "Не вдалося декодувати зображення: "@;
                assert(start == message@.take(start.len() as int));
            }
            Some(Err(message))
        },
    }
}

} // verus!
