//! Decoding of image payloads into RGBA pixels, behind a cap on their size.

use crate::text::{decimal, push_decimal};
use vstd::prelude::*;

verus! {

/// The errors of the image decoders.
#[verifier::external_type_specification]
#[verifier::external_body]
pub struct ExImageError(image::ImageError);

/// Why an image did not make it into the store.
#[derive(Debug)]
pub enum DecodeError {
    /// The payload is malformed or in a format that is not supported.
    Decode(image::ImageError),
    /// The image has more pixels than the configured cap.
    TooLarge { pixels: u64, max: u64 },
    /// The request waited longer than its timeout.
    TimedOut { elapsed_ms: u64 },
    /// The image would push the store past its byte cap.
    BudgetExceeded { needed: usize, available: usize },
    /// A frame arrived before the image it belongs to was decoded.
    ParentNotReady,
}

/// What an error says.
pub open spec fn error_text(error: DecodeError, text: Seq<char>) -> bool {
    match error {
        DecodeError::Decode(e) => exists|detail: String| #[trigger]
            vstd::string::to_string_from_display_ensures(&e, detail) && text
                == "decode failed: "@ + detail@,
        DecodeError::TooLarge { pixels, max } => text == "image too large: "@ + decimal(
            pixels as nat,
        ) + " pixels (max "@ + decimal(max as nat) + ")"@,
        DecodeError::TimedOut { elapsed_ms } => text == "decode timed out after "@ + decimal(
            elapsed_ms as nat,
        ) + "ms"@,
        DecodeError::BudgetExceeded { needed, available } => text == "image needs "@ + decimal(
            needed as nat,
        ) + " bytes, only "@ + decimal(available as nat) + " free in cache"@,
        DecodeError::ParentNotReady => text
            == "animation frame arrived before parent image finished decoding"@,
    }
}

impl DecodeError {
    /// The message for the user.
    pub fn describe(&self) -> (text: String)
        ensures
            error_text(*self, text@),
    {
        match self {
            DecodeError::Decode(e) => {
                let detail: String = e.to_string();
                let mut text: String = "decode failed: ".to_owned();
                text.append(detail.as_str());
                text
            },
            DecodeError::TooLarge { pixels, max } => {
                let mut text: String = "image too large: ".to_owned();
                push_decimal(&mut text, *pixels);
                text.append(" pixels (max ");
                push_decimal(&mut text, *max);
                text.append(")");
                text
            },
            DecodeError::TimedOut { elapsed_ms } => {
                let mut text: String = "decode timed out after ".to_owned();
                push_decimal(&mut text, *elapsed_ms);
                text.append("ms");
                text
            },
            DecodeError::BudgetExceeded { needed, available } => {
                let mut text: String = "image needs ".to_owned();
                push_decimal(&mut text, *needed as u64);
                text.append(" bytes, only ");
                push_decimal(&mut text, *available as u64);
                text.append(" free in cache");
                text
            },
            DecodeError::ParentNotReady => {
                "animation frame arrived before parent image finished decoding".to_owned()
            },
        }
    }
}

/// The size in the header of an image payload, where one can be read.
pub uninterp spec fn header_dimensions(bytes: Seq<u8>) -> Option<(u32, u32)>;

/// The pixels, width and height of an image payload, where it can be decoded.
pub uninterp spec fn decoded_image(bytes: Seq<u8>) -> Option<(Seq<u8>, u32, u32)>;

/// Reads the header of a payload with `image::io::Reader`: its
/// `with_guessed_format` picks the format from the first bytes and its
/// `into_dimensions` reads the size. The result is named by
/// [`header_dimensions`]; it depends on the bytes alone.
#[verifier::external_body]
fn read_header(bytes: &[u8]) -> (size: Option<(u32, u32)>)
    ensures
        size == header_dimensions(bytes@),
{
    image::io::Reader::new(std::io::Cursor::new(bytes))
        .with_guessed_format()
        .ok()?
        .into_dimensions()
        .ok()
}

/// The number that four bytes stand for, the highest first.
pub open spec fn big_endian(bytes: Seq<u8>, at: int) -> int {
    bytes[at] * 0x100_0000 + bytes[at + 1] * 0x1_0000 + bytes[at + 2] * 0x100 + bytes[at + 3]
}

/// Whether four bytes spell a chunk's name.
pub open spec fn named(bytes: Seq<u8>, at: int, name: Seq<u8>) -> bool {
    bytes.subrange(at, at + 4) == name
}

/// The name of the chunk with the colour table.
pub open spec fn plte() -> Seq<u8> {
    seq![0x50u8, 0x4c, 0x54, 0x45]
}

/// The name of a chunk with pixels.
pub open spec fn idat() -> Seq<u8> {
    seq![0x49u8, 0x44, 0x41, 0x54]
}

/// The name of a chunk with pixels of an animation.
pub open spec fn fdat() -> Seq<u8> {
    seq![0x66u8, 0x64, 0x41, 0x54]
}

/// Whether a colour table can have this length: three bytes for each of at most
/// 256 colours.
pub open spec fn palette_length(n: int) -> bool {
    n % 3 == 0 && n <= 768
}

/// `a - b`, and zero below.
pub open spec fn less(a: int, b: int) -> int {
    if a < b {
        0
    } else {
        a - b
    }
}

/// Whether every colour table among the chunks from `at` on, up to the pixels,
/// has a valid length. A chunk is four bytes of length, four of name, that many
/// bytes, and four more.
pub open spec fn palettes_fit(bytes: Seq<u8>, at: int) -> bool
    decreases less(bytes.len() as int, at),
{
    if at < 0 || at + 8 > bytes.len() || named(bytes, at + 4, idat()) || named(
        bytes,
        at + 4,
        fdat(),
    ) {
        true
    } else if named(bytes, at + 4, plte()) && !palette_length(big_endian(bytes, at)) {
        false
    } else {
        palettes_fit(bytes, at + 12 + big_endian(bytes, at))
    }
}

/// The bytes that a PNG starts with.
pub open spec fn png_signature() -> Seq<u8> {
    seq![0x89u8, 0x50, 0x4e, 0x47, 0x0d, 0x0a, 0x1a, 0x0a]
}

/// Whether a payload is a PNG with colour indices for pixels: its colour type is
/// the 26th byte.
pub open spec fn indexed(bytes: Seq<u8>) -> bool {
    &&& bytes.len() > 25
    &&& bytes.subrange(0, 8) == png_signature()
    &&& bytes[25] == 3
}

/// Whether a payload has a colour table of valid length, where it needs one: the
/// chunks of a PNG start after its signature, and only indices look at the table.
pub open spec fn palette_sound(bytes: Seq<u8>) -> bool {
    indexed(bytes) ==> palettes_fit(bytes, 8)
}

/// The number that four bytes stand for.
fn read_big_endian(bytes: &[u8], at: usize) -> (n: u32)
    requires
        at + 4 <= bytes@.len(),
    ensures
        n == big_endian(bytes@, at as int),
{
    bytes[at] as u32 * 0x100_0000 + bytes[at + 1] as u32 * 0x1_0000 + bytes[at + 2] as u32 * 0x100
        + bytes[at + 3] as u32
}

/// Whether four bytes spell a chunk's name.
fn spells_name(bytes: &[u8], at: usize, a: u8, b: u8, c: u8, d: u8) -> (same: bool)
    requires
        at + 4 <= bytes@.len(),
    ensures
        same == named(bytes@, at as int, seq![a, b, c, d]),
{
    let ghost four = bytes@.subrange(at as int, at + 4);
    let same: bool = bytes[at] == a && bytes[at + 1] == b && bytes[at + 2] == c && bytes[at + 3]
        == d;
    proof {
        assert(four[0] == bytes@[at as int] && four[1] == bytes@[at + 1] && four[2] == bytes@[at
            + 2] && four[3] == bytes@[at + 3]);
        if same {
            assert(four =~= seq![a, b, c, d]);
        }
    }
    same
}

/// Whether a payload has a colour table of valid length, where it needs one.
pub fn has_sound_palette(bytes: &[u8]) -> (b: bool)
    ensures
        b == palette_sound(bytes@),
{
    if bytes.len() <= 25 || bytes[25] != 3 {
        return true;
    }
    let ghost head = bytes@.subrange(0, 8);
    if !spells_name(bytes, 0, 0x89, 0x50, 0x4e, 0x47) || !spells_name(
        bytes,
        4,
        0x0d,
        0x0a,
        0x1a,
        0x0a,
    ) {
        proof {
            if head == png_signature() {
                assert(bytes@.subrange(0, 4) =~= head.subrange(0, 4));
                assert(bytes@.subrange(4, 8) =~= head.subrange(4, 8));
                assert(head.subrange(0, 4) =~= seq![0x89u8, 0x50, 0x4e, 0x47]);
                assert(head.subrange(4, 8) =~= seq![0x0du8, 0x0a, 0x1a, 0x0a]);
            }
        }
        return true;
    }
    proof {
        assert(head =~= bytes@.subrange(0, 4) + bytes@.subrange(4, 8));
        assert(head =~= png_signature());
    }
    let len: usize = bytes.len();
    let mut at: usize = 8;
    while at <= len && len - at >= 8
        invariant
            len == bytes@.len(),
            8 <= at,
            palettes_fit(bytes@, 8) == palettes_fit(bytes@, at as int),
            indexed(bytes@),
        decreases len - at,
    {
        if spells_name(bytes, at + 4, 0x49, 0x44, 0x41, 0x54) || spells_name(
            bytes,
            at + 4,
            0x66,
            0x64,
            0x41,
            0x54,
        ) {
            return true;
        }
        let n: u32 = read_big_endian(bytes, at);
        if spells_name(bytes, at + 4, 0x50, 0x4c, 0x54, 0x45) && (n % 3 != 0 || n > 768) {
            return false;
        }
        let rest: usize = len - at;
        if rest < 12 || (rest - 12) < n as usize {
            assert(palettes_fit(bytes@, at + 12 + big_endian(bytes@, at as int)));
            return true;
        }
        at = at + 12 + n as usize;
    }
    true
}

/// Decodes a payload with `image::load_from_memory` and converts it with
/// `into_rgba8`. The result is named by [`decoded_image`]; it depends on the
/// bytes alone. A decoded image has four bytes for each of its pixels. The
/// decoder of indexed PNG images copies their colour table in threes into 256
/// places when it has the first row, and panics where the table's length does not
/// allow for that: such a payload may not be given. One whose header cannot be
/// read never gets there, since decoding starts with the same reading of it.
#[verifier::external_body]
fn load_rgba(bytes: &[u8]) -> (image: Result<(Vec<u8>, u32, u32), image::ImageError>)
    requires
        header_dimensions(bytes@) is Some ==> palette_sound(bytes@),
    ensures
        match image {
            Ok((rgba, w, h)) => decoded_image(bytes@) == Some((rgba@, w, h)) && rgba@.len() == w * h
                * 4,
            Err(_) => decoded_image(bytes@) is None,
        },
{
    let rgba = image::load_from_memory(bytes)?.into_rgba8();
    let (w, h) = rgba.dimensions();
    Ok((rgba.into_raw(), w, h))
}

/// An error of the decoders for an image whose colour table has no valid length,
/// made with `DecodingError::new`. Nothing is claimed of it: it is only handed on.
#[verifier::external_body]
fn palette_error() -> (error: image::ImageError) {
    image::ImageError::Decoding(
        image::error::DecodingError::new(
            image::error::ImageFormatHint::Exact(image::ImageFormat::Png),
            "bad colour table",
        ),
    )
}

/// Whether an image of this size has more pixels than allowed.
pub open spec fn oversized(size: (u32, u32), max_pixels: u64) -> bool {
    size.0 * size.1 > max_pixels
}

/// The error for an image of this size, if it has more pixels than allowed.
pub fn size_error(size: (u32, u32), max_pixels: u64) -> (error: Option<DecodeError>)
    ensures
        error == if oversized(size, max_pixels) {
            Some(DecodeError::TooLarge { pixels: (size.0 * size.1) as u64, max: max_pixels })
        } else {
            None
        },
{
    proof {
        let (w, h) = size;
        assert(0 <= w * h <= 0xffff_ffff * 0xffff_ffff) by (nonlinear_arith)
            requires
                0 <= w <= 0xffff_ffff,
                0 <= h <= 0xffff_ffff,
        ;
    }
    let pixels: u64 = size.0 as u64 * size.1 as u64;
    if pixels > max_pixels {
        Some(DecodeError::TooLarge { pixels, max: max_pixels })
    } else {
        None
    }
}

/// What becomes of a decoder's result: its error is wrapped, and an image that
/// turned out larger than its header said is refused.
pub fn accept_decoded(
    loaded: Result<(Vec<u8>, u32, u32), image::ImageError>,
    max_pixels: u64,
) -> (image: Result<(Vec<u8>, u32, u32), DecodeError>)
    ensures
        image == match loaded {
            Err(e) => Err(DecodeError::Decode(e)),
            Ok((rgba, w, h)) => if oversized((w, h), max_pixels) {
                Err(DecodeError::TooLarge { pixels: (w * h) as u64, max: max_pixels })
            } else {
                Ok((rgba, w, h))
            },
        },
{
    match loaded {
        Err(e) => Err(DecodeError::Decode(e)),
        Ok((rgba, w, h)) => {
            match size_error((w, h), max_pixels) {
                Some(e) => Err(e),
                None => Ok((rgba, w, h)),
            }
        },
    }
}

/// What decoding a payload gives, out of its header's size and its decoded
/// image. A header over the cap is refused before anything is decoded. A colour
/// table of no valid length is a decode error, whatever else is wrong.
pub open spec fn decode_outcome(
    header: Option<(u32, u32)>,
    sound: bool,
    decoded: Option<(Seq<u8>, u32, u32)>,
    max_pixels: u64,
    image: Result<(Vec<u8>, u32, u32), DecodeError>,
) -> bool {
    match (header, decoded) {
        (Some(size), _) if oversized(size, max_pixels) => image == Err::<
            (Vec<u8>, u32, u32),
            DecodeError,
        >(DecodeError::TooLarge { pixels: (size.0 * size.1) as u64, max: max_pixels }),
        (Some(_), _) if !sound => image matches Err(DecodeError::Decode(_)),
        (_, None) => image matches Err(DecodeError::Decode(_)),
        (_, Some((rgba, w, h))) => if oversized((w, h), max_pixels) {
            image == Err::<(Vec<u8>, u32, u32), DecodeError>(
                DecodeError::TooLarge { pixels: (w * h) as u64, max: max_pixels },
            )
        } else {
            image matches Ok((out, ow, oh)) && out@ == rgba && ow == w && oh == h
        },
    }
}

/// Decodes a payload into straight-alpha RGBA and reports its size. The
/// header is read first, so that a small payload that would decode into
/// gigabytes is refused before its pixels are allocated.
pub fn decode_to_rgba(bytes: &[u8], max_pixels: u64) -> (image: Result<
    (Vec<u8>, u32, u32),
    DecodeError,
>)
    ensures
        decode_outcome(
            header_dimensions(bytes@),
            palette_sound(bytes@),
            decoded_image(bytes@),
            max_pixels,
            image,
        ),
        image matches Ok((rgba, w, h)) ==> rgba@.len() == w * h * 4 && w * h <= max_pixels,
{
    if let Some(size) = read_header(bytes) {
        if let Some(e) = size_error(size, max_pixels) {
            return Err(e);
        }
        if !has_sound_palette(bytes) {
            return Err(DecodeError::Decode(palette_error()));
        }
    }
    accept_decoded(load_rgba(bytes), max_pixels)
}

/// Reads only the header of a payload to learn the image's size in pixels.
/// `None` when the payload is malformed or in no supported format.
pub fn peek_dimensions(bytes: &[u8]) -> (size: Option<(u32, u32)>)
    ensures
        size == header_dimensions(bytes@),
{
    read_header(bytes)
}

/// Errors say what went wrong and name their numbers, the larger one first where an
/// image is too large.
pub proof fn errors_name_their_numbers(error: &DecodeError, text: String)
    requires
        call_ensures(DecodeError::describe, (error,), text),
    ensures
        error is TooLarge ==> text@ == "image too large: "@ + decimal(error->pixels as nat)
            + " pixels (max "@ + decimal(error->max as nat) + ")"@,
        error is TimedOut ==> text@ == "decode timed out after "@ + decimal(
            error->elapsed_ms as nat,
        ) + "ms"@,
        error is BudgetExceeded ==> text@ == "image needs "@ + decimal(error->needed as nat)
            + " bytes, only "@ + decimal(error->available as nat) + " free in cache"@,
        error is ParentNotReady ==> text@
            == "animation frame arrived before parent image finished decoding"@,
        error is Decode ==> "decode failed: "@.is_prefix_of(text@),
{
    if error is Decode {
        let head = "decode failed: "@;
        let detail = choose|detail: String| #[trigger]
            vstd::string::to_string_from_display_ensures(&error->Decode_0, detail) && text@ == head
                + detail@;
        assert(head =~= text@.subrange(0, head.len() as int));
    }
}

/// An image is too large exactly when it has more pixels than the cap, and the error
/// names both numbers.
pub proof fn too_large_is_more_pixels_than_the_cap(
    width: u32,
    height: u32,
    max_pixels: u64,
    error: Option<DecodeError>,
)
    requires
        call_ensures(size_error, ((width, height), max_pixels), error),
    ensures
        error is Some <==> width * height > max_pixels,
        error is Some ==> error->0 is TooLarge && (error->0)->pixels == width * height && (
        error->0)->max == max_pixels,
{
    assert(0 <= width * height <= 0xffff_ffff * 0xffff_ffff) by (nonlinear_arith)
        requires
            0 <= width <= 0xffff_ffff,
            0 <= height <= 0xffff_ffff,
    ;
}

/// A decoded image is handed on as it is unless it is too large, and a decoder's
/// error is handed on too.
pub proof fn decoded_image_is_handed_on(
    loaded: Result<(Vec<u8>, u32, u32), image::ImageError>,
    max_pixels: u64,
    image: Result<(Vec<u8>, u32, u32), DecodeError>,
    too_large: Option<DecodeError>,
)
    requires
        call_ensures(accept_decoded, (loaded, max_pixels), image),
        loaded is Ok ==> call_ensures(
            size_error,
            (((loaded->Ok_0).1, (loaded->Ok_0).2), max_pixels),
            too_large,
        ),
    ensures
        loaded is Err ==> image is Err && image->Err_0 == DecodeError::Decode(loaded->Err_0),
        loaded is Ok && too_large is None ==> image is Ok && image->Ok_0 == loaded->Ok_0,
        loaded is Ok && too_large is Some ==> image is Err && image->Err_0 == too_large->0,
{
}

/// Decoding refuses a header that is too large, and then a colour table that cannot
/// be, before it looks at the pixels; a decoded image is handed on unless it is too
/// large after all.
pub proof fn decoding_looks_at_the_header_first(
    bytes: &[u8],
    max_pixels: u64,
    header: Option<(u32, u32)>,
    sound: bool,
    image: Result<(Vec<u8>, u32, u32), DecodeError>,
)
    requires
        call_ensures(peek_dimensions, (bytes,), header),
        call_ensures(has_sound_palette, (bytes,), sound),
        call_ensures(decode_to_rgba, (bytes, max_pixels), image),
    ensures
        ({
            let decoded = decoded_image(bytes@);
            let large_header = header is Some && (header->0).0 * (header->0).1 > max_pixels;
            let bad_table = header is Some && !sound;
            &&& large_header ==> {
                &&& image is Err && image->Err_0 is TooLarge
                &&& (image->Err_0)->pixels == (header->0).0 * (header->0).1
                &&& (image->Err_0)->max == max_pixels
            }
            &&& !large_header && bad_table ==> image is Err && image->Err_0 is Decode
            &&& !large_header && !bad_table && decoded is None ==> image is Err
                && image->Err_0 is Decode
            &&& !large_header && !bad_table && decoded is Some ==> ({
                let (rgba, w, h) = decoded->0;
                &&& w * h <= max_pixels ==> image is Ok && (image->Ok_0).0@ == rgba && (
                image->Ok_0).1 == w && (image->Ok_0).2 == h
                &&& w * h > max_pixels ==> image is Err && image->Err_0 is TooLarge && (
                image->Err_0)->pixels == w * h && (image->Err_0)->max == max_pixels
            })
        }),
{
    if header is Some {
        let (w, h) = header->0;
        assert(0 <= w * h <= 0xffff_ffff * 0xffff_ffff) by (nonlinear_arith)
            requires
                0 <= w <= 0xffff_ffff,
                0 <= h <= 0xffff_ffff,
        ;
    }
    if decoded_image(bytes@) is Some {
        let (rgba, w, h) = decoded_image(bytes@)->0;
        assert(0 <= w * h <= 0xffff_ffff * 0xffff_ffff) by (nonlinear_arith)
            requires
                0 <= w <= 0xffff_ffff,
                0 <= h <= 0xffff_ffff,
        ;
    }
}

/// The chunks of a PNG that start at these places: the first one behind the
/// signature, and each behind the one before, whose length stands in its first four
/// bytes, the highest first. None of them holds pixels.
pub open spec fn chunks_before_the_pixels(bytes: Seq<u8>, starts: Seq<int>) -> bool {
    &&& starts.len() > 0 && starts[0] == 8
    &&& forall|i: int|
        0 <= i < starts.len() ==> 8 <= (#[trigger] starts[i]) && starts[i] + 8 <= bytes.len() && {
            let name = bytes.subrange(starts[i] + 4, starts[i] + 8);
            name != seq![73u8, 68, 65, 84] && name != seq![102u8, 100, 65, 84]
        }
    &&& forall|i: int|
        0 <= i < starts.len() - 1 ==> starts[i + 1] == 12 + #[trigger] starts[i] + 16777216
            * bytes[starts[i]] + 65536 * bytes[starts[i] + 1] + 256 * bytes[starts[i] + 2]
            + bytes[starts[i] + 3]
}

/// Whether the chunk at a place is a colour table whose length is no multiple of
/// three, or more than 256 colours have.
pub open spec fn bad_table_at(bytes: Seq<u8>, at: int) -> bool {
    let n = 16777216 * bytes[at] + 65536 * bytes[at + 1] + 256 * bytes[at + 2] + bytes[at + 3];
    bytes.subrange(at + 4, at + 8) == seq![80u8, 76, 84, 69] && (n % 3 != 0 || n > 768)
}

proof fn bad_table_is_reached(bytes: Seq<u8>, starts: Seq<int>, k: int)
    requires
        chunks_before_the_pixels(bytes, starts),
        0 <= k < starts.len(),
        bad_table_at(bytes, starts.last()),
    ensures
        !palettes_fit(bytes, starts[k]),
    decreases starts.len() - k,
{
    assert(starts[k] >= 8);
    if k + 1 < starts.len() {
        bad_table_is_reached(bytes, starts, k + 1);
        assert(starts[k + 1] == starts[k] + 12 + big_endian(bytes, starts[k]));
    }
}

proof fn bad_table_is_somewhere(bytes: Seq<u8>, at: int) -> (starts: Seq<int>)
    requires
        8 <= at,
        !palettes_fit(bytes, at),
    ensures
        starts.len() > 0 && starts[0] == at,
        forall|i: int|
            0 <= i < starts.len() ==> 8 <= (#[trigger] starts[i]) && starts[i] + 8 <= bytes.len() && {
                let name = bytes.subrange(starts[i] + 4, starts[i] + 8);
                name != seq![73u8, 68, 65, 84] && name != seq![102u8, 100, 65, 84]
            },
        forall|i: int|
            0 <= i < starts.len() - 1 ==> starts[i + 1] == 12 + #[trigger] starts[i] + 16777216
                * bytes[starts[i]] + 65536 * bytes[starts[i] + 1] + 256 * bytes[starts[i] + 2]
                + bytes[starts[i] + 3],
        bad_table_at(bytes, starts.last()),
    decreases less(bytes.len() as int, at),
{
    if bad_table_at(bytes, at) {
        seq![at]
    } else {
        let rest = bad_table_is_somewhere(bytes, at + 12 + big_endian(bytes, at));
        let starts = seq![at] + rest;
        assert forall|i: int| 0 <= i < starts.len() implies 8 <= (#[trigger] starts[i]) && starts[i]
            + 8 <= bytes.len() && {
            let name = bytes.subrange(starts[i] + 4, starts[i] + 8);
            name != seq![73u8, 68, 65, 84] && name != seq![102u8, 100, 65, 84]
        } by {
            if i > 0 {
                assert(starts[i] == rest[i - 1]);
            }
        }
        assert forall|i: int| 0 <= i < starts.len() - 1 implies starts[i + 1] == 12
            + #[trigger] starts[i] + 16777216 * bytes[starts[i]] + 65536 * bytes[starts[i] + 1]
            + 256 * bytes[starts[i] + 2] + bytes[starts[i] + 3] by {
            if i > 0 {
                assert(starts[i] == rest[i - 1] && starts[i + 1] == rest[i]);
            }
        }
        assert(starts.last() == rest.last());
        starts
    }
}

/// A payload is refused for its colour table exactly when it is a PNG with colour
/// indices and a bad colour table stands among its chunks before the pixels.
pub proof fn bad_colour_table_is_found(bytes: &[u8], sound: bool, starts: Seq<int>) -> (found: Seq<
    int,
>)
    requires
        call_ensures(has_sound_palette, (bytes,), sound),
    ensures
        ({
            let indices = bytes@.len() > 25 && bytes@[25] == 3 && bytes@.subrange(0, 8) == seq![
                137u8,
                80,
                78,
                71,
                13,
                10,
                26,
                10,
            ];
            &&& !indices ==> sound
            &&& indices && chunks_before_the_pixels(bytes@, starts) && bad_table_at(
                bytes@,
                starts.last(),
            ) ==> !sound
            &&& !sound ==> indices && chunks_before_the_pixels(bytes@, found) && bad_table_at(
                bytes@,
                found.last(),
            )
        }),
{
    if chunks_before_the_pixels(bytes@, starts) && bad_table_at(bytes@, starts.last()) {
        bad_table_is_reached(bytes@, starts, 0);
    }
    if sound {
        Seq::empty()
    } else {
        bad_table_is_somewhere(bytes@, 8)
    }
}

} // verus!
