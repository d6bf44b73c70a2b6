//! The dinosaur pictures: which files are pictures to resize, resizing
//! them, and what the front end is told.
use vstd::prelude::*;
use crate::text::{chars_of, concat3, decimal, decimal_string};

verus! {

/// The side, in pixels, of the square to which pictures are resized.
pub const TARGET_SIZE: u32 = 256;

/// `i` is the position of the last `.` in `name`.
pub open spec fn is_last_dot(name: Seq<char>, i: int) -> bool {
    &&& 0 <= i < name.len()
    &&& name[i] == '.'
    &&& forall|j: int| i < j < name.len() ==> name[j] != '.'
}

/// The file name has the extension `png`, as `Path::extension` reads it:
/// the text after the last `.`, where that `.` is not the name's first
/// character.
pub open spec fn has_png_extension(name: Seq<char>) -> bool {
    exists|i: int| 0 < i && is_last_dot(name, i) && name.subrange(i + 1, name.len() as int) == "png"@
}

/// Whether the file name has the extension `png`.
pub fn is_png_name(name: &str) -> (r: bool)
    ensures
        r == has_png_extension(name@),
{
    proof {
        reveal_strlit("png");
    }
    let cs = chars_of(name);
    let mut i = cs.len();
    while i > 0 && cs[i - 1] != '.'
        invariant
            i <= cs@.len(),
            cs@ == name@,
            forall|j: int| i <= j < cs@.len() ==> cs@[j] != '.',
        decreases i,
    {
        i = i - 1;
    }
    if i <= 1 {
        proof {
            assert forall|k: int| 0 < k && is_last_dot(name@, k) implies name@.subrange(
                k + 1,
                name@.len() as int,
            ) != "png"@ by {
                if k >= i {
                    assert(cs@[k] != '.');
                }
            }
        }
        return false;
    }
    let dot = i - 1;
    assert(is_last_dot(name@, dot as int));
    let n = cs.len();
    let r = n - i == 3 && cs[i] == 'p' && cs[i + 1] == 'n' && cs[i + 2] == 'g';
    proof {
        if r {
            assert(name@.subrange(dot + 1, name@.len() as int) =~= "png"@);
        } else {
            assert forall|k: int| 0 < k && is_last_dot(name@, k) implies name@.subrange(
                k + 1,
                name@.len() as int,
            ) != "png"@ by {
                if k < dot {
                    assert(name@[dot as int] == '.');
                }
                if k > dot {
                    assert(cs@[k] != '.');
                }
                if k == dot && name@.subrange(k + 1, name@.len() as int) == "png"@ {
                    assert(name@.subrange(k + 1, name@.len() as int).len() == 3);
                    assert(name@.subrange(k + 1, name@.len() as int)[0] == 'p');
                    assert(name@.subrange(k + 1, name@.len() as int)[1] == 'n');
                    assert(name@.subrange(k + 1, name@.len() as int)[2] == 'g');
                }
            }
        }
    }
    r
}

/// Why resizing a picture failed, with the image library's error text.
#[derive(Debug, Clone, PartialEq)]
pub enum ResizeFailure {
    /// The contents could not be read as a PNG picture.
    Unreadable(String),
    /// The resized picture could not be written as PNG.
    Unwritable(String),
}

/// The first 24 bytes of the PNG file of a `size` by `size` picture: the
/// PNG signature, then the start of the `IHDR` chunk (its length, 13, and
/// its type), then the width and the height, each big-endian.
pub open spec fn png_header(size: u32) -> Seq<u8> {
    let b0 = (size / 0x100_0000) as u8;
    let b1 = ((size / 0x1_0000) % 0x100) as u8;
    let b2 = ((size / 0x100) % 0x100) as u8;
    let b3 = (size % 0x100) as u8;
    seq![
        137u8, 80u8, 78u8, 71u8, 13u8, 10u8, 26u8, 10u8,
        0u8, 0u8, 0u8, 13u8, 73u8, 72u8, 68u8, 82u8,
        b0, b1, b2, b3, b0, b1, b2, b3,
    ]
}

/// Whether `image::load_from_memory_with_format(bytes, ImageFormat::Png)`
/// decodes `bytes` as a picture: a function of the bytes alone.
pub uninterp spec fn png_decodes(bytes: Seq<u8>) -> bool;

/// Decodes `png` with `image::load_from_memory_with_format(png,
/// ImageFormat::Png)`, resizes it with `DynamicImage::resize_exact(size,
/// size, FilterType::Lanczos3)` and encodes the result with
/// `DynamicImage::write_to(.., ImageFormat::Png)` into a buffer. On
/// success the buffer starts as every PNG file of a `size` by `size`
/// picture does: the image crate's PNG encoder writes the signature and
/// then the `IHDR` chunk with the picture's width and height first, and
/// `resize_exact` gives exactly the asked dimensions. The pixels are left
/// unsaid: the Lanczos filter computes in floating point. The call
/// succeeds exactly when `png` decodes: the PNG decoder only gives the
/// colour types (8 or 16 bits of grey, grey and alpha, RGB or RGBA) that
/// the PNG encoder takes, `resize_exact` keeps the colour type, and
/// writing into a `Vec` does not fail. A failure carries the decoder's
/// error text.
#[verifier::external_body]
fn resized_png(png: &[u8], size: u32) -> (r: Result<Vec<u8>, ResizeFailure>)
    requires
        0 < size,
    ensures
        r is Ok <==> png_decodes(png@),
        r matches Err(e) ==> e is Unreadable,
        r matches Ok(b) ==> b@.len() >= 24 && b@.subrange(0, 24) == png_header(size),
{
    let img = match image::load_from_memory_with_format(png, image::ImageFormat::Png) {
        Ok(img) => img,
        Err(e) => return Err(ResizeFailure::Unreadable(e.to_string())),
    };
    let resized = img.resize_exact(size, size, image::imageops::FilterType::Lanczos3);
    let mut out = std::io::Cursor::new(Vec::new());
    match resized.write_to(&mut out, image::ImageFormat::Png) {
        Ok(()) => Ok(out.into_inner()),
        Err(e) => Err(ResizeFailure::Unwritable(e.to_string())),
    }
}

/// The resized picture for the file `name` with the contents `png`:
/// nothing where the file is not a picture to resize; else, where the
/// contents decode, the PNG file of the picture resized to `TARGET_SIZE`
/// by `TARGET_SIZE`, and otherwise why they could not be read.
pub fn resize_dinosaur(name: &str, png: &[u8]) -> (r: Option<Result<Vec<u8>, ResizeFailure>>)
    ensures
        r is Some <==> has_png_extension(name@),
        r matches Some(res) ==> (res is Ok <==> png_decodes(png@)),
        r matches Some(Err(e)) ==> e is Unreadable,
        r matches Some(Ok(b)) ==> b@.len() >= 24 && b@.subrange(0, 24) == png_header(
            TARGET_SIZE,
        ),
{
    if is_png_name(name) {
        Some(resized_png(png, TARGET_SIZE))
    } else {
        None
    }
}

/// The pictures among the names: those that are text and have the
/// extension `png`, in order.
pub open spec fn png_names(names: Seq<Option<String>>) -> Seq<Seq<char>>
    decreases names.len(),
{
    if names.len() == 0 {
        Seq::empty()
    } else {
        png_names(names.drop_last()) + match names.last() {
            Some(n) => if has_png_extension(n@) {
                seq![n@]
            } else {
                Seq::empty()
            },
            None => Seq::empty(),
        }
    }
}

/// The resized pictures to show, given the names of the files in the
/// directory of resized pictures (nothing for a name that is not valid
/// text).
pub fn resized_dinosaur_names(names: Vec<Option<String>>) -> (r: Vec<String>)
    ensures
        r@.map_values(|s: String| s@) == png_names(names@),
{
    let mut r: Vec<String> = Vec::new();
    let mut i: usize = 0;
    assert(names@.take(0) =~= Seq::<Option<String>>::empty());
    assert(r@.map_values(|s: String| s@) =~= png_names(names@.take(0)));
    while i < names.len()
        invariant
            i <= names@.len(),
            r@.map_values(|s: String| s@) == png_names(names@.take(i as int)),
        decreases names@.len() - i,
    {
        assert(names@.take(i + 1).drop_last() =~= names@.take(i as int));
        match &names[i] {
            Some(n) => {
                if is_png_name(n) {
                    r.push(n.clone());
                }
            },
            None => {},
        }
        i = i + 1;
        assert(r@.map_values(|s: String| s@) =~= png_names(names@.take(i as int)));
    }
    assert(names@.take(names@.len() as int) =~= names@);
    r
}

/// What the front end is told after the pictures were updated.
pub fn updated_message() -> (r: String)
    ensures
        r@ == "Successfully updated and resized images to "@ + decimal(256),
{
    let size = decimal_string(TARGET_SIZE as u64);
    crate::text::concat("Successfully updated and resized images to ", &size)
}

/// What the front end is told after `deleted` files were deleted.
pub fn cleaned_message(deleted: u64) -> (r: String)
    ensures
        r@ == "Deleted "@ + decimal(deleted as nat) + " files in dinosaurs folder (folders kept)"@,
{
    let n = decimal_string(deleted);
    concat3("Deleted ", &n, " files in dinosaurs folder (folders kept)")
}

} // verus!
