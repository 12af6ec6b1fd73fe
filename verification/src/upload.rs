//! Uploaded images: which ones are taken, and under which name they are kept.

use vstd::prelude::*;
use vstd::string::*;
use crate::path;
use crate::record;
use crate::text;

verus! {

/// The most bytes that an image may have.
pub const MAX_IMAGE_BYTES: usize = 8388608;

/// Why an uploaded file is not taken.
#[derive(Clone, Copy, Debug, PartialEq, Eq, Structural)]
pub enum UploadError {
    NoName,
    NotAnImage,
    TooLarge,
}

impl UploadError {
    /// The fault in words.
    pub open spec fn words(self) -> Seq<char> {
        match self {
            UploadError::NoName => "uploaded file must have a name"@,
            UploadError::NotAnImage => "image must be png, jpg, jpeg or webp"@,
            UploadError::TooLarge => "image size must be <= 8MB"@,
        }
    }

    /// The fault in words.
    pub fn message(&self) -> (r: String)
        ensures
            r@ == self.words(),
    {
        match self {
            UploadError::NoName => "uploaded file must have a name".to_string(),
            UploadError::NotAnImage => "image must be png, jpg, jpeg or webp".to_string(),
            UploadError::TooLarge => "image size must be <= 8MB".to_string(),
        }
    }
}

/// Where an image is kept.
#[derive(Debug)]
pub struct StoredImage {
    /// The name of the file in the directory of uploads.
    pub file_name: String,
    /// The path under which the image is served.
    pub path: String,
}

/// The extensions of the images that are taken.
pub open spec fn image_extension(e: Seq<char>) -> bool {
    e == "png"@ || e == "jpg"@ || e == "jpeg"@ || e == "webp"@
}

/// The extension of an uploaded file in lower case; empty if it has none.
pub open spec fn upload_extension(file_name: Seq<char>) -> Seq<char> {
    text::lowered(
        match path::extension(file_name) {
            Some(e) => e,
            None => ""@,
        },
    )
}

/// What becomes of an upload by its name: its extension, or why it is not taken.
pub open spec fn name_verdict(file_name: Option<Seq<char>>) -> Result<Seq<char>, UploadError> {
    match file_name {
        None => Err(UploadError::NoName),
        Some(name) => {
            let e = upload_extension(name);
            if image_extension(e) {
                Ok(e)
            } else {
                Err(UploadError::NotAnImage)
            }
        },
    }
}

/// What becomes of an upload by its name, then by its size.
pub open spec fn upload_verdict(file_name: Option<Seq<char>>, size: int) -> Result<
    Seq<char>,
    UploadError,
> {
    match name_verdict(file_name) {
        Err(e) => Err(e),
        Ok(e) => if size > MAX_IMAGE_BYTES {
            Err(UploadError::TooLarge)
        } else {
            Ok(e)
        },
    }
}

/// Whether `c` is a hexadecimal digit in lower case.
pub open spec fn hex_digit(c: char) -> bool {
    '0' <= c <= '9' || 'a' <= c <= 'f'
}

/// Whether `s` is written as a random UUID: hexadecimal digits in lower case,
/// hyphens behind the 8th, 12th, 16th and 20th, the version 4 and its variant.
pub open spec fn random_uuid(s: Seq<char>) -> bool {
    &&& s.len() == 36
    &&& s[8] == '-' && s[13] == '-' && s[18] == '-' && s[23] == '-'
    &&& forall|i: int|
        0 <= i < 36 && i != 8 && i != 13 && i != 18 && i != 23 ==> hex_digit(#[trigger] s[i])
    &&& s[14] == '4'
    &&& s[19] == '8' || s[19] == '9' || s[19] == 'a' || s[19] == 'b'
}

/// `uuid::Uuid::new_v4`, written out by its `Display`: a random UUID of version 4
/// in its hyphenated form in lower case; it panics if the machine gives no random
/// bytes. Nothing is stated of which one it is.
#[verifier::external_body]
fn fresh_uuid() -> (r: String)
    ensures
        random_uuid(r@),
{
    uuid::Uuid::new_v4().to_string()
}

/// Whether files with this extension are taken as images.
pub fn is_image_extension(extension: &str) -> (r: bool)
    ensures
        r == image_extension(extension@),
{
    text::same_text(extension, "png") || text::same_text(extension, "jpg") || text::same_text(
        extension,
        "jpeg",
    ) || text::same_text(extension, "webp")
}

/// Whether a file of this name can be an image; if so, its extension in lower case.
pub fn check_upload_name(file_name: Option<&str>) -> (r: Result<String, UploadError>)
    ensures
        match r {
            Ok(e) => name_verdict(record::opt_str(file_name)) == Ok::<Seq<char>, UploadError>(e@),
            Err(e) => name_verdict(record::opt_str(file_name)) == Err::<Seq<char>, UploadError>(e),
        },
{
    let name = match file_name {
        Some(name) => name,
        None => {
            return Err(UploadError::NoName);
        },
    };
    let extension = match path::extension_of(name) {
        Some(e) => e,
        None => "".to_string(),
    };
    let e = extension.as_str().to_lowercase();
    if is_image_extension(e.as_str()) {
        Ok(e)
    } else {
        Err(UploadError::NotAnImage)
    }
}

/// Where an image is kept whose file is called by `id` and `extension`.
pub fn image_at(id: &str, extension: &str) -> (r: StoredImage)
    ensures
        r.file_name@ == id@ + "."@ + extension@,
        r.path@ == "/uploads/"@ + r.file_name@,
{
    let mut file_name = String::new();
    file_name.append(id);
    file_name.append(".");
    file_name.append(extension);
    assert(file_name@ =~= id@ + "."@ + extension@);
    let mut served = String::new();
    served.append("/uploads/");
    served.append(file_name.as_str());
    assert(served@ =~= "/uploads/"@ + file_name@);
    StoredImage { file_name, path: served }
}

/// Whether an upload of this name and size is taken, and under which fresh name.
pub fn save_upload(file_name: Option<&str>, size: usize) -> (r: Result<StoredImage, UploadError>)
    ensures
        ({
            let verdict = upload_verdict(record::opt_str(file_name), size as int);
            match r {
                Ok(image) => {
                    &&& verdict is Ok
                    &&& image.path@ == "/uploads/"@ + image.file_name@
                    &&& exists|id: Seq<char>| #[trigger]
                        random_uuid(id) && image.file_name@ == id + "."@ + verdict->Ok_0
                },
                Err(e) => verdict == Err::<Seq<char>, UploadError>(e),
            }
        }),
{
    let extension = match check_upload_name(file_name) {
        Ok(e) => e,
        Err(e) => {
            return Err(e);
        },
    };
    if size > MAX_IMAGE_BYTES {
        return Err(UploadError::TooLarge);
    }
    let id = fresh_uuid();
    let image = image_at(id.as_str(), extension.as_str());
    assert(random_uuid(id@) && image.file_name@ == id@ + "."@ + extension@);
    Ok(image)
}

} // verus!
