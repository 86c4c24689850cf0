use vstd::prelude::*;

use crate::jobs::fresh_id;

verus! {

/// Largest accepted upload, in bytes (10 MiB).
pub const MAX_FILE_SIZE: u64 = 10485760;

/// Largest number of files in one upload batch.
pub const MAX_FILES: usize = 20;

/// What `str::to_lowercase` returns for the given characters.
pub uninterp spec fn lower_of(s: Seq<char>) -> Seq<char>;

/// The character of the standard base64 alphabet for a 6-bit value.
pub open spec fn base64_digit(v: int) -> char {
    "ABCDEFGHIJKLMNOPQRSTUVWXYZabcdefghijklmnopqrstuvwxyz0123456789+/"@[v]
}

/// The standard, padded base64 encoding: each group of three bytes becomes four
/// digits of six bits each; a final group of one or two bytes is padded with "=".
pub open spec fn base64_of(b: Seq<u8>) -> Seq<char>
    decreases b.len(),
{
    if b.len() == 0 {
        Seq::empty()
    } else if b.len() == 1 {
        seq![base64_digit((b[0] as int) / 4), base64_digit(((b[0] as int) % 4) * 16), '=', '=']
    } else if b.len() == 2 {
        seq![
            base64_digit((b[0] as int) / 4),
            base64_digit(((b[0] as int) % 4) * 16 + (b[1] as int) / 16),
            base64_digit(((b[1] as int) % 16) * 4),
            '=',
        ]
    } else {
        seq![
            base64_digit((b[0] as int) / 4),
            base64_digit(((b[0] as int) % 4) * 16 + (b[1] as int) / 16),
            base64_digit(((b[1] as int) % 16) * 4 + (b[2] as int) / 64),
            base64_digit((b[2] as int) % 64),
        ] + base64_of(b.skip(3))
    }
}

/// Relies on std's `str::to_lowercase`: the result depends on the characters alone.
#[verifier::external_body]
fn lowercase(s: &str) -> (r: String)
    ensures
        r@ == lower_of(s@),
{
    s.to_lowercase()
}

/// Relies on base64's `Engine::encode` with the `STANDARD` engine (standard
/// alphabet, with padding). It panics only when the encoded length overflows `usize`.
#[verifier::external_body]
fn encode_base64(data: &Vec<u8>) -> (r: String)
    requires
        data@.len() <= usize::MAX / 4,
    ensures
        r@ == base64_of(data@),
        r@.len() == 4 * ((data@.len() + 2) / 3),
{
    base64::Engine::encode(&base64::engine::general_purpose::STANDARD, data)
}

/// Why an upload operation failed.
#[derive(Clone, Debug)]
pub enum UploadError {
    /// The named file does not exist.
    NotFound(String),
    /// The (lowercased) extension is not an accepted image type.
    InvalidType(String),
    /// The named file is larger than the limit.
    TooLarge(String),
    /// More files than allowed in one batch.
    TooManyFiles,
    /// The path lies outside the managed uploads area.
    PermissionDenied,
}

impl UploadError {
    pub open spec fn spec_message(self) -> Seq<char> {
        match self {
            UploadError::NotFound(p) => "File not found: "@ + p@,
            UploadError::InvalidType(e) => "Invalid file type: "@ + e@
                + ". Allowed: JPEG, PNG, WebP, GIF"@,
            UploadError::TooLarge(n) => "File too large: "@ + n@ + ". Max size: 10MB"@,
            UploadError::TooManyFiles => "Maximum 20 files allowed per batch"@,
            UploadError::PermissionDenied => "Cannot delete files outside uploads directory"@,
        }
    }

    /// A description for the user, naming the file or extension concerned.
    pub fn message(&self) -> (r: String)
        ensures
            r@ == self.spec_message(),
    {
        match self {
            UploadError::NotFound(p) => {
                let mut m = String::from_str("File not found: ");
                m.append(p.as_str());
                m
            },
            UploadError::InvalidType(e) => {
                let mut m = String::from_str("Invalid file type: ");
                m.append(e.as_str());
                m.append(". Allowed: JPEG, PNG, WebP, GIF");
                m
            },
            UploadError::TooLarge(n) => {
                let mut m = String::from_str("File too large: ");
                m.append(n.as_str());
                m.append(". Max size: 10MB");
                m
            },
            UploadError::TooManyFiles => String::from_str("Maximum 20 files allowed per batch"),
            UploadError::PermissionDenied => String::from_str(
                "Cannot delete files outside uploads directory",
            ),
        }
    }
}

/// Accepted image extensions, in lower case.
pub open spec fn allowed_ext(ext: Seq<char>) -> bool {
    ext == "jpg"@ || ext == "jpeg"@ || ext == "png"@ || ext == "webp"@ || ext == "gif"@
}

/// MIME type for a lowercased extension; unknown ones are generic binary data.
pub open spec fn mime_of(ext: Seq<char>) -> Seq<char> {
    if ext == "jpg"@ || ext == "jpeg"@ {
        "image/jpeg"@
    } else if ext == "png"@ {
        "image/png"@
    } else if ext == "webp"@ {
        "image/webp"@
    } else if ext == "gif"@ {
        "image/gif"@
    } else {
        "application/octet-stream"@
    }
}

pub open spec fn data_url_of(mime: Seq<char>, encoded: Seq<char>) -> Seq<char> {
    "data:"@ + mime + ";base64,"@ + encoded
}

/// The outcome of checking one upload candidate, in the order the checks run:
/// existence, then type, then size.
pub open spec fn upload_verdict(exists: bool, ext_lower: Seq<char>, size: u64) -> int {
    if !exists {
        1
    } else if !allowed_ext(ext_lower) {
        2
    } else if size > MAX_FILE_SIZE {
        3
    } else {
        0
    }
}

pub open spec fn verdict_of(r: Result<(), UploadError>) -> int {
    match r {
        Ok(_) => 0,
        Err(UploadError::NotFound(_)) => 1,
        Err(UploadError::InvalidType(_)) => 2,
        Err(UploadError::TooLarge(_)) => 3,
        Err(UploadError::TooManyFiles) => 4,
        Err(UploadError::PermissionDenied) => 5,
    }
}

/// `dir` is a leading run of `path`'s components, and `path` never steps up
/// with "..".
pub open spec fn within(dir: Seq<String>, path: Seq<String>) -> bool {
    &&& dir.len() <= path.len()
    &&& forall|i: int| 0 <= i < dir.len() ==> #[trigger] path[i]@ == dir[i]@
    &&& forall|i: int| 0 <= i < path.len() ==> #[trigger] path[i]@ != ".."@
}

/// Whether a lowercased extension is an accepted image type.
pub fn is_allowed_extension(ext: &str) -> (r: bool)
    ensures
        r == allowed_ext(ext@),
{
    crate::model::str_eq(ext, "jpg") || crate::model::str_eq(ext, "jpeg") || crate::model::str_eq(
        ext,
        "png",
    ) || crate::model::str_eq(ext, "webp") || crate::model::str_eq(ext, "gif")
}

/// Checks one upload candidate, given whether it exists, its lowercased
/// extension and its size. Errors name the path, the extension or the file name.
pub fn validate_upload(path: &String, exists: bool, ext_lower: &String, size: u64, name: &String) -> (r:
    Result<(), UploadError>)
    ensures
        verdict_of(r) == upload_verdict(exists, ext_lower@, size),
        r matches Err(UploadError::NotFound(p)) ==> p@ == path@,
        r matches Err(UploadError::InvalidType(e)) ==> e@ == ext_lower@,
        r matches Err(UploadError::TooLarge(n)) ==> n@ == name@,
{
    if !exists {
        return Err(UploadError::NotFound(path.clone()));
    }
    if !is_allowed_extension(ext_lower.as_str()) {
        return Err(UploadError::InvalidType(ext_lower.clone()));
    }
    if size > MAX_FILE_SIZE {
        return Err(UploadError::TooLarge(name.clone()));
    }
    Ok(())
}

/// Checks one upload candidate from its extension as written; on success
/// returns the lowercased extension.
pub fn check_upload(path: &String, exists: bool, ext: &str, size: u64, name: &String) -> (r: Result<
    String,
    UploadError,
>)
    ensures
        r matches Ok(e) ==> e@ == lower_of(ext@) && upload_verdict(exists, lower_of(ext@), size)
            == 0,
        r matches Err(err) ==> verdict_of(Err(err)) == upload_verdict(
            exists,
            lower_of(ext@),
            size,
        ),
{
    let lower = lowercase(ext);
    match validate_upload(path, exists, &lower, size, name) {
        Ok(()) => Ok(lower),
        Err(e) => Err(e),
    }
}

/// Refuses a batch of more than `MAX_FILES` files.
pub fn check_batch(count: usize) -> (r: Result<(), UploadError>)
    ensures
        r is Ok <==> count <= MAX_FILES,
        r is Err ==> verdict_of(r) == 4,
{
    if count > MAX_FILES {
        Err(UploadError::TooManyFiles)
    } else {
        Ok(())
    }
}

/// The file name under which an upload is stored: `<id>.<ext>`.
pub fn upload_file_name(id: &String, ext_lower: &String) -> (r: String)
    ensures
        r@ == id@ + "."@ + ext_lower@,
{
    let mut s = id.clone();
    s.append(".");
    s.append(ext_lower.as_str());
    s
}

/// A fresh random id and the file name `<id>.<ext>` for a new upload.
pub fn new_upload_name(ext_lower: &String) -> (r: (String, String))
    ensures
        r.0@.len() == 36,
        r.1@ == r.0@ + "."@ + ext_lower@,
{
    let id = fresh_id();
    let name = upload_file_name(&id, ext_lower);
    (id, name)
}

/// The MIME type for a lowercased extension.
pub fn mime_for_extension(ext_lower: &str) -> (r: String)
    ensures
        r@ == mime_of(ext_lower@),
{
    if crate::model::str_eq(ext_lower, "jpg") || crate::model::str_eq(ext_lower, "jpeg") {
        String::from_str("image/jpeg")
    } else if crate::model::str_eq(ext_lower, "png") {
        String::from_str("image/png")
    } else if crate::model::str_eq(ext_lower, "webp") {
        String::from_str("image/webp")
    } else if crate::model::str_eq(ext_lower, "gif") {
        String::from_str("image/gif")
    } else {
        String::from_str("application/octet-stream")
    }
}

/// `data:<mime>;base64,<encoded>`.
pub fn data_url(mime: &String, encoded: &String) -> (r: String)
    ensures
        r@ == data_url_of(mime@, encoded@),
{
    let mut s = String::from_str("data:");
    s.append(mime.as_str());
    s.append(";base64,");
    s.append(encoded.as_str());
    s
}

/// The data URL of an image's bytes, typed by its extension as written.
pub fn get_image(data: &Vec<u8>, ext: &str) -> (r: String)
    requires
        data@.len() <= usize::MAX / 4,
    ensures
        r@ == data_url_of(mime_of(lower_of(ext@)), base64_of(data@)),
{
    let encoded = encode_base64(data);
    let lower = lowercase(ext);
    let mime = mime_for_extension(lower.as_str());
    data_url(&mime, &encoded)
}

/// Whether `path` (as components) lies inside `dir` (as components).
pub fn path_within(dir: &Vec<String>, path: &Vec<String>) -> (r: bool)
    ensures
        r == within(dir@, path@),
{
    if dir.len() > path.len() {
        return false;
    }
    let mut i: usize = 0;
    while i < dir.len()
        invariant
            dir@.len() <= path@.len(),
            0 <= i <= dir@.len(),
            forall|j: int| 0 <= j < i ==> #[trigger] path@[j]@ == dir@[j]@,
        decreases dir@.len() - i,
    {
        if path[i] != dir[i] {
            return false;
        }
        i = i + 1;
    }
    let mut k: usize = 0;
    while k < path.len()
        invariant
            0 <= k <= path@.len(),
            forall|j: int| 0 <= j < k ==> #[trigger] path@[j]@ != ".."@,
        decreases path@.len() - k,
    {
        if crate::model::str_eq(path[k].as_str(), "..") {
            return false;
        }
        k = k + 1;
    }
    true
}

/// Allows deleting `path` only inside the uploads directory `dir` (both as components).
pub fn check_delete(dir: &Vec<String>, path: &Vec<String>) -> (r: Result<(), UploadError>)
    ensures
        r is Ok <==> within(dir@, path@),
        r is Err ==> verdict_of(r) == 5,
{
    if path_within(dir, path) {
        Ok(())
    } else {
        Err(UploadError::PermissionDenied)
    }
}

} // verus!
