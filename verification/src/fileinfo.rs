//! Metadata of local files offered for transfer: what the file picker
//! reports to the UI, and the resolution of a file's MIME type from a
//! content sniff with a by-name fallback.

use vstd::prelude::*;

verus! {

/// What the UI learns of one selectable file; the preview, when there is
/// one, is produced outside the library.
pub struct FilePreview {
    pub file_uuid: String,
    pub file_path: String,
    pub name: String,
    pub size: u64,
    pub mime_type: String,
    pub preview_base64: Option<String>,
}

/// One file the UI hands in for preview resolution.
pub struct FileInput {
    pub file_path: String,
    pub file_uuid: String,
}

/// Host and identity data this node reports about itself.
pub struct SysInfo {
    pub os_type: Option<String>,
    pub hostname: Option<String>,
    pub app_id: String,
}

/// The MIME type the name-based table lookup yields for a file name, if
/// any.
pub uninterp spec fn mime_guess_of(name: Seq<char>) -> Option<Seq<char>>;

/// Relies on `mime_guess::from_path` with `first` and `essence_str`: the
/// result is read off a fixed table keyed by the name's extension, a
/// function of the name alone.
#[verifier::external_body]
fn guess_mime_type(name: &str) -> (r: Option<String>)
    ensures
        match r {
            Some(m) => mime_guess_of(name@) == Some(m@),
            None => mime_guess_of(name@) is None,
        },
{
    mime_guess::from_path(name).first().map(|m| m.essence_str().to_string())
}

/// The MIME type reported for a file: the content sniff when it
/// succeeded, else the name-based guess, else the generic fallback.
pub fn resolve_preview_mime(sniffed: Option<String>, name: &str) -> (r: String)
    ensures
        match sniffed {
            Some(m) => r@ == m@,
            None => match mime_guess_of(name@) {
                Some(g) => r@ == g,
                None => r@ == "application/octet-stream"@,
            },
        },
{
    match sniffed {
        Some(m) => m,
        None => {
            let guessed = guess_mime_type(name);
            match guessed {
                Some(g) => g,
                None => "application/octet-stream".to_owned(),
            }
        },
    }
}

} // verus!
