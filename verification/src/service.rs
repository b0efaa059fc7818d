//! The upload boundary's decisions: the bearer token derived from the
//! shared secret, the authorization check, where an uploaded payload lands
//! on disk, and how each payload's attempt is answered.

use vstd::prelude::*;
use vstd::string::StringSliceAdditionalSpecFns;
use base64::Engine;
use crate::naming::{derive_name, derive_name_sp};
use crate::paths::{concat_strs, join_path, str_eq};

verus! {

/// The standard-alphabet, padded base64 rendering of a byte sequence: a
/// function of the input alone.
pub uninterp spec fn base64_std_of(data: Seq<u8>) -> Seq<char>;

/// Relies on the base64 crate's STANDARD engine encode: deterministic in
/// its input, total, and never panicking.
#[verifier::external_body]
fn base64_encode(data: &[u8]) -> (r: String)
    ensures
        r@ == base64_std_of(data@),
{
    base64::engine::general_purpose::STANDARD.encode(data)
}

/// The bearer token an upload must present: the shared secret, base64.
pub fn auth_token(pwd: &str) -> (r: String)
    ensures
        r@ == base64_std_of(pwd.spec_bytes()),
{
    base64_encode(pwd.as_bytes())
}

/// The exact Authorization header value that authorizes an upload.
pub open spec fn expected_auth_sp(token: Seq<char>) -> Seq<char> {
    "Bearer "@ + token
}

/// Whether a request's Authorization header authorizes an upload: it must
/// be present and equal "Bearer " followed by the token, exactly.
pub fn is_authorized(header: Option<&String>, token: &str) -> (r: bool)
    ensures
        r == (header is Some && header->Some_0@ == expected_auth_sp(token@)),
{
    match header {
        Some(h) => {
            let expected = concat_strs("Bearer ", token);
            str_eq(h.as_str(), expected.as_str())
        },
        None => false,
    }
}

/// Where an upload of `original_name` under `category` lands below
/// `image_folder`: the category directory, and the full target path under
/// the derived content-addressed name. Two uploads presenting the same
/// original name collapse to the same target, the later write overwriting
/// the earlier — deduplication by name is intentional and is preserved.
pub fn upload_target(image_folder: &str, category: &str, original_name: &str) -> (r: (
    String,
    String,
))
    ensures
        r.0@ == image_folder@ + "/"@ + category@,
        r.1@ == image_folder@ + "/"@ + category@ + "/"@ + derive_name_sp(
            original_name.spec_bytes(),
        ),
{
    let folder = join_path(image_folder, category);
    let name = derive_name(original_name);
    let full = join_path(folder.as_str(), name.as_str());
    proof {
        assert(folder@ + "/"@ + name@ =~= image_folder@ + "/"@ + category@ + "/"@
            + derive_name_sp(original_name.spec_bytes()));
    }
    (folder, full)
}

/// The path under which an uploaded image is later served.
pub fn served_image_path(new_filename: &str) -> (r: String)
    ensures
        r@ == "/api/image/"@ + new_filename@,
{
    concat_strs("/api/image/", new_filename)
}

/// How one uploaded payload's attempt is answered.
#[derive(Debug, PartialEq, Eq)]
pub enum UploadError {
    /// The request carried no valid bearer token.
    Unauthorized,
    /// The payload named no file: a client error.
    MissingFilename,
    /// The image could not be decoded or saved: a server error.
    SaveFailed,
    /// The image was saved but its thumbnail could not be created: a
    /// partial success reported distinctly; the image write stands.
    ThumbnailFailed,
}

/// Classify one upload attempt from what happened at each stage, in the
/// order the stages run.
pub fn upload_outcome(
    authorized: bool,
    filename_present: bool,
    save_ok: bool,
    thumb_ok: bool,
) -> (r: Result<(), UploadError>)
    ensures
        !authorized ==> r == Result::<(), UploadError>::Err(UploadError::Unauthorized),
        authorized && !filename_present ==> r == Result::<(), UploadError>::Err(
            UploadError::MissingFilename,
        ),
        authorized && filename_present && !save_ok ==> r == Result::<(), UploadError>::Err(
            UploadError::SaveFailed,
        ),
        authorized && filename_present && save_ok && !thumb_ok ==> r == Result::<
            (),
            UploadError,
        >::Err(UploadError::ThumbnailFailed),
        authorized && filename_present && save_ok && thumb_ok ==> r == Result::<
            (),
            UploadError,
        >::Ok(()),
{
    if !authorized {
        Err(UploadError::Unauthorized)
    } else if !filename_present {
        Err(UploadError::MissingFilename)
    } else if !save_ok {
        Err(UploadError::SaveFailed)
    } else if !thumb_ok {
        Err(UploadError::ThumbnailFailed)
    } else {
        Ok(())
    }
}

} // verus!
