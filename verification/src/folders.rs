//! The required on-disk layout and the process configuration. The image
//! root must hold exactly the two category subtrees and the thumbnails
//! subtree; a violated layout is a hard startup error unless the operator
//! opts into creating it. The caller observes the disk; the verdict over
//! what it observed is decided here.

use vstd::prelude::*;

verus! {

/// Why the folder layout was rejected.
#[derive(Debug, PartialEq, Eq)]
pub enum FolderError {
    /// The root path does not exist.
    MissingRoot,
    /// A required subtree (a category, or thumbnails) is absent.
    InvalidLayout,
}

/// Check the required layout over the observed state of the root: the root
/// itself must exist, and so must the two category subtrees and the
/// thumbnails subtree.
pub fn validate_folder(
    root_exists: bool,
    pc_exists: bool,
    mp_exists: bool,
    thumbnails_exists: bool,
) -> (r: Result<(), FolderError>)
    ensures
        !root_exists ==> r == Result::<(), FolderError>::Err(FolderError::MissingRoot),
        root_exists && !(pc_exists && mp_exists && thumbnails_exists) ==> r == Result::<
            (),
            FolderError,
        >::Err(FolderError::InvalidLayout),
        root_exists && pc_exists && mp_exists && thumbnails_exists ==> r == Result::<
            (),
            FolderError,
        >::Ok(()),
{
    if !root_exists {
        Err(FolderError::MissingRoot)
    } else if !pc_exists || !mp_exists || !thumbnails_exists {
        Err(FolderError::InvalidLayout)
    } else {
        Ok(())
    }
}

/// Process configuration: loaded once at start, immutable thereafter.
pub struct Config {
    pub host: String,
    pub port: u16,
    pub image_folder: String,
    pub pwd: String,
}

/// The configuration used, and written back to disk, when none exists.
pub fn default_config() -> (c: Config)
    ensures
        c.host@ == "127.0.0.1"@,
        c.port == 8080,
        c.image_folder@ == "./images"@,
        c.pwd@ == "secret"@,
{
    Config {
        host: String::from_str("127.0.0.1"),
        port: 8080,
        image_folder: String::from_str("./images"),
        pwd: String::from_str("secret"),
    }
}

} // verus!
