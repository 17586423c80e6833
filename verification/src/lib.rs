//! In-place patcher for the boot-prompt behaviour of a UDF disc image.
//!
//! The library holds the verified logic: the decisions made while an
//! extraction session talks to a UDF filesystem driver, and the bounded
//! byte search and in-place substitution that patch the image.  The
//! driver calls themselves and all file I/O live outside the library.

pub mod patcher;
pub mod udf;

pub use patcher::{patch, PatchError, SEARCH_BOUND};
pub use udf::{grab_blobs, DirentReply, FileReply, Udf, UdfDirent, UdfError, UDF_BLOCKSIZE};
