//! patchify: batch edits, writes and verify commands in one atomic call.

pub mod account;
pub mod confine;
pub mod course;
pub mod disk;
pub mod dry;
pub mod guard;
pub mod json;
pub mod limits;
pub mod machine;
pub mod matching;
pub mod path;
pub mod plan;
pub mod preview;
pub mod protocol;
pub mod reading;
pub mod report;
pub mod session;
pub mod steps;
pub mod text;
pub mod types;
pub mod validate;
pub mod verify;

pub use json::result_to_json;
pub use limits::{MAX_EDITS, MAX_FILE_BYTES, MAX_STRING_BYTES, MAX_WRITES};
pub use path::{safe_relative_path, safe_relative_path_on, Style};
pub use report::{exit_code, result_to_text};
pub use session::Session;
pub use types::{
    default_true, BatchError, BatchRequest, BatchResult, Edit, EditStatus, Verify, VerifyStatus,
    Write, WriteStatus,
};
