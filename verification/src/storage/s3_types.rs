//! Types that the storage modules share with their callers.

use vstd::prelude::*;

verus! {

/// A file on disk that is to be uploaded.
#[derive(Clone, Debug)]
pub struct UploadTask {
    pub stream_key: String,
    pub file_path: String,
    pub s3_key: String,
    pub content_type: String,
}

/// What an [`UploadTask`] says.
#[verifier::ext_equal]
pub struct UploadTaskModel {
    pub stream_key: Seq<char>,
    pub file_path: Seq<char>,
    pub s3_key: Seq<char>,
    pub content_type: Seq<char>,
}

impl View for UploadTask {
    type V = UploadTaskModel;

    open spec fn view(&self) -> UploadTaskModel {
        UploadTaskModel {
            stream_key: self.stream_key@,
            file_path: self.file_path@,
            s3_key: self.s3_key@,
            content_type: self.content_type@,
        }
    }
}

/// How far the uploads of a stream have come.
#[derive(Clone, Debug)]
pub struct UploadStatus {
    pub stream_key: String,
    pub total_files: usize,
    pub uploaded_files: usize,
    pub failed_files: usize,
    pub is_complete: bool,
}

} // verus!
