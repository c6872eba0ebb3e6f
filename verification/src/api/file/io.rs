//! What the page cache asks of the file system, and what it is answered.
use vstd::prelude::*;

verus! {

/// Names a file that the file system holds open.
pub type FileId = u64;

/// A request to the file system.
#[derive(Debug, PartialEq, Eq)]
pub enum IoRequest {
    /// Move the cursor of the file.
    Seek { file: FileId, offset: u64 },
    /// Read at most `len` bytes at the cursor and move it behind them.
    Read { file: FileId, len: usize },
    /// Write `data` at `offset`.
    WriteAt { file: FileId, offset: u64, data: Vec<u8> },
    /// Report the size of the file.
    GetSize { file: FileId },
    /// Cut the file to `size` bytes.
    Truncate { file: FileId, size: u64 },
}

/// The answer of the file system to a request.
#[derive(Debug, PartialEq, Eq)]
pub enum IoReply {
    /// The request was carried out and there is nothing to report.
    Done,
    /// The bytes that were read.
    Data(Vec<u8>),
    /// The number of bytes that were written.
    Wrote(usize),
    /// The size of the file.
    Size(u64),
    /// The request failed, with the number of an ArceOS error kind.
    Failed(i32),
}

/// The model of [`IoRequest`].
pub ghost enum IoRequestView {
    Seek { file: FileId, offset: int },
    Read { file: FileId, len: int },
    WriteAt { file: FileId, offset: int, data: Seq<u8> },
    GetSize { file: FileId },
    Truncate { file: FileId, size: int },
}

/// The model of [`IoReply`].
pub ghost enum IoReplyView {
    Done,
    Data(Seq<u8>),
    Wrote(int),
    Size(int),
    Failed(i32),
}

impl View for IoRequest {
    type V = IoRequestView;

    open spec fn view(&self) -> IoRequestView {
        match *self {
            IoRequest::Seek { file, offset } => IoRequestView::Seek { file, offset: offset as int },
            IoRequest::Read { file, len } => IoRequestView::Read { file, len: len as int },
            IoRequest::WriteAt { file, offset, data } => IoRequestView::WriteAt {
                file,
                offset: offset as int,
                data: data@,
            },
            IoRequest::GetSize { file } => IoRequestView::GetSize { file },
            IoRequest::Truncate { file, size } => IoRequestView::Truncate { file, size: size as int },
        }
    }
}

impl View for IoReply {
    type V = IoReplyView;

    open spec fn view(&self) -> IoReplyView {
        match *self {
            IoReply::Done => IoReplyView::Done,
            IoReply::Data(data) => IoReplyView::Data(data@),
            IoReply::Wrote(n) => IoReplyView::Wrote(n as int),
            IoReply::Size(n) => IoReplyView::Size(n as int),
            IoReply::Failed(kind) => IoReplyView::Failed(kind),
        }
    }
}

} // verus!
