//! What one HTTP exchange means for one work item.

use vstd::prelude::*;
use vstd::string::StringExecFns;

verus! {

/// The outcome of one work item.
#[derive(Clone, Copy, Debug, PartialEq, Eq, Structural)]
pub enum FetchResult {
    /// The image was received and written in full.
    Saved,
    /// The server answered with success and no content.
    EmptyBody,
    /// The server answered with an error status.
    HttpError(u16),
    /// No complete answer was received.
    TransportError,
    /// The image was received, but the file could not be created or written.
    WriteError,
}

/// What came back from one GET request.
#[derive(Debug, PartialEq, Eq)]
pub enum HttpReply {
    /// No complete answer: name resolution, connection or transfer failed.
    TransportFailure,
    /// An answer with its status code and its body.
    Response { status: u16, body: Vec<u8> },
}

/// What is to be done after a reply.
#[derive(Clone, Copy, Debug, PartialEq, Eq, Structural)]
pub enum FetchStep {
    /// Nothing is written; the item's outcome is known.
    Done(FetchResult),
    /// The body is to be written to the item's file, in a destination
    /// directory that is created first if it is missing.
    Write,
}

/// A status code that reports an error: 400 and above.
pub open spec fn is_error_status(status: u16) -> bool {
    status >= 400
}

/// The step that follows a reply: a transport failure and an error status end
/// the item at once, and so does a body without content; any other body is
/// written.
pub open spec fn step_after(reply: HttpReply) -> FetchStep {
    match reply {
        HttpReply::TransportFailure => FetchStep::Done(FetchResult::TransportError),
        HttpReply::Response { status, body } => if is_error_status(status) {
            FetchStep::Done(FetchResult::HttpError(status))
        } else if body@.len() == 0 {
            FetchStep::Done(FetchResult::EmptyBody)
        } else {
            FetchStep::Write
        },
    }
}

/// The outcome of an item, given the reply and whether the write, if one was
/// due, went through.
pub open spec fn outcome_of(reply: HttpReply, written: bool) -> FetchResult {
    match step_after(reply) {
        FetchStep::Done(result) => result,
        FetchStep::Write => if written {
            FetchResult::Saved
        } else {
            FetchResult::WriteError
        },
    }
}

/// Decides what follows a reply.
pub fn next_step(reply: &HttpReply) -> (step: FetchStep)
    ensures
        step == step_after(*reply),
{
    match reply {
        HttpReply::TransportFailure => FetchStep::Done(FetchResult::TransportError),
        HttpReply::Response { status, body } => {
            if *status >= 400 {
                FetchStep::Done(FetchResult::HttpError(*status))
            } else if body.len() == 0 {
                FetchStep::Done(FetchResult::EmptyBody)
            } else {
                FetchStep::Write
            }
        },
    }
}

/// The outcome of an item whose body was to be written.
pub fn write_outcome(written: bool) -> (result: FetchResult)
    ensures
        result == (if written { FetchResult::Saved } else { FetchResult::WriteError }),
{
    if written {
        FetchResult::Saved
    } else {
        FetchResult::WriteError
    }
}

/// The outcome of an item from its reply and from whether the write, if one
/// was due, went through.
pub fn fetch_outcome(reply: &HttpReply, written: bool) -> (result: FetchResult)
    ensures
        result == outcome_of(*reply, written),
        result == FetchResult::Saved ==> written && step_after(*reply) == FetchStep::Write,
{
    match next_step(reply) {
        FetchStep::Done(result) => result,
        FetchStep::Write => write_outcome(written),
    }
}

/// The path of a file in the destination directory: `{directory}/{name}`.
pub open spec fn target_path_text(directory: Seq<char>, file_name: Seq<char>) -> Seq<char> {
    directory + "/"@ + file_name
}

/// The path under which an item's file is written.
pub fn target_path(directory: &str, file_name: &str) -> (path: String)
    ensures
        path@ == target_path_text(directory@, file_name@),
{
    let mut path = String::from_str(directory);
    path.append("/");
    path.append(file_name);
    path
}

impl FetchResult {
    /// Whether the item's image is now on disk.
    pub fn is_saved(&self) -> (saved: bool)
        ensures
            saved == (*self == FetchResult::Saved),
    {
        match self {
            FetchResult::Saved => true,
            _ => false,
        }
    }
}

} // verus!
