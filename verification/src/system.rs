//! What the library asks of the system, and what it hears back.

use vstd::prelude::*;

verus! {

/// Where a procedure stands that needs something from outside: it asks for one
/// thing more, or it is done.
#[derive(Debug, PartialEq, Eq)]
pub enum Step<Q, T> {
    Ask(Q),
    Done(T),
}

impl<Q: DeepView, T: DeepView> DeepView for Step<Q, T> {
    type V = Step<Q::V, T::V>;

    open spec fn deep_view(&self) -> Step<Q::V, T::V> {
        match self {
            Step::Ask(q) => Step::Ask(q.deep_view()),
            Step::Done(t) => Step::Done(t.deep_view()),
        }
    }
}

/// What happens to the output of a command.
#[derive(Debug, PartialEq, Eq)]
pub enum Streams {
    /// Both streams are captured, and standard output is handed back.
    Captured,
    /// Both streams go into pipes that nobody reads.
    Piped,
    /// Both streams are those of the program itself.
    Inherited,
    /// Standard error goes into the log file that was just created.
    ErrorLog,
}

/// A command to run.
#[derive(Debug, PartialEq, Eq)]
pub struct Invocation {
    pub program: String,
    pub args: Vec<String>,
    /// A variable to set in the command's environment.
    pub env: Option<(String, String)>,
    /// The directory to run it in, where that is not the current one.
    pub dir: Option<Vec<u8>>,
    pub streams: Streams,
}

/// The model of an [`Invocation`].
pub struct InvocationView {
    pub program: Seq<char>,
    pub args: Seq<Seq<char>>,
    pub env: Option<(Seq<char>, Seq<char>)>,
    pub dir: Option<Seq<u8>>,
    pub streams: Streams,
}

impl DeepView for Invocation {
    type V = InvocationView;

    open spec fn deep_view(&self) -> InvocationView {
        InvocationView {
            program: self.program@,
            args: self.args.deep_view(),
            env: self.env.deep_view(),
            dir: match self.dir {
                Some(d) => Some(d@),
                None => None,
            },
            streams: self.streams,
        }
    }
}

/// How a command ended.
#[derive(Debug, PartialEq, Eq)]
pub enum Outcome {
    /// It could not be started; the reason in words.
    NotStarted(String),
    /// It ran: whether it succeeded, its exit status in words, and what it wrote
    /// to standard output where that was captured.
    Exited { success: bool, status: String, stdout: Vec<u8> },
}

/// The model of an [`Outcome`].
pub enum OutcomeView {
    NotStarted(Seq<char>),
    Exited { success: bool, status: Seq<char>, stdout: Seq<u8> },
}

impl DeepView for Outcome {
    type V = OutcomeView;

    open spec fn deep_view(&self) -> OutcomeView {
        match self {
            Outcome::NotStarted(reason) => OutcomeView::NotStarted(reason@),
            Outcome::Exited { success, status, stdout } => OutcomeView::Exited {
                success: *success,
                status: status@,
                stdout: stdout@,
            },
        }
    }
}

impl OutcomeView {
    /// It ran and succeeded.
    pub open spec fn succeeded(self) -> bool {
        self matches OutcomeView::Exited { success, .. } && success
    }
}

/// Something to do with a file.
#[derive(Debug, PartialEq, Eq)]
pub enum FileRequest {
    /// Does the path lead anywhere?
    Exists(Vec<u8>),
    /// Read the whole file.
    Read(Vec<u8>),
    /// Write a file, anew.
    Write(Vec<u8>, Vec<u8>),
    /// Remove a file.
    Remove(Vec<u8>),
}

/// The model of a [`FileRequest`].
pub enum FileRequestView {
    Exists(Seq<u8>),
    Read(Seq<u8>),
    Write(Seq<u8>, Seq<u8>),
    Remove(Seq<u8>),
}

impl DeepView for FileRequest {
    type V = FileRequestView;

    open spec fn deep_view(&self) -> FileRequestView {
        match self {
            FileRequest::Exists(p) => FileRequestView::Exists(p@),
            FileRequest::Read(p) => FileRequestView::Read(p@),
            FileRequest::Write(p, bytes) => FileRequestView::Write(p@, bytes@),
            FileRequest::Remove(p) => FileRequestView::Remove(p@),
        }
    }
}

/// The answer to a [`FileRequest`].
#[derive(Debug, PartialEq, Eq)]
pub enum FileReply {
    /// It exists, or it was done.
    Yes,
    /// It does not exist, or it could not be done. For a file to read: it could
    /// not be opened.
    No,
    /// The file was opened, but reading it failed after these bytes.
    Unreadable(Vec<u8>),
    /// What the file holds.
    Contents(Vec<u8>),
}

/// The model of a [`FileReply`].
pub enum FileReplyView {
    Yes,
    No,
    Unreadable(Seq<u8>),
    Contents(Seq<u8>),
}

impl DeepView for FileReply {
    type V = FileReplyView;

    open spec fn deep_view(&self) -> FileReplyView {
        match self {
            FileReply::Yes => FileReplyView::Yes,
            FileReply::No => FileReplyView::No,
            FileReply::Unreadable(bytes) => FileReplyView::Unreadable(bytes@),
            FileReply::Contents(bytes) => FileReplyView::Contents(bytes@),
        }
    }
}

} // verus!
