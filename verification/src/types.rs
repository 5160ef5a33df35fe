//! Response and record types shared by the search, get, context and
//! session-listing operations, together with their specification-level
//! models.

use vstd::prelude::*;

verus! {

/// The kinds of structured failure a call can report.
#[derive(Clone, Copy, Debug, PartialEq, Eq, Structural)]
pub enum ErrorKind {
    /// The `prefix:line` address was malformed.
    InvalidRef,
    /// The addressed line does not exist in the session.
    RefNotFound,
    /// No session file in scope carries the requested prefix.
    SessionNotFound,
    /// An explicitly named project has no directory.
    ProjectNotFound,
    /// No project was named and none could be inferred.
    NoCurrentProject,
    /// The regex pattern did not compile.
    InvalidPattern,
    /// A file required for the call could not be opened or read.
    IoError,
    /// The one line a lookup needed did not decode.
    ParseError,
}

/// A structured failure returned to the caller; never unwound.
#[derive(Clone, Debug)]
pub struct ErrorResponse {
    pub kind: ErrorKind,
    pub message: String,
}

/// Image position and payload size attached to a search result.
#[derive(Clone, Copy, Debug)]
pub struct ImageInfo {
    /// Position of the image block within the message body.
    pub index: usize,
    /// Length of the encoded payload.
    pub size: usize,
}

/// One matching message in a search response.
#[derive(Clone, Debug)]
pub struct SearchResult {
    pub ref_str: String,
    pub session: String,
    pub line: usize,
    pub uuid: String,
    pub msg_type: String,
    pub timestamp: String,
    pub content: String,
    pub content_size: usize,
    pub truncated: bool,
    pub image_count: usize,
    pub images: Vec<ImageInfo>,
    pub project: String,
}

/// The mathematical model of a search result: every field by value.
pub struct ResultModel {
    pub ref_str: Seq<char>,
    pub session: Seq<char>,
    pub line: usize,
    pub uuid: Seq<char>,
    pub msg_type: Seq<char>,
    pub timestamp: Seq<char>,
    pub content: Seq<char>,
    pub content_size: usize,
    pub truncated: bool,
    pub image_count: usize,
    pub images: Seq<ImageInfo>,
    pub project: Seq<char>,
}

impl View for SearchResult {
    type V = ResultModel;

    open spec fn view(&self) -> ResultModel {
        ResultModel {
            ref_str: self.ref_str@,
            session: self.session@,
            line: self.line,
            uuid: self.uuid@,
            msg_type: self.msg_type@,
            timestamp: self.timestamp@,
            content: self.content@,
            content_size: self.content_size,
            truncated: self.truncated,
            image_count: self.image_count,
            images: self.images@,
            project: self.project@,
        }
    }
}

/// Counters describing one search call.
#[derive(Clone, Debug)]
pub struct SearchStats {
    pub files_scanned: usize,
    pub lines_scanned: usize,
    pub total_matches: usize,
    pub returned_count: usize,
    pub time_ms: u64,
}

/// A page of search results with pagination bookkeeping.
#[derive(Clone, Debug)]
pub struct SearchResponse {
    pub stats: SearchStats,
    pub results: Vec<SearchResult>,
    pub has_more: bool,
    pub next_offset: usize,
}

/// Where exported content was written, for callers that spill a large
/// message to disk.
#[derive(Clone, Debug)]
pub struct OutputInfo {
    pub content: String,
    pub images: Vec<String>,
}

/// The outcome of fetching one message by address.
#[derive(Clone, Debug)]
pub enum GetResponse {
    Success {
        ref_str: String,
        msg_type: String,
        content: String,
        content_size: usize,
        image_count: usize,
    },
    TooLarge { error: String, ref_str: String, size: usize, suggestion: String },
    Output { ref_str: String, output: OutputInfo, content_size: usize, image_count: usize },
}

/// One message of a context window.
#[derive(Clone, Debug)]
pub struct ContextMessage {
    pub ref_str: String,
    pub msg_type: String,
    pub content: String,
    /// `Some(true)` on the anchor, absent elsewhere.
    pub is_anchor: Option<bool>,
}

/// The model of a context message.
pub struct ContextModel {
    pub ref_str: Seq<char>,
    pub msg_type: Seq<char>,
    pub content: Seq<char>,
    pub is_anchor: Option<bool>,
}

impl View for ContextMessage {
    type V = ContextModel;

    open spec fn view(&self) -> ContextModel {
        ContextModel {
            ref_str: self.ref_str@,
            msg_type: self.msg_type@,
            content: self.content@,
            is_anchor: self.is_anchor,
        }
    }
}

/// An ordered window of messages around an anchor.
#[derive(Clone, Debug)]
pub struct ContextResponse {
    pub anchor_ref: String,
    pub messages: Vec<ContextMessage>,
    /// `Some(true)` when the total character budget cut the window short.
    pub truncated: Option<bool>,
}

/// One project directory and its activity summary.
#[derive(Clone, Debug)]
pub struct ProjectInfo {
    pub id: String,
    pub path: String,
    pub session_count: usize,
    pub last_activity: String,
}

impl View for ProjectInfo {
    type V = ProjectModel;

    open spec fn view(&self) -> ProjectModel {
        ProjectModel {
            id: self.id@,
            path: self.path@,
            session_count: self.session_count,
            last_activity: self.last_activity@,
        }
    }
}

/// The model of a project summary.
pub struct ProjectModel {
    pub id: Seq<char>,
    pub path: Seq<char>,
    pub session_count: usize,
    pub last_activity: Seq<char>,
}

/// The list of known projects.
#[derive(Clone, Debug)]
pub struct ProjectsResponse {
    pub projects: Vec<ProjectInfo>,
}

/// One session file and its statistics.
#[derive(Clone, Debug)]
pub struct SessionInfo {
    pub id: String,
    pub ref_prefix: String,
    pub line_count: usize,
    pub start_time: String,
    pub end_time: String,
    pub size_bytes: u64,
}

impl View for SessionInfo {
    type V = SessionModel;

    open spec fn view(&self) -> SessionModel {
        SessionModel {
            id: self.id@,
            ref_prefix: self.ref_prefix@,
            line_count: self.line_count,
            start_time: self.start_time@,
            end_time: self.end_time@,
            size_bytes: self.size_bytes,
        }
    }
}

/// The model of a session summary.
pub struct SessionModel {
    pub id: Seq<char>,
    pub ref_prefix: Seq<char>,
    pub line_count: usize,
    pub start_time: Seq<char>,
    pub end_time: Seq<char>,
    pub size_bytes: u64,
}

/// The sessions of one project.
#[derive(Clone, Debug)]
pub struct SessionsResponse {
    pub project: String,
    pub sessions: Vec<SessionInfo>,
}

} // verus!
