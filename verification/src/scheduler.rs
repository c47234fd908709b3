//! The messages of a download: what the caller asks for, what is announced
//! to the scheduler and what it answers, and what is reported to the caller.

use crate::backend::{clone_header, header_view, Header, HeaderView};
use crate::storage::metadata::{clone_opt_string, opt_text, Piece, PieceView, TrafficType};
use crate::task::piece::{CandidateParent, CandidateParentView, Range};
use vstd::prelude::*;
use vstd::string::*;

verus! {

/// The overall timeout of a download, as the caller's request carried it.
#[derive(Clone, Copy, Debug, PartialEq, Eq, Structural)]
pub enum Timeout {
    /// The request carries none.
    Unset,
    /// This many milliseconds.
    Millis(u64),
    /// The request carries one that is no span of time.
    Invalid,
}

/// What the caller asks for.
#[derive(Debug)]
pub struct Download {
    /// The address of the resource.
    pub url: String,
    /// The bytes wanted; `None` for all of them.
    pub range: Option<Range>,
    /// The headers to send to the origin.
    pub header: Header,
    /// The file to write the content to.
    pub output_path: String,
    /// The length of every piece but the last.
    pub piece_length: u64,
    /// How long the whole download may take.
    pub timeout: Timeout,
}

/// A download request as a mathematical value.
pub struct DownloadView {
    pub url: Seq<char>,
    pub range: Option<Range>,
    pub header: HeaderView,
    pub output_path: Seq<char>,
    pub piece_length: u64,
    pub timeout: Timeout,
}

impl View for Download {
    type V = DownloadView;

    open spec fn view(&self) -> DownloadView {
        DownloadView {
            url: self.url@,
            range: self.range,
            header: header_view(self.header@),
            output_path: self.output_path@,
            piece_length: self.piece_length,
            timeout: self.timeout,
        }
    }
}

impl Clone for Download {
    fn clone(&self) -> (r: Download)
        ensures
            r@ == self@,
    {
        Download {
            url: self.url.clone(),
            range: self.range,
            header: clone_header(&self.header),
            output_path: self.output_path.clone(),
            piece_length: self.piece_length,
            timeout: self.timeout,
        }
    }
}

/// A finished piece as it is reported to the caller and to the scheduler.
#[derive(Debug)]
pub struct PieceMessage {
    /// The piece's number.
    pub number: u32,
    /// The peer that the bytes came from, if one did.
    pub parent_id: Option<String>,
    /// Where the piece starts in the content.
    pub offset: u64,
    /// How many bytes the piece holds.
    pub length: u64,
    /// The digest of the piece's bytes.
    pub digest: String,
    /// The source that this download had the bytes from.
    pub traffic_type: TrafficType,
    /// The milliseconds that committing the piece took.
    pub cost: u64,
    /// When the piece's record was created.
    pub created_at: u64,
}

/// A reported piece as a mathematical value.
pub struct PieceMessageView {
    pub number: u32,
    pub parent_id: Option<Seq<char>>,
    pub offset: u64,
    pub length: u64,
    pub digest: Seq<char>,
    pub traffic_type: TrafficType,
    pub cost: u64,
    pub created_at: u64,
}

impl View for PieceMessage {
    type V = PieceMessageView;

    open spec fn view(&self) -> PieceMessageView {
        PieceMessageView {
            number: self.number,
            parent_id: opt_text(self.parent_id),
            offset: self.offset,
            length: self.length,
            digest: self.digest@,
            traffic_type: self.traffic_type,
            cost: self.cost,
            created_at: self.created_at,
        }
    }
}

impl Clone for PieceMessage {
    fn clone(&self) -> (r: PieceMessage)
        ensures
            r@ == self@,
    {
        PieceMessage {
            number: self.number,
            parent_id: clone_opt_string(&self.parent_id),
            offset: self.offset,
            length: self.length,
            digest: self.digest.clone(),
            traffic_type: self.traffic_type,
            cost: self.cost,
            created_at: self.created_at,
        }
    }
}

/// The milliseconds between a record's creation and its commit; zero for
/// a record that is not committed.
pub open spec fn spec_cost(p: PieceView) -> u64 {
    match p.finished_at {
        Some(t) => if t >= p.created_at {
            (t - p.created_at) as u64
        } else {
            0
        },
        None => 0,
    }
}

/// The report of the committed piece `p`, fetched from `parent_id` over
/// `traffic_type`.
pub open spec fn piece_message(
    p: PieceView,
    parent_id: Option<Seq<char>>,
    traffic_type: TrafficType,
) -> PieceMessageView {
    PieceMessageView {
        number: p.number,
        parent_id,
        offset: p.offset,
        length: p.length,
        digest: p.digest,
        traffic_type,
        cost: spec_cost(p),
        created_at: p.created_at,
    }
}

impl PieceMessage {
    /// Reports the committed piece `p`.
    pub fn new(p: &Piece, parent_id: Option<String>, traffic_type: TrafficType) -> (r:
        PieceMessage)
        ensures
            r@ == piece_message(p@, opt_text(parent_id), traffic_type),
    {
        PieceMessage {
            number: p.number,
            parent_id,
            offset: p.offset,
            length: p.length,
            digest: p.digest.clone(),
            traffic_type,
            cost: p.cost(),
            created_at: p.created_at,
        }
    }
}

/// One event of progress: a piece has arrived.
#[derive(Debug)]
pub struct DownloadTaskResponse {
    /// The length of the whole content.
    pub content_length: u64,
    /// The piece that has arrived.
    pub piece: Option<PieceMessage>,
}

/// The kinds of a terminal error.
#[derive(Clone, Copy, Debug, PartialEq, Eq, Structural)]
pub enum Code {
    /// The request cannot be served as it stands.
    InvalidArgument,
    /// The task is not recorded.
    NotFound,
    /// Reading, writing or fetching failed.
    Internal,
}

/// A terminal error, as it is reported to the caller.
#[derive(Debug)]
pub struct Status {
    /// The kind of the error.
    pub code: Code,
    /// What failed.
    pub message: String,
}

/// What an origin answered when a piece could not be fetched from it.
#[derive(Debug)]
pub struct HttpResponse {
    /// The headers received.
    pub header: Header,
    /// The status received.
    pub status_code: i32,
    /// The standard reason phrase of the status; empty where it has none.
    pub status: String,
}

/// An origin's answer as a mathematical value.
pub struct HttpResponseView {
    pub header: HeaderView,
    pub status_code: i32,
    pub status: Seq<char>,
}

impl View for HttpResponse {
    type V = HttpResponseView;

    open spec fn view(&self) -> HttpResponseView {
        HttpResponseView {
            header: header_view(self.header@),
            status_code: self.status_code,
            status: self.status@,
        }
    }
}

/// What a peer announces to the scheduler.
#[derive(Debug)]
pub enum Request {
    /// The peer registers for the task of this download.
    RegisterPeerRequest(Download),
    /// The peer starts to download.
    DownloadPeerStartedRequest,
    /// A piece has arrived and is committed.
    DownloadPieceFinishedRequest(PieceMessage),
    /// A piece could not be had from a parent. `temporary` says that the
    /// scheduler may offer the piece again.
    DownloadPieceFailedRequest { piece_number: u32, parent_id: String, temporary: bool },
    /// A piece could not be had from the origin.
    DownloadPieceBackToSourceFailedRequest { piece_number: u32, response: Option<HttpResponse> },
}

/// An announcement as a mathematical value.
pub enum RequestView {
    RegisterPeerRequest(DownloadView),
    DownloadPeerStartedRequest,
    DownloadPieceFinishedRequest(PieceMessageView),
    DownloadPieceFailedRequest { piece_number: u32, parent_id: Seq<char>, temporary: bool },
    DownloadPieceBackToSourceFailedRequest {
        piece_number: u32,
        response: Option<HttpResponseView>,
    },
}

impl View for Request {
    type V = RequestView;

    open spec fn view(&self) -> RequestView {
        match self {
            Request::RegisterPeerRequest(d) => RequestView::RegisterPeerRequest(d@),
            Request::DownloadPeerStartedRequest => RequestView::DownloadPeerStartedRequest,
            Request::DownloadPieceFinishedRequest(p) => RequestView::DownloadPieceFinishedRequest(
                p@,
            ),
            Request::DownloadPieceFailedRequest {
                piece_number,
                parent_id,
                temporary,
            } => RequestView::DownloadPieceFailedRequest {
                piece_number: *piece_number,
                parent_id: parent_id@,
                temporary: *temporary,
            },
            Request::DownloadPieceBackToSourceFailedRequest {
                piece_number,
                response,
            } => RequestView::DownloadPieceBackToSourceFailedRequest {
                piece_number: *piece_number,
                response: match response {
                    Some(r) => Some(r@),
                    None => None,
                },
            },
        }
    }
}

/// An announcement with the ids that every announcement carries.
#[derive(Debug)]
pub struct AnnouncePeerRequest {
    /// The host of the peer.
    pub host_id: String,
    /// The task that is downloaded.
    pub task_id: String,
    /// The peer that downloads.
    pub peer_id: String,
    /// What is announced.
    pub request: Request,
}

/// An announcement with its ids as a mathematical value.
pub struct AnnouncePeerRequestView {
    pub host_id: Seq<char>,
    pub task_id: Seq<char>,
    pub peer_id: Seq<char>,
    pub request: RequestView,
}

impl View for AnnouncePeerRequest {
    type V = AnnouncePeerRequestView;

    open spec fn view(&self) -> AnnouncePeerRequestView {
        AnnouncePeerRequestView {
            host_id: self.host_id@,
            task_id: self.task_id@,
            peer_id: self.peer_id@,
            request: self.request@,
        }
    }
}

/// What the scheduler answers.
#[derive(Debug)]
pub enum AnnouncePeerResponse {
    /// The task has no bytes.
    EmptyTaskResponse,
    /// These peers hold pieces of the task.
    NormalTaskResponse(Vec<CandidateParent>),
    /// The remaining pieces are to be fetched from the origin.
    NeedBackToSourceResponse,
    /// A message without a variant that this peer knows.
    Unrecognized,
}

/// The candidate parents of a list as mathematical values.
pub open spec fn parent_views(v: Seq<CandidateParent>) -> Seq<CandidateParentView> {
    Seq::new(v.len(), |i: int| v[i]@)
}

/// An answer of the scheduler as a mathematical value.
pub enum AnnouncePeerResponseView {
    EmptyTaskResponse,
    NormalTaskResponse(Seq<CandidateParentView>),
    NeedBackToSourceResponse,
    Unrecognized,
}

impl View for AnnouncePeerResponse {
    type V = AnnouncePeerResponseView;

    open spec fn view(&self) -> AnnouncePeerResponseView {
        match self {
            AnnouncePeerResponse::EmptyTaskResponse => AnnouncePeerResponseView::EmptyTaskResponse,
            AnnouncePeerResponse::NormalTaskResponse(
                parents,
            ) => AnnouncePeerResponseView::NormalTaskResponse(parent_views(parents@)),
            AnnouncePeerResponse::NeedBackToSourceResponse => AnnouncePeerResponseView::NeedBackToSourceResponse,
            AnnouncePeerResponse::Unrecognized => AnnouncePeerResponseView::Unrecognized,
        }
    }
}

} // verus!
