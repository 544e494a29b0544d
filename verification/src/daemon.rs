//! The session server: frames on the wire, and what each request does.

use crate::document::opt_text;
use crate::files::{join, join_path};
use crate::session::{LayoutNode, PaneState, Session};
use vstd::prelude::*;

verus! {

/// What a client asks of the daemon.
#[derive(Clone, Copy, Debug, PartialEq, Eq, Structural)]
pub enum Request {
    /// A summary of the session.
    Status,
    /// To save the session now.
    Save,
    /// To shut down.
    Shutdown,
    /// To attach a terminal of the given size.
    Attach {
        /// The columns of the terminal.
        cols: u16,
        /// The rows of the terminal.
        rows: u16,
    },
}

/// A summary of the session that a daemon owns.
#[derive(Clone, Debug, PartialEq, Eq)]
pub struct DaemonStatus {
    /// How many panes are open.
    pub panes: usize,
    /// The index of the focused pane.
    pub focused: usize,
    /// Where the session is saved, if that is known.
    pub session_path: Option<String>,
}

/// What the daemon answers.
#[derive(Clone, Debug, PartialEq, Eq)]
pub enum Response {
    /// The summary.
    Status(DaemonStatus),
    /// It is done.
    Done,
    /// It failed, and why.
    Error(String),
}

/// The longest body that a frame may have.
pub const MAX_FRAME_BYTES: usize = 67_108_864;

/// Why a frame could not be written or read.
#[derive(Clone, Copy, Debug, PartialEq, Eq, Structural)]
pub enum FrameError {
    /// The body is longer than a frame may be.
    TooLarge,
    /// The bytes end before the frame does.
    UnexpectedEof,
}

impl FrameError {
    /// The error in words.
    pub fn message(&self) -> (r: &'static str)
        ensures
            r@ == (match *self {
                FrameError::TooLarge => "frame exceeds maximum size"@,
                FrameError::UnexpectedEof => "failed to fill whole buffer"@,
            }),
    {
        match self {
            FrameError::TooLarge => "frame exceeds maximum size",
            FrameError::UnexpectedEof => "failed to fill whole buffer",
        }
    }
}

/// The four bytes of a length, the highest first.
pub open spec fn length_bytes(n: nat) -> Seq<u8> {
    seq![
        (n / 0x100_0000 % 0x100) as u8,
        (n / 0x1_0000 % 0x100) as u8,
        (n / 0x100 % 0x100) as u8,
        (n % 0x100) as u8,
    ]
}

/// The length that the first four bytes give.
pub open spec fn length_of(b: Seq<u8>) -> nat {
    (b[0] as nat) * 0x100_0000 + (b[1] as nat) * 0x1_0000 + (b[2] as nat) * 0x100 + b[3] as nat
}

/// The frame around a body.
pub open spec fn framed(body: Seq<u8>) -> Seq<u8> {
    length_bytes(body.len()) + body
}

/// The first frame of `b`: its body.
pub open spec fn unframed(b: Seq<u8>) -> Result<Seq<u8>, FrameError> {
    if b.len() < 4 {
        Err(FrameError::UnexpectedEof)
    } else if length_of(b) > MAX_FRAME_BYTES {
        Err(FrameError::TooLarge)
    } else if b.len() < 4 + length_of(b) {
        Err(FrameError::UnexpectedEof)
    } else {
        Ok(b.subrange(4, 4 + length_of(b) as int))
    }
}

/// The frame around a body.
pub fn write_frame(body: &[u8]) -> (r: Result<Vec<u8>, FrameError>)
    ensures
        match r {
            Ok(frame) => body@.len() <= MAX_FRAME_BYTES && frame@ == framed(body@),
            Err(error) => body@.len() > MAX_FRAME_BYTES && error == FrameError::TooLarge,
        },
{
    let n = body.len();
    if n > MAX_FRAME_BYTES {
        return Err(FrameError::TooLarge);
    }
    let mut r: Vec<u8> = Vec::new();
    r.push((n / 0x100_0000 % 0x100) as u8);
    r.push((n / 0x1_0000 % 0x100) as u8);
    r.push((n / 0x100 % 0x100) as u8);
    r.push((n % 0x100) as u8);
    assert(r@ =~= length_bytes(body@.len()));
    let mut i: usize = 0;
    while i < n
        invariant
            i <= n,
            n == body@.len(),
            r@ == length_bytes(body@.len()) + body@.take(i as int),
        decreases n - i,
    {
        r.push(body[i]);
        assert(r@ =~= length_bytes(body@.len()) + body@.take(i + 1));
        i += 1;
    }
    assert(body@.take(i as int) =~= body@);
    Ok(r)
}

/// How long the body is that follows a frame's first four bytes.
pub fn body_length(head: &[u8]) -> (r: Result<usize, FrameError>)
    ensures
        match r {
            Ok(n) => head@.len() >= 4 && n == length_of(head@) && n <= MAX_FRAME_BYTES,
            Err(error) => error == (if head@.len() < 4 {
                FrameError::UnexpectedEof
            } else {
                FrameError::TooLarge
            }) && (head@.len() < 4 || length_of(head@) > MAX_FRAME_BYTES),
        },
{
    if head.len() < 4 {
        return Err(FrameError::UnexpectedEof);
    }
    let n: u64 = head[0] as u64 * 0x100_0000 + head[1] as u64 * 0x1_0000 + head[2] as u64 * 0x100
        + head[3] as u64;
    if n > MAX_FRAME_BYTES as u64 {
        Err(FrameError::TooLarge)
    } else {
        Ok(n as usize)
    }
}

/// The body of the first frame of `bytes`; the next frame starts four bytes and the body further
/// on. A length that is too large is turned down before any byte of the body is looked at.
pub fn read_frame(bytes: &[u8]) -> (r: Result<Vec<u8>, FrameError>)
    ensures
        match r {
            Ok(body) => unframed(bytes@) == Ok::<Seq<u8>, FrameError>(body@),
            Err(error) => unframed(bytes@) == Err::<Seq<u8>, FrameError>(error),
        },
{
    let n = match body_length(bytes) {
        Ok(n) => n,
        Err(error) => {
            return Err(error);
        },
    };
    if bytes.len() - 4 < n {
        return Err(FrameError::UnexpectedEof);
    }
    let mut body: Vec<u8> = Vec::new();
    let mut i: usize = 0;
    while i < n
        invariant
            i <= n <= MAX_FRAME_BYTES,
            4 + n <= bytes@.len(),
            body@ == bytes@.subrange(4, 4 + i),
        decreases n - i,
    {
        body.push(bytes[4 + i]);
        assert(body@ =~= bytes@.subrange(4, 4 + i + 1));
        i += 1;
    }
    Ok(body)
}

/// What the host has to do about a request.
#[derive(Clone, Debug, PartialEq, Eq)]
pub enum Handled {
    /// Send this answer.
    Respond(Response),
    /// Save the session, and then send what [`saved`] says.
    Save,
    /// Serve an interactive terminal of this size.
    Attach {
        /// The columns of the terminal.
        cols: u16,
        /// The rows of the terminal.
        rows: u16,
    },
}

/// A server that owns a session.
#[derive(Debug)]
pub struct Daemon {
    session: Session,
    session_path: String,
    shutdown: bool,
}

/// The contents of a [`Daemon`].
pub struct DaemonState {
    /// The session.
    pub session: Session,
    /// Where it is saved.
    pub path: Seq<char>,
    /// Whether the daemon is to shut down.
    pub shutdown: bool,
}

impl View for Daemon {
    type V = DaemonState;

    closed spec fn view(&self) -> DaemonState {
        DaemonState { session: self.session, path: self.session_path@, shutdown: self.shutdown }
    }
}

/// Whether `s` sums up a daemon.
pub open spec fn sums_up(d: DaemonState, s: DaemonStatus) -> bool {
    &&& s.panes == d.session.panes@.len()
    &&& s.focused == d.session.focused
    &&& opt_text(s.session_path) == Some(d.path)
}

impl Daemon {
    /// A daemon that owns `session` and saves it at `session_path`.
    pub fn new(session: Session, session_path: String) -> (r: Self)
        ensures
            r@ == (DaemonState { session, path: session_path@, shutdown: false }),
    {
        Daemon { session, session_path, shutdown: false }
    }

    /// A daemon that takes up where the last one left off: with the saved session if there is one,
    /// else with an empty one.
    pub fn bootstrap_at(session_path: String, saved: Option<Session>) -> (r: Self)
        ensures
            r@.path == session_path@,
            !r@.shutdown,
            match saved {
                Some(session) => r@.session == session,
                None => is_empty_session(r@.session),
            },
    {
        match saved {
            Some(session) => Daemon::new(session, session_path),
            None => Daemon::new(empty_session(), session_path),
        }
    }

    /// Where the session is saved: at the usual place, or in the working directory if there is
    /// none.
    pub fn bootstrap_path(usual: Option<String>) -> (r: String)
        ensures
            r@ == (match opt_text(usual) {
                Some(path) => path,
                None => "majestic-session.json"@,
            }),
    {
        match usual {
            Some(path) => path,
            None => "majestic-session.json".to_owned(),
        }
    }

    /// The session.
    pub fn session(&self) -> (r: &Session)
        ensures
            *r == self@.session,
    {
        &self.session
    }

    /// Replaces the session.
    pub fn set_session(&mut self, session: Session)
        ensures
            final(self)@ == (DaemonState { session, ..old(self)@ }),
    {
        self.session = session;
    }

    /// Where the session is saved.
    pub fn session_path(&self) -> (r: &str)
        ensures
            r@ == self@.path,
    {
        self.session_path.as_str()
    }

    /// Whether the daemon is to shut down.
    pub fn wants_shutdown(&self) -> (r: bool)
        ensures
            r == self@.shutdown,
    {
        self.shutdown
    }

    /// Handles a request. Only [`Request::Shutdown`] changes the daemon, and that for good.
    pub fn handle(&mut self, request: Request) -> (r: Handled)
        ensures
            match request {
                Request::Status => r matches Handled::Respond(Response::Status(s)) && sums_up(
                    old(self)@,
                    s,
                ),
                Request::Save => r == Handled::Save,
                Request::Shutdown => r == Handled::Respond(Response::Done),
                Request::Attach { cols, rows } => r == (Handled::Attach { cols, rows }),
            },
            final(self)@ == (DaemonState {
                shutdown: old(self)@.shutdown || request == Request::Shutdown,
                ..old(self)@
            }),
    {
        match request {
            Request::Status => Handled::Respond(Response::Status(self.status())),
            Request::Save => Handled::Save,
            Request::Shutdown => {
                self.shutdown = true;
                Handled::Respond(Response::Done)
            },
            Request::Attach { cols, rows } => Handled::Attach { cols, rows },
        }
    }

    fn status(&self) -> (r: DaemonStatus)
        ensures
            sums_up(self@, r),
    {
        DaemonStatus {
            panes: self.session.panes.len(),
            focused: self.session.focused,
            session_path: Some(self.session_path.clone()),
        }
    }
}

/// The answer to a request to save, by how it went.
pub fn saved(result: Result<(), String>) -> (r: Response)
    ensures
        match result {
            Ok(_) => r == Response::Done,
            Err(error) => r == Response::Error(error),
        },
{
    match result {
        Ok(_) => Response::Done,
        Err(error) => Response::Error(error),
    }
}

/// The summary that an answer to a status request gives, or the daemon's complaint.
pub fn status_of(response: Response) -> (r: Result<Option<DaemonStatus>, String>)
    ensures
        r == (match response {
            Response::Status(status) => Ok(Some(status)),
            Response::Done => Ok(None),
            Response::Error(message) => Err(message),
        }),
{
    match response {
        Response::Status(status) => Ok(Some(status)),
        Response::Done => Ok(None),
        Response::Error(message) => Err(message),
    }
}

/// Whether a session has one pane without a file, at its start.
pub open spec fn is_empty_session(s: Session) -> bool {
    &&& s.panes@.len() == 1
    &&& s.panes@[0].path is None
    &&& s.panes@[0].cursor == 0
    &&& s.panes@[0].viewport_top == 0
    &&& s.panes@[0].viewport_left == 0
    &&& s.layout == LayoutNode::Leaf(0)
    &&& s.focused == 0
}

/// A session with one pane and no file.
pub fn empty_session() -> (r: Session)
    ensures
        is_empty_session(r),
{
    let mut panes: Vec<PaneState> = Vec::new();
    panes.push(PaneState { path: None, cursor: 0, viewport_top: 0, viewport_left: 0 });
    Session { panes, layout: LayoutNode::Leaf(0), focused: 0 }
}

/// The daemon's socket, below the runtime directory.
pub fn socket_path(runtime_dir: &str) -> (r: String)
    ensures
        r@ == join(join(runtime_dir@, "majestic"@), "daemon.sock"@),
{
    join_path(join_path(runtime_dir, "majestic").as_str(), "daemon.sock")
}

/// The four bytes of a length give it back.
proof fn lemma_length(n: nat)
    requires
        n <= MAX_FRAME_BYTES,
    ensures
        length_of(length_bytes(n)) == n,
{
    let m = n as u32;
    assert(m / 0x100_0000 % 0x100 * 0x100_0000 + m / 0x1_0000 % 0x100 * 0x1_0000 + m / 0x100
        % 0x100 * 0x100 + m % 0x100 == m) by (bit_vector);
}

/// A frame that was written is read back, whatever follows it on the wire.
pub proof fn law_frames_round_trip(body: Seq<u8>, rest: Seq<u8>)
    requires
        body.len() <= MAX_FRAME_BYTES,
    ensures
        unframed(framed(body) + rest) == Ok::<Seq<u8>, FrameError>(body),
        (framed(body) + rest).skip(4 + body.len() as int) == rest,
{
    let b = framed(body) + rest;
    let n = body.len();
    assert(b[0] == length_bytes(n)[0] && b[1] == length_bytes(n)[1] && b[2] == length_bytes(n)[2]
        && b[3] == length_bytes(n)[3]);
    lemma_length(n);
    assert(b.subrange(4, 4 + n as int) =~= body);
    assert(b.skip(4 + n as int) =~= rest);
}

/// Two frames on one wire are read in the order in which they were written.
pub proof fn law_frames_keep_order(a: Seq<u8>, b: Seq<u8>)
    requires
        a.len() <= MAX_FRAME_BYTES,
        b.len() <= MAX_FRAME_BYTES,
    ensures
        unframed(framed(a) + framed(b)) == Ok::<Seq<u8>, FrameError>(a),
        unframed((framed(a) + framed(b)).skip(4 + a.len() as int)) == Ok::<Seq<u8>, FrameError>(b),
{
    law_frames_round_trip(a, framed(b));
    law_frames_round_trip(b, Seq::empty());
    assert(framed(b) + Seq::<u8>::empty() =~= framed(b));
}

} // verus!
