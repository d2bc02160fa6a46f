//! The session multiplexer's state and its transitions.
//!
//! A [`Session`] owns the decision state of one shared terminal: the flags the
//! session was started with, the size last applied to the PTY, the replay
//! buffer of output seen while no client was attached, and the debounce state
//! for client-originated resizes. Every transition is a total function with an
//! exact contract, stated over the ghost model [`SessionModel`]; the
//! surrounding tasks (PTY reader, websocket tasks, timers) call these
//! functions and perform the returned actions.

use vstd::prelude::*;
use crate::size::{is_valid_terminal_size, valid_size};

verus! {

/// Bytes of PTY output the replay buffer retains at most.
pub const REPLAY_CAP: usize = 1024;

/// Capacity, in frames, of the broadcast fan-out channel.
pub const BROADCAST_CAPACITY: usize = 1024;

/// Smallest interval, in milliseconds, between two applied client resizes.
pub const MIN_RESIZE_INTERVAL_MS: u64 = 100;

/// Cadence, in milliseconds, at which the pending-resize slot is polled.
pub const RESIZE_CHECK_INTERVAL_MS: u64 = 50;

/// One element of the broadcast channel: either a raw chunk of PTY output or
/// a window-size announcement. A typed sum keeps raw bytes and control frames
/// apart without any in-band marker.
#[derive(Debug, Clone, PartialEq, Eq)]
pub enum Frame {
    Data(Vec<u8>),
    WinSize(u16, u16),
}

/// The ghost image of a [`Frame`].
pub enum FrameModel {
    Data(Seq<u8>),
    WinSize(u16, u16),
}

impl View for Frame {
    type V = FrameModel;

    open spec fn view(&self) -> FrameModel {
        match self {
            Frame::Data(d) => FrameModel::Data(d@),
            Frame::WinSize(c, r) => FrameModel::WinSize(*c, *r),
        }
    }
}

/// A protocol message from the session to one client.
#[derive(Debug, Clone, PartialEq, Eq)]
pub enum ServerMsg {
    WinSize(u16, u16),
    ReadOnly(bool),
    Headless(bool),
    Write(Vec<u8>),
}

/// The ghost image of a [`ServerMsg`].
pub enum MsgModel {
    WinSize(u16, u16),
    ReadOnly(bool),
    Headless(bool),
    Write(Seq<u8>),
}

impl View for ServerMsg {
    type V = MsgModel;

    open spec fn view(&self) -> MsgModel {
        match self {
            ServerMsg::WinSize(c, r) => MsgModel::WinSize(*c, *r),
            ServerMsg::ReadOnly(b) => MsgModel::ReadOnly(*b),
            ServerMsg::Headless(b) => MsgModel::Headless(*b),
            ServerMsg::Write(d) => MsgModel::Write(d@),
        }
    }
}

/// A frame received from a client, already decoded from the wire.
#[derive(Debug, Clone, PartialEq, Eq)]
pub enum InFrame {
    /// Raw bytes the client wants written to the PTY.
    Write(Vec<u8>),
    /// A client-originated resize request.
    WinSize(u16, u16),
    /// A well-formed frame of a type the session does not act on.
    Other,
}

/// The ghost image of an [`InFrame`].
pub enum InFrameModel {
    Write(Seq<u8>),
    WinSize(u16, u16),
    Other,
}

impl View for InFrame {
    type V = InFrameModel;

    open spec fn view(&self) -> InFrameModel {
        match self {
            InFrame::Write(d) => InFrameModel::Write(d@),
            InFrame::WinSize(c, r) => InFrameModel::WinSize(*c, *r),
            InFrame::Other => InFrameModel::Other,
        }
    }
}

/// What the caller must do after handing a client frame to the session.
#[derive(Debug, Clone, PartialEq, Eq)]
pub enum Action {
    /// Nothing: the frame was dropped by policy or by validation.
    Ignore,
    /// Write these bytes to the PTY under the writer lock, then flush.
    WriteToPty(Vec<u8>),
    /// Apply this resize now: call [`Session::apply_resize`] with it.
    ApplyNow(u16, u16),
    /// The request was stored in the pending slot for a later tick.
    Deferred,
}

/// The ghost image of an [`Action`].
pub enum ActionModel {
    Ignore,
    WriteToPty(Seq<u8>),
    ApplyNow(u16, u16),
    Deferred,
}

impl View for Action {
    type V = ActionModel;

    open spec fn view(&self) -> ActionModel {
        match self {
            Action::Ignore => ActionModel::Ignore,
            Action::WriteToPty(d) => ActionModel::WriteToPty(d@),
            Action::ApplyNow(c, r) => ActionModel::ApplyNow(*c, *r),
            Action::Deferred => ActionModel::Deferred,
        }
    }
}

/// The mathematical state of a session.
#[verifier::ext_equal]
pub struct SessionModel {
    pub readonly: bool,
    pub headless: bool,
    pub cols: u16,
    pub rows: u16,
    pub replay: Seq<u8>,
    pub last_resize_ms: u64,
    pub pending: Option<(u16, u16)>,
    /// Every byte the PTY has emitted so far, in order.
    pub history: Seq<u8>,
}

/// The last `REPLAY_CAP` bytes of `s`, or all of `s` when it is shorter.
pub open spec fn tail_cap(s: Seq<u8>) -> Seq<u8> {
    if s.len() <= REPLAY_CAP {
        s
    } else {
        s.subrange(s.len() - REPLAY_CAP, s.len() as int)
    }
}

/// Well-formedness of a session: the replay buffer is bounded, the current
/// size is acceptable, and any pending resize has already passed validation.
/// That the replay buffer holds a contiguous suffix of the output seen while
/// no client was attached is stated over whole runs, in the laws below.
pub open spec fn inv(m: SessionModel) -> bool {
    &&& m.replay.len() <= REPLAY_CAP
    &&& valid_size(m.cols, m.rows)
    &&& (m.pending matches Some(p) ==> valid_size(p.0, p.1))
}

/// One step of the PTY reader: with at least one subscriber the chunk is
/// published unchanged; with none it is appended to the replay buffer, which
/// keeps only its last `REPLAY_CAP` bytes.
pub open spec fn spec_on_pty_chunk(m: SessionModel, chunk: Seq<u8>, subscribers: bool) -> (SessionModel, Option<FrameModel>) {
    if subscribers {
        (SessionModel { history: m.history + chunk, ..m }, Some(FrameModel::Data(chunk)))
    } else {
        (SessionModel { history: m.history + chunk, replay: tail_cap(m.replay + chunk), ..m }, None)
    }
}

/// The attach handshake: the messages a newly accepted client is sent, in
/// order, and the state afterwards. The replay buffer is drained exactly here.
pub open spec fn spec_attach(m: SessionModel) -> (SessionModel, Seq<MsgModel>) {
    let head = seq![
        MsgModel::WinSize(m.cols, m.rows),
        MsgModel::ReadOnly(m.readonly),
        MsgModel::Headless(m.headless),
    ];
    let msgs = if m.replay.len() > 0 {
        head + seq![MsgModel::Write(m.replay)]
    } else {
        head
    };
    (SessionModel { replay: seq![], ..m }, msgs)
}

/// Dispatch of one client frame: `Write` is dropped when the session is
/// read-only; `WinSize` is dropped unless the session is headless and the size
/// is acceptable, and is then debounced against the last applied resize.
pub open spec fn spec_client_frame(m: SessionModel, now_ms: u64, f: InFrameModel) -> (SessionModel, ActionModel) {
    match f {
        InFrameModel::Write(d) => {
            if m.readonly {
                (m, ActionModel::Ignore)
            } else {
                (m, ActionModel::WriteToPty(d))
            }
        },
        InFrameModel::WinSize(c, r) => {
            if !m.headless {
                (m, ActionModel::Ignore)
            } else if !valid_size(c, r) {
                (m, ActionModel::Ignore)
            } else if now_ms >= m.last_resize_ms + MIN_RESIZE_INTERVAL_MS {
                (SessionModel { last_resize_ms: now_ms, ..m }, ActionModel::ApplyNow(c, r))
            } else {
                (SessionModel { pending: Some((c, r)), ..m }, ActionModel::Deferred)
            }
        },
        InFrameModel::Other => (m, ActionModel::Ignore),
    }
}

/// One debounce tick: a pending resize is released once the minimum interval
/// since the last applied resize has elapsed.
pub open spec fn spec_resize_tick(m: SessionModel, now_ms: u64) -> (SessionModel, Option<(u16, u16)>) {
    match m.pending {
        Some(p) => {
            if now_ms >= m.last_resize_ms + MIN_RESIZE_INTERVAL_MS {
                (SessionModel { pending: None, last_resize_ms: now_ms, ..m }, Some(p))
            } else {
                (m, None)
            }
        },
        None => (m, None),
    }
}

/// Applying a resize: the current size is updated and a `WinSize`
/// announcement is produced for the broadcast channel, unconditionally — also
/// when the size did not change.
pub open spec fn spec_apply_resize(m: SessionModel, cols: u16, rows: u16) -> (SessionModel, FrameModel) {
    (SessionModel { cols, rows, ..m }, FrameModel::WinSize(cols, rows))
}

/// The decision state of one shared terminal session.
pub struct Session {
    readonly: bool,
    headless: bool,
    cols: u16,
    rows: u16,
    replay: Vec<u8>,
    last_resize_ms: u64,
    pending: Option<(u16, u16)>,
    history: Ghost<Seq<u8>>,
}

impl View for Session {
    type V = SessionModel;

    closed spec fn view(&self) -> SessionModel {
        SessionModel {
            readonly: self.readonly,
            headless: self.headless,
            cols: self.cols,
            rows: self.rows,
            replay: self.replay@,
            last_resize_ms: self.last_resize_ms,
            pending: self.pending,
            history: self.history@,
        }
    }
}

impl Session {
    /// A fresh session. `now_ms` is the moment of creation on the monotonic
    /// clock used for all later transitions; debouncing counts from it.
    pub fn new(readonly: bool, headless: bool, cols: u16, rows: u16, now_ms: u64) -> (s: Session)
        requires
            valid_size(cols, rows),
        ensures
            s@ == (SessionModel {
                readonly,
                headless,
                cols,
                rows,
                replay: Seq::<u8>::empty(),
                last_resize_ms: now_ms,
                pending: None,
                history: Seq::<u8>::empty(),
            }),
            inv(s@),
    {
        let s = Session {
            readonly,
            headless,
            cols,
            rows,
            replay: Vec::new(),
            last_resize_ms: now_ms,
            pending: None,
            history: Ghost(Seq::empty()),
        };
        proof {
            assert(s@ =~= (SessionModel {
                readonly,
                headless,
                cols,
                rows,
                replay: Seq::<u8>::empty(),
                last_resize_ms: now_ms,
                pending: None,
                history: Seq::<u8>::empty(),
            }));
        }
        s
    }

    /// The size last applied to the PTY.
    pub fn current_size(&self) -> (r: (u16, u16))
        ensures
            r == (self@.cols, self@.rows),
    {
        (self.cols, self.rows)
    }

    /// Whether clients' `Write` frames are dropped.
    pub fn is_readonly(&self) -> (r: bool)
        ensures
            r == self@.readonly,
    {
        self.readonly
    }

    /// Whether client-originated resizes are authoritative.
    pub fn is_headless(&self) -> (r: bool)
        ensures
            r == self@.headless,
    {
        self.headless
    }

    /// The PTY reader observed one chunk of output. With subscribers present
    /// the returned frame must be published to the broadcast channel; with
    /// none the chunk was folded into the replay buffer instead.
    pub fn on_pty_chunk(&mut self, chunk: &Vec<u8>, subscribers: bool) -> (r: Option<Frame>)
        requires
            inv(old(self)@),
        ensures
            inv(final(self)@),
            final(self)@ == spec_on_pty_chunk(old(self)@, chunk@, subscribers).0,
            (match r {
                Some(f) => Some(f@),
                None => None,
            }) == spec_on_pty_chunk(old(self)@, chunk@, subscribers).1,
    {
        proof {
            self.history@ = self.history@ + chunk@;
        }
        if subscribers {
            assert(self@ =~= spec_on_pty_chunk(old(self)@, chunk@, true).0);
            Some(Frame::Data(chunk.clone()))
        } else {
            let mut i: usize = 0;
            let n = chunk.len();
            while i < n
                invariant
                    i <= n,
                    n == chunk@.len(),
                    self.replay@ == old(self).replay@ + chunk@.subrange(0, i as int),
                    self.headless == old(self).headless,
                    self.readonly == old(self).readonly,
                    self.cols == old(self).cols,
                    self.rows == old(self).rows,
                    self.last_resize_ms == old(self).last_resize_ms,
                    self.pending == old(self).pending,
                    self.history@ == old(self).history@ + chunk@,
                decreases n - i,
            {
                self.replay.push(chunk[i]);
                i += 1;
                assert(self.replay@ =~= old(self).replay@ + chunk@.subrange(0, i as int));
            }
            assert(self.replay@ =~= old(self).replay@ + chunk@);
            if self.replay.len() > REPLAY_CAP {
                let start = self.replay.len() - REPLAY_CAP;
                let mut kept: Vec<u8> = Vec::new();
                let mut j: usize = start;
                let total = self.replay.len();
                while j < total
                    invariant
                        start <= j <= total,
                        total == self.replay@.len(),
                        start == total - REPLAY_CAP,
                        kept@ == self.replay@.subrange(start as int, j as int),
                    decreases total - j,
                {
                    kept.push(self.replay[j]);
                    j += 1;
                    assert(kept@ =~= self.replay@.subrange(start as int, j as int));
                }
                self.replay = kept;
            }
            proof {
                let m = spec_on_pty_chunk(old(self)@, chunk@, false).0;
                assert(self@.replay =~= m.replay);
                assert(self@ =~= m);
            }
            None
        }
    }

    /// The attach handshake: returns the messages for the new client, in the
    /// exact order they must be sent, and clears the replay buffer.
    pub fn attach(&mut self) -> (msgs: Vec<ServerMsg>)
        requires
            inv(old(self)@),
        ensures
            inv(final(self)@),
            final(self)@ == spec_attach(old(self)@).0,
            msgs@.map_values(|m: ServerMsg| m@) == spec_attach(old(self)@).1,
    {
        let mut msgs: Vec<ServerMsg> = Vec::new();
        msgs.push(ServerMsg::WinSize(self.cols, self.rows));
        msgs.push(ServerMsg::ReadOnly(self.readonly));
        msgs.push(ServerMsg::Headless(self.headless));
        if self.replay.len() > 0 {
            let drained = self.replay.clone();
            self.replay.clear();
            msgs.push(ServerMsg::Write(drained));
        }
        proof {
            assert(self@ =~= spec_attach(old(self)@).0);
            assert(msgs@.map_values(|m: ServerMsg| m@) =~= spec_attach(old(self)@).1);
        }
        msgs
    }

    /// Dispatch one frame received from a client at monotonic time `now_ms`.
    pub fn client_frame(&mut self, now_ms: u64, f: &InFrame) -> (a: Action)
        requires
            inv(old(self)@),
        ensures
            inv(final(self)@),
            final(self)@ == spec_client_frame(old(self)@, now_ms, f@).0,
            a@ == spec_client_frame(old(self)@, now_ms, f@).1,
    {
        match f {
            InFrame::Write(d) => {
                if self.readonly {
                    Action::Ignore
                } else {
                    Action::WriteToPty(d.clone())
                }
            },
            InFrame::WinSize(c, r) => {
                let c = *c;
                let r = *r;
                if !self.headless {
                    Action::Ignore
                } else if !is_valid_terminal_size(c, r) {
                    Action::Ignore
                } else if now_ms >= self.last_resize_ms && now_ms - self.last_resize_ms >= MIN_RESIZE_INTERVAL_MS {
                    self.last_resize_ms = now_ms;
                    Action::ApplyNow(c, r)
                } else {
                    self.pending = Some((c, r));
                    Action::Deferred
                }
            },
            InFrame::Other => Action::Ignore,
        }
    }

    /// One debounce tick at monotonic time `now_ms`. A returned size must be
    /// applied by the caller through [`Session::apply_resize`].
    pub fn resize_tick(&mut self, now_ms: u64) -> (r: Option<(u16, u16)>)
        requires
            inv(old(self)@),
        ensures
            inv(final(self)@),
            final(self)@ == spec_resize_tick(old(self)@, now_ms).0,
            r == spec_resize_tick(old(self)@, now_ms).1,
            r matches Some(p) ==> valid_size(p.0, p.1),
    {
        match self.pending {
            Some(p) => {
                if now_ms >= self.last_resize_ms && now_ms - self.last_resize_ms >= MIN_RESIZE_INTERVAL_MS {
                    self.pending = None;
                    self.last_resize_ms = now_ms;
                    Some(p)
                } else {
                    None
                }
            },
            None => None,
        }
    }

    /// Apply a resize: record the new current size and return the `WinSize`
    /// announcement to publish. The caller also resizes the PTY itself; a
    /// failure there is logged and does not retract the announcement.
    pub fn apply_resize(&mut self, cols: u16, rows: u16) -> (fr: Frame)
        requires
            inv(old(self)@),
            valid_size(cols, rows),
        ensures
            inv(final(self)@),
            final(self)@ == spec_apply_resize(old(self)@, cols, rows).0,
            fr@ == spec_apply_resize(old(self)@, cols, rows).1,
    {
        self.cols = cols;
        self.rows = rows;
        Frame::WinSize(cols, rows)
    }

    /// A resize observed on the host terminal: validated, then applied
    /// immediately — the host terminal is authoritative and is not debounced.
    pub fn local_resize(&mut self, cols: u16, rows: u16) -> (fr: Option<Frame>)
        requires
            inv(old(self)@),
        ensures
            inv(final(self)@),
            valid_size(cols, rows) ==> {
                &&& final(self)@ == spec_apply_resize(old(self)@, cols, rows).0
                &&& fr matches Some(f) && f@ == spec_apply_resize(old(self)@, cols, rows).1
            },
            !valid_size(cols, rows) ==> final(self)@ == old(self)@ && fr is None,
    {
        if is_valid_terminal_size(cols, rows) {
            Some(self.apply_resize(cols, rows))
        } else {
            None
        }
    }
}

} // verus!
