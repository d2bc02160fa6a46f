//! Laws of the session multiplexer, proved over the spec transitions of
//! [`crate::session`]: order preservation of the fan-out, correctness and
//! clearance of the replay buffer, the gating of client frames, debouncing of
//! client resizes, and the order of the attach handshake.

use vstd::prelude::*;
use crate::session::{
    inv, spec_apply_resize, spec_attach, spec_client_frame, spec_on_pty_chunk, spec_resize_tick,
    tail_cap, ActionModel, FrameModel, InFrameModel, MsgModel, SessionModel,
    MIN_RESIZE_INTERVAL_MS, REPLAY_CAP,
};
use crate::size::valid_size;

verus! {

/// A run of the PTY reader: the chunks it read, in order, each handed to
/// [`spec_on_pty_chunk`] under the same subscriber regime. Yields the final
/// state and the frames published to the broadcast channel, in order.
pub open spec fn run_reader(m: SessionModel, chunks: Seq<Seq<u8>>, subscribers: bool) -> (SessionModel, Seq<FrameModel>)
    decreases chunks.len(),
{
    if chunks.len() == 0 {
        (m, seq![])
    } else {
        let step = spec_on_pty_chunk(m, chunks.first(), subscribers);
        let rest = run_reader(step.0, chunks.drop_first(), subscribers);
        let published = match step.1 {
            Some(f) => seq![f] + rest.1,
            None => rest.1,
        };
        (rest.0, published)
    }
}

/// Order preservation: while clients are attached, every chunk the PTY emits
/// is published exactly once, unchanged and in emission order — the frames a
/// subscriber receives between attach and detach are a contiguous,
/// unreordered image of the PTY output produced in that span.
pub proof fn lemma_order_preservation(m: SessionModel, chunks: Seq<Seq<u8>>)
    ensures
        run_reader(m, chunks, true).1 == chunks.map_values(|c: Seq<u8>| FrameModel::Data(c)),
        run_reader(m, chunks, true).0 == (SessionModel { history: m.history + chunks.flatten(), ..m }),
    decreases chunks.len(),
{
    let mapped = chunks.map_values(|c: Seq<u8>| FrameModel::Data(c));
    if chunks.len() == 0 {
        assert(run_reader(m, chunks, true).1 =~= mapped);
        assert(chunks.flatten() == Seq::<u8>::empty());
        assert(run_reader(m, chunks, true).0 =~= (SessionModel { history: m.history + chunks.flatten(), ..m }));
    } else {
        let step = spec_on_pty_chunk(m, chunks.first(), true);
        lemma_order_preservation(step.0, chunks.drop_first());
        assert(run_reader(m, chunks, true).1 =~= mapped);
        assert(m.history + chunks.first() + chunks.drop_first().flatten() =~= m.history + chunks.flatten());
        assert(run_reader(m, chunks, true).0 =~= (SessionModel { history: m.history + chunks.flatten(), ..m }));
    }
}

/// Appending to an already-capped buffer is the same as capping the whole.
proof fn lemma_tail_cap_absorb(a: Seq<u8>, b: Seq<u8>)
    ensures
        tail_cap(tail_cap(a) + b) == tail_cap(a + b),
{
    if a.len() <= REPLAY_CAP {
        assert(tail_cap(a) + b =~= a + b);
    } else {
        assert(tail_cap(tail_cap(a) + b) =~= tail_cap(a + b));
    }
}

/// Replay accumulation: a run with no subscribers folds every chunk into the
/// replay buffer, which afterwards holds exactly the last `REPLAY_CAP` bytes
/// of what the buffer held before followed by everything the PTY emitted.
pub proof fn lemma_replay_accumulates(m: SessionModel, chunks: Seq<Seq<u8>>)
    requires
        m.replay.len() <= REPLAY_CAP,
    ensures
        run_reader(m, chunks, false).0 == (SessionModel {
            history: m.history + chunks.flatten(),
            replay: tail_cap(m.replay + chunks.flatten()),
            ..m
        }),
        run_reader(m, chunks, false).1 == Seq::<FrameModel>::empty(),
    decreases chunks.len(),
{
    if chunks.len() == 0 {
        assert(tail_cap(m.replay + chunks.flatten()) =~= m.replay);
        assert(run_reader(m, chunks, false).0 =~= (SessionModel {
            history: m.history + chunks.flatten(),
            replay: tail_cap(m.replay + chunks.flatten()),
            ..m
        }));
        assert(run_reader(m, chunks, false).1 =~= Seq::<FrameModel>::empty());
    } else {
        let c0 = chunks.first();
        let step = spec_on_pty_chunk(m, c0, false);
        assert(step.0.replay.len() <= REPLAY_CAP);
        lemma_replay_accumulates(step.0, chunks.drop_first());
        lemma_tail_cap_absorb(m.replay + c0, chunks.drop_first().flatten());
        assert(m.replay + c0 + chunks.drop_first().flatten() =~= m.replay + chunks.flatten());
        assert(run_reader(m, chunks, false).0 =~= (SessionModel {
            history: m.history + chunks.flatten(),
            replay: tail_cap(m.replay + chunks.flatten()),
            ..m
        }));
    }
}

/// Replay correctness: if the PTY emitted the bytes `B = chunks.flatten()`
/// while no client was attached (and the buffer was empty before), the first
/// client to attach is sent, after the three status messages and before any
/// live output, one `Write` holding exactly the last
/// `min(|B|, REPLAY_CAP)` bytes of `B`; when `B` is empty it is sent nothing.
pub proof fn lemma_replay_correctness(m: SessionModel, chunks: Seq<Seq<u8>>)
    requires
        m.replay == Seq::<u8>::empty(),
    ensures
        ({
            let b = chunks.flatten();
            let after = run_reader(m, chunks, false).0;
            let msgs = spec_attach(after).1;
            &&& b.len() > 0 ==> msgs == seq![
                MsgModel::WinSize(m.cols, m.rows),
                MsgModel::ReadOnly(m.readonly),
                MsgModel::Headless(m.headless),
                MsgModel::Write(b.subrange(b.len() - min_cap(b.len() as nat), b.len() as int)),
            ]
            &&& b.len() == 0 ==> msgs == seq![
                MsgModel::WinSize(m.cols, m.rows),
                MsgModel::ReadOnly(m.readonly),
                MsgModel::Headless(m.headless),
            ]
        }),
{
    let b = chunks.flatten();
    lemma_replay_accumulates(m, chunks);
    let after = run_reader(m, chunks, false).0;
    assert(m.replay + b =~= b);
    assert(after.replay == tail_cap(b));
    if b.len() > 0 {
        assert(tail_cap(b) =~= b.subrange(b.len() - min_cap(b.len() as nat), b.len() as int));
        assert(spec_attach(after).1 =~= seq![
            MsgModel::WinSize(m.cols, m.rows),
            MsgModel::ReadOnly(m.readonly),
            MsgModel::Headless(m.headless),
            MsgModel::Write(b.subrange(b.len() - min_cap(b.len() as nat), b.len() as int)),
        ]);
    } else {
        assert(tail_cap(b) =~= b);
        assert(spec_attach(after).1 =~= seq![
            MsgModel::WinSize(m.cols, m.rows),
            MsgModel::ReadOnly(m.readonly),
            MsgModel::Headless(m.headless),
        ]);
    }
}

/// What one client is shown, replay and live output together: attaching
/// after a quiet spell and then staying subscribed, the client receives the
/// replay `Write` followed by the live chunks — and those bytes are exactly
/// a contiguous suffix of everything the PTY has emitted.
pub proof fn lemma_replay_then_live_is_suffix(m: SessionModel, quiet: Seq<Seq<u8>>, live: Seq<Seq<u8>>)
    requires
        m.replay == Seq::<u8>::empty(),
    ensures
        ({
            let after_quiet = run_reader(m, quiet, false).0;
            let attached = spec_attach(after_quiet);
            let after_live = run_reader(attached.0, live, true);
            let replay_bytes = after_quiet.replay;
            let live_bytes = live.flatten();
            let seen = replay_bytes + live_bytes;
            &&& after_live.1 == live.map_values(|c: Seq<u8>| FrameModel::Data(c))
            &&& after_live.0.history == m.history + quiet.flatten() + live.flatten()
            &&& seen == after_live.0.history.subrange(
                after_live.0.history.len() - seen.len(),
                after_live.0.history.len() as int,
            )
        }),
{
    lemma_replay_accumulates(m, quiet);
    let after_quiet = run_reader(m, quiet, false).0;
    let attached = spec_attach(after_quiet);
    lemma_order_preservation(attached.0, live);
    let after_live = run_reader(attached.0, live, true);
    let b = quiet.flatten();
    assert(m.replay + b =~= b);
    assert(after_quiet.replay == tail_cap(b));
    let replay_bytes = after_quiet.replay;
    let live_bytes = live.flatten();
    let seen = replay_bytes + live_bytes;
    let h = after_live.0.history;
    assert(h =~= m.history + b + live_bytes);
    assert(tail_cap(b) =~= b.subrange(b.len() - tail_cap(b).len(), b.len() as int));
    assert(seen =~= h.subrange(h.len() - seen.len(), h.len() as int));
}

/// `min(n, REPLAY_CAP)`: how much of the emitted output a late client can
/// still be shown.
pub open spec fn min_cap(n: nat) -> int {
    if n <= REPLAY_CAP {
        n as int
    } else {
        REPLAY_CAP as int
    }
}

/// Replay clearance: draining the buffer at attach empties it, and a second
/// client attaching with no intervening zero-subscriber output is sent no
/// replay `Write` — its handshake is exactly the three status messages.
pub proof fn lemma_replay_clearance(m: SessionModel)
    ensures
        spec_attach(m).0.replay == Seq::<u8>::empty(),
        spec_attach(spec_attach(m).0).1 == seq![
            MsgModel::WinSize(m.cols, m.rows),
            MsgModel::ReadOnly(m.readonly),
            MsgModel::Headless(m.headless),
        ],
{
    let m1 = spec_attach(m).0;
    assert(spec_attach(m1).1 =~= seq![
        MsgModel::WinSize(m.cols, m.rows),
        MsgModel::ReadOnly(m.readonly),
        MsgModel::Headless(m.headless),
    ]);
}

/// Read-only enforcement: while the session flag is set, a client `Write`
/// frame produces no PTY write — it is dropped with no state change.
pub proof fn lemma_readonly_enforcement(m: SessionModel, now_ms: u64, d: Seq<u8>)
    requires
        m.readonly,
    ensures
        spec_client_frame(m, now_ms, InFrameModel::Write(d)) == (m, ActionModel::Ignore),
{
}

/// Headless gating: while the session is not headless, a client `WinSize`
/// frame is dropped — the current size and the whole state are unchanged, and
/// no resize is instructed.
pub proof fn lemma_headless_gating(m: SessionModel, now_ms: u64, c: u16, r: u16)
    requires
        !m.headless,
    ensures
        spec_client_frame(m, now_ms, InFrameModel::WinSize(c, r)) == (m, ActionModel::Ignore),
{
}

/// Resize validation: an unacceptable size is never applied and never parked
/// in the pending slot — neither by a client frame, nor by a debounce tick,
/// nor by the local-terminal path (whose contract requires validity).
pub proof fn lemma_resize_validation(m: SessionModel, now_ms: u64, c: u16, r: u16)
    requires
        inv(m),
        !valid_size(c, r),
    ensures
        spec_client_frame(m, now_ms, InFrameModel::WinSize(c, r)) == (m, ActionModel::Ignore),
        forall|a: u16, b: u16| spec_client_frame(m, now_ms, InFrameModel::WinSize(a, b)).1
            == ActionModel::ApplyNow(a, b) ==> valid_size(a, b),
        spec_resize_tick(m, now_ms).1 matches Some(p) ==> valid_size(p.0, p.1),
{
}

/// One resize-relevant event: a client `WinSize` frame or a debounce tick,
/// each at its monotonic time in milliseconds.
pub enum ResizeEvent {
    Client(u64, u16, u16),
    Tick(u64),
}

/// A run of resize-relevant events. Yields the final state and the times at
/// which a client-initiated resize was released to the PTY.
pub open spec fn resize_run(m: SessionModel, evs: Seq<ResizeEvent>) -> (SessionModel, Seq<u64>)
    decreases evs.len(),
{
    if evs.len() == 0 {
        (m, seq![])
    } else {
        let step = match evs.first() {
            ResizeEvent::Client(t, c, r) => {
                let s = spec_client_frame(m, t, InFrameModel::WinSize(c, r));
                (s.0, if s.1 is ApplyNow { seq![t] } else { Seq::<u64>::empty() })
            },
            ResizeEvent::Tick(t) => {
                let s = spec_resize_tick(m, t);
                (s.0, if s.1 is Some { seq![t] } else { Seq::<u64>::empty() })
            },
        };
        let rest = resize_run(step.0, evs.drop_first());
        (rest.0, step.1 + rest.1)
    }
}

/// The times are spaced by at least the debounce interval.
pub open spec fn debounced(ts: Seq<u64>) -> bool {
    forall|i: int| 0 < i < ts.len() ==> #[trigger] ts[i] >= ts[i - 1] + MIN_RESIZE_INTERVAL_MS
}

/// Helper shape of the debounce induction: every released resize lies at
/// least one interval after the debounce clock at entry, the releases are
/// spaced by at least one interval, and the clock never runs backwards.
proof fn lemma_debounce_run(m: SessionModel, evs: Seq<ResizeEvent>)
    ensures
        ({
            let (m2, ts) = resize_run(m, evs);
            &&& debounced(ts)
            &&& forall|i: int| 0 <= i < ts.len() ==> #[trigger] ts[i] >= m.last_resize_ms + MIN_RESIZE_INTERVAL_MS
            &&& m2.last_resize_ms >= m.last_resize_ms
            &&& ts.len() > 0 ==> m2.last_resize_ms >= ts.last()
        }),
    decreases evs.len(),
{
    if evs.len() > 0 {
        let step_m: SessionModel = match evs.first() {
            ResizeEvent::Client(t, c, r) => spec_client_frame(m, t, InFrameModel::WinSize(c, r)).0,
            ResizeEvent::Tick(t) => spec_resize_tick(m, t).0,
        };
        lemma_debounce_run(step_m, evs.drop_first());
        let (m2, ts) = resize_run(m, evs);
        let rest = resize_run(step_m, evs.drop_first());
        assert(debounced(ts));
    }
}

/// Resize debounce: in any run of client resize requests and debounce ticks,
/// two client-initiated resizes released to the PTY are at least
/// `MIN_RESIZE_INTERVAL_MS` apart — so any window of that duration sees at
/// most one.
pub proof fn lemma_resize_debounce(m: SessionModel, evs: Seq<ResizeEvent>)
    ensures
        debounced(resize_run(m, evs).1),
{
    lemma_debounce_run(m, evs);
}

/// Burst convergence: a pending request parked by the rate limiter is
/// released by the first tick that lies a full interval after the last
/// release — the newest request of a burst is applied once the burst ends.
pub proof fn lemma_pending_release(m: SessionModel, now_ms: u64)
    requires
        m.pending is Some,
        now_ms >= m.last_resize_ms + MIN_RESIZE_INTERVAL_MS,
    ensures
        spec_resize_tick(m, now_ms) == (
            SessionModel { pending: None, last_resize_ms: now_ms, ..m },
            m.pending,
        ),
{
}

/// Idempotent announcement: applying the same size twice in succession
/// produces two `WinSize` announcements — announcements are never
/// deduplicated, only the PTY state is idempotent.
pub proof fn lemma_idempotent_announcement(m: SessionModel, c: u16, r: u16)
    ensures
        spec_apply_resize(m, c, r).1 == FrameModel::WinSize(c, r),
        spec_apply_resize(spec_apply_resize(m, c, r).0, c, r).1 == FrameModel::WinSize(c, r),
        spec_apply_resize(spec_apply_resize(m, c, r).0, c, r).0 == spec_apply_resize(m, c, r).0,
{
    assert(spec_apply_resize(spec_apply_resize(m, c, r).0, c, r).0 =~= spec_apply_resize(m, c, r).0);
}

/// Attach handshake ordering: every attaching client is sent `WinSize`,
/// `ReadOnly`, `Headless`, in that order, then one `Write` exactly when the
/// replay buffer was non-empty, and nothing else.
pub proof fn lemma_attach_handshake_order(m: SessionModel)
    ensures
        ({
            let msgs = spec_attach(m).1;
            &&& msgs[0] == MsgModel::WinSize(m.cols, m.rows)
            &&& msgs[1] == MsgModel::ReadOnly(m.readonly)
            &&& msgs[2] == MsgModel::Headless(m.headless)
            &&& m.replay.len() > 0 ==> msgs.len() == 4 && msgs[3] == MsgModel::Write(m.replay)
            &&& m.replay.len() == 0 ==> msgs.len() == 3
        }),
{
}

} // verus!
