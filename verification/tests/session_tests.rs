use rwshell::session::{Action, Frame, InFrame, ServerMsg, Session};

fn fresh(readonly: bool, headless: bool, cols: u16, rows: u16) -> Session {
    Session::new(readonly, headless, cols, rows, 0)
}

#[test]
fn attach_handshake_order() {
    let mut s = fresh(false, true, 80, 24);
    let msgs = s.attach();
    assert_eq!(msgs.len(), 3);
    assert_eq!(msgs[0], ServerMsg::WinSize(80, 24));
    assert_eq!(msgs[1], ServerMsg::ReadOnly(false));
    assert_eq!(msgs[2], ServerMsg::Headless(true));
}

#[test]
fn replay_late_attach_gets_last_kilobyte() {
    let mut s = fresh(false, true, 80, 24);
    // 2048 bytes emitted while nobody is attached, in two chunks.
    let chunk: Vec<u8> = (0..1024u32).map(|i| (i % 251) as u8).collect();
    assert!(s.on_pty_chunk(&chunk, false).is_none());
    let chunk2: Vec<u8> = (0..1024u32).map(|i| ((i + 7) % 251) as u8).collect();
    assert!(s.on_pty_chunk(&chunk2, false).is_none());
    let msgs = s.attach();
    assert_eq!(msgs.len(), 4);
    assert_eq!(msgs[3], ServerMsg::Write(chunk2));
}

#[test]
fn replay_shorter_than_cap() {
    let mut s = fresh(false, true, 80, 24);
    let chunk = b"welcome\r\n".to_vec();
    assert!(s.on_pty_chunk(&chunk, false).is_none());
    let msgs = s.attach();
    assert_eq!(msgs.len(), 4);
    assert_eq!(msgs[3], ServerMsg::Write(b"welcome\r\n".to_vec()));
}

#[test]
fn replay_cleared_after_attach() {
    let mut s = fresh(false, true, 80, 24);
    let chunk = b"before".to_vec();
    s.on_pty_chunk(&chunk, false);
    let first = s.attach();
    assert_eq!(first.len(), 4);
    // A second attach with no intervening zero-subscriber output: no replay.
    let second = s.attach();
    assert_eq!(second.len(), 3);
}

#[test]
fn chunks_with_subscribers_are_published_in_order() {
    let mut s = fresh(false, true, 80, 24);
    let c1 = b"one".to_vec();
    let c2 = b"two".to_vec();
    let f1 = s.on_pty_chunk(&c1, true);
    let f2 = s.on_pty_chunk(&c2, true);
    assert_eq!(f1, Some(Frame::Data(b"one".to_vec())));
    assert_eq!(f2, Some(Frame::Data(b"two".to_vec())));
    // Nothing was buffered: an attach now carries no replay.
    let msgs = s.attach();
    assert_eq!(msgs.len(), 3);
}

#[test]
fn readonly_drops_client_writes() {
    let mut s = fresh(true, true, 80, 24);
    assert!(s.is_readonly());
    assert!(s.is_headless());
    let a = s.client_frame(1000, &InFrame::Write(b"X".to_vec()));
    assert_eq!(a, Action::Ignore);
    // The session stays open: a later attach still works.
    let msgs = s.attach();
    assert_eq!(msgs[1], ServerMsg::ReadOnly(true));
}

#[test]
fn writable_session_forwards_client_writes() {
    let mut s = fresh(false, true, 80, 24);
    let a = s.client_frame(1000, &InFrame::Write(b"hello\n".to_vec()));
    assert_eq!(a, Action::WriteToPty(b"hello\n".to_vec()));
}

#[test]
fn non_headless_drops_client_resizes() {
    let mut s = fresh(false, false, 80, 24);
    let a = s.client_frame(1000, &InFrame::WinSize(100, 30));
    assert_eq!(a, Action::Ignore);
    assert_eq!(s.current_size(), (80, 24));
}

#[test]
fn invalid_sizes_never_reach_the_pty() {
    let mut s = fresh(false, true, 80, 24);
    for &(c, r) in &[(9u16, 5u16), (10, 4), (1001, 30), (100, 1001), (0, 24), (80, 0), (0, 0)] {
        let a = s.client_frame(1000, &InFrame::WinSize(c, r));
        assert_eq!(a, Action::Ignore, "size {}x{} must be rejected", c, r);
        assert_eq!(s.current_size(), (80, 24));
    }
    // The local path validates too.
    assert!(s.local_resize(9, 5).is_none());
    assert!(s.local_resize(0, 0).is_none());
    assert_eq!(s.current_size(), (80, 24));
}

#[test]
fn resize_burst_is_debounced_and_converges() {
    // Twelve requests inside 55 ms: at most two may apply, and the newest
    // value wins once the burst is over.
    let mut s = fresh(false, true, 80, 24);
    let mut applied: Vec<(u16, u16)> = Vec::new();
    for k in 0..12u16 {
        let now = 1000 + (k as u64) * 5;
        match s.client_frame(now, &InFrame::WinSize(100 + k, 30)) {
            Action::ApplyNow(c, r) => {
                let f = s.apply_resize(c, r);
                assert_eq!(f, Frame::WinSize(c, r));
                applied.push((c, r));
            }
            Action::Deferred => {}
            other => panic!("unexpected action {:?}", other),
        }
    }
    assert!(applied.len() >= 1 && applied.len() <= 2);
    // Ticks every 50 ms; within 150 ms of the burst end the pending value
    // must have been released.
    for t in [1060u64, 1110, 1160] {
        if let Some((c, r)) = s.resize_tick(t) {
            let f = s.apply_resize(c, r);
            assert_eq!(f, Frame::WinSize(c, r));
            applied.push((c, r));
        }
    }
    assert_eq!(*applied.last().unwrap(), (111, 30));
    assert_eq!(s.current_size(), (111, 30));
}

#[test]
fn resize_applies_immediately_after_quiet_interval() {
    let mut s = fresh(false, true, 80, 24);
    let a = s.client_frame(100, &InFrame::WinSize(120, 40));
    assert_eq!(a, Action::ApplyNow(120, 40));
    let b = s.client_frame(150, &InFrame::WinSize(121, 40));
    assert_eq!(b, Action::Deferred);
    // Too early: nothing released.
    assert_eq!(s.resize_tick(150), None);
    // After the interval the pending value comes out once.
    assert_eq!(s.resize_tick(200), Some((121, 40)));
    assert_eq!(s.resize_tick(250), None);
}

#[test]
fn same_size_twice_announces_twice() {
    let mut s = fresh(false, true, 80, 24);
    let f1 = s.apply_resize(100, 40);
    let f2 = s.apply_resize(100, 40);
    assert_eq!(f1, Frame::WinSize(100, 40));
    assert_eq!(f2, Frame::WinSize(100, 40));
    assert_eq!(s.current_size(), (100, 40));
}

#[test]
fn local_resize_applies_without_debounce() {
    let mut s = fresh(false, false, 80, 24);
    let f = s.local_resize(132, 43);
    assert_eq!(f, Some(Frame::WinSize(132, 43)));
    assert_eq!(s.current_size(), (132, 43));
    // Immediately again: the local path is never rate limited.
    let g = s.local_resize(133, 43);
    assert_eq!(g, Some(Frame::WinSize(133, 43)));
}

#[test]
fn unknown_frames_are_dropped() {
    let mut s = fresh(false, true, 80, 24);
    assert_eq!(s.client_frame(1000, &InFrame::Other), Action::Ignore);
}
