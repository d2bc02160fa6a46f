//! Complete frames: the envelope and the typed inner objects, parsed exactly,
//! and the round trip of a `Write` frame.

use vstd::prelude::*;
use crate::b64::{b64_decode_checked, b64_encode, lemma_b64_encode_injective};
use crate::codec::{
    bool_bytes, bool_vec, cols_key, cols_key_vec, data_key, data_key_vec, encode_obj1,
    envelope_bytes, headless_key, headless_key_vec, headless_inner_bytes, headless_type,
    jstr_ok, obj1_bytes, readonly_key, readonly_key_vec, readonly_inner_bytes, readonly_type,
    rows_key, rows_key_vec, size_key, size_key_vec, spec_encode_msg, type_key, type_key_vec,
    winsize_type, winsize_type_vec, write_inner_bytes, write_type, write_type_vec,
};
use crate::parse::{bytes_eq, lemma_obj2_at_unique, obj2_at, parse_obj2, Tok, TokModel};
use crate::session::{InFrame, MsgModel, ServerMsg};

verus! {

/// A wire frame's envelope: its type name and its base64 `Data` value, both
/// as raw bytes.
#[derive(Debug, Clone, PartialEq, Eq)]
pub struct TtyMessage {
    pub msg_type: Vec<u8>,
    pub data: Vec<u8>,
}

/// The inner object of a `Write` frame: the stated size and the base64 of the
/// payload. The size is carried but never checked against the payload.
#[derive(Debug, Clone, PartialEq, Eq)]
pub struct WriteMessage {
    pub size: usize,
    pub data: Vec<u8>,
}

/// The inner object of a `WinSize` frame.
#[derive(Debug, Clone, PartialEq, Eq)]
pub struct WinSizeMessage {
    pub cols: u16,
    pub rows: u16,
}

/// `s` is an envelope with type name `t` and `Data` value `d`.
pub open spec fn envelope_at(s: Seq<u8>, t: Seq<u8>, d: Seq<u8>) -> bool {
    &&& jstr_ok(t)
    &&& jstr_ok(d)
    &&& obj2_at(s, type_key(), data_key(), TokModel::S(t), TokModel::S(d))
}

/// `s` is a `Write` inner object with size `n` and base64 data `d`.
pub open spec fn write_inner_at(s: Seq<u8>, n: u64, d: Seq<u8>) -> bool {
    &&& jstr_ok(d)
    &&& obj2_at(s, size_key(), data_key(), TokModel::N(n), TokModel::S(d))
}

/// `s` is a `WinSize` inner object for the size (c, r).
pub open spec fn winsize_inner_at(s: Seq<u8>, c: u16, r: u16) -> bool {
    obj2_at(s, cols_key(), rows_key(), TokModel::N(c as u64), TokModel::N(r as u64))
}

/// The protocol's keys and type names are quote-free and pairwise usable.
pub proof fn lemma_protocol_names()
    ensures
        jstr_ok(type_key()),
        jstr_ok(data_key()),
        jstr_ok(size_key()),
        jstr_ok(cols_key()),
        jstr_ok(rows_key()),
        jstr_ok(readonly_key()),
        jstr_ok(headless_key()),
        jstr_ok(write_type()),
        jstr_ok(winsize_type()),
        type_key() != data_key(),
        size_key() != data_key(),
        cols_key() != rows_key(),
        write_type() != winsize_type(),
        write_type() != readonly_type(),
        write_type() != headless_type(),
        winsize_type() != readonly_type(),
        winsize_type() != headless_type(),
        readonly_type() != headless_type(),
{
    assert(type_key()[0] == 84 && data_key()[0] == 68);
    assert(size_key()[0] == 83);
    assert(cols_key()[0] == 67 && rows_key()[0] == 82);
    assert(write_type().len() == 5 && winsize_type().len() == 7);
    assert(readonly_type().len() == 8 && headless_type().len() == 8);
    assert(readonly_type()[0] == 82 && headless_type()[0] == 72);
}

/// An envelope determines its type name and `Data` value.
pub proof fn lemma_envelope_unique(s: Seq<u8>, t1: Seq<u8>, d1: Seq<u8>, t2: Seq<u8>, d2: Seq<u8>)
    requires
        envelope_at(s, t1, d1),
        envelope_at(s, t2, d2),
    ensures
        t1 == t2,
        d1 == d2,
{
    lemma_protocol_names();
    lemma_obj2_at_unique(
        s,
        type_key(),
        data_key(),
        TokModel::S(t1),
        TokModel::S(d1),
        TokModel::S(t2),
        TokModel::S(d2),
    );
}

/// Parse a frame envelope: exactly the objects with the keys `Type` and
/// `Data`, in either order, both values strings.
pub fn parse_envelope(s: &Vec<u8>) -> (r: Option<TtyMessage>)
    ensures
        r matches Some(m) ==> envelope_at(s@, m.msg_type@, m.data@),
        r is None ==> !(exists|t: Seq<u8>, d: Seq<u8>| envelope_at(s@, t, d)),
{
    let tk = type_key_vec();
    let dk = data_key_vec();
    proof {
        lemma_protocol_names();
    }
    match parse_obj2(s, &tk, &dk) {
        Some((Tok::S(t), Tok::S(d))) => Some(TtyMessage { msg_type: t, data: d }),
        Some(other) => {
            proof {
                if exists|t: Seq<u8>, d: Seq<u8>| envelope_at(s@, t, d) {
                    let (t, d): (Seq<u8>, Seq<u8>) =
                        choose|t: Seq<u8>, d: Seq<u8>| envelope_at(s@, t, d);
                    lemma_obj2_at_unique(
                        s@,
                        type_key(),
                        data_key(),
                        other.0@,
                        other.1@,
                        TokModel::S(t),
                        TokModel::S(d),
                    );
                    assert(false);
                }
            }
            None
        },
        None => None,
    }
}

/// Parse a `Write` inner object: exactly the objects with keys `Size` (a
/// number that fits the platform's pointer width) and `Data` (a string).
pub fn parse_write_inner(s: &Vec<u8>) -> (r: Option<WriteMessage>)
    ensures
        r matches Some(m) ==> write_inner_at(s@, m.size as u64, m.data@),
        r is None ==> forall|n: u64, d: Seq<u8>| write_inner_at(s@, n, d) ==> n > usize::MAX as u64,
{
    let sk = size_key_vec();
    let dk = data_key_vec();
    proof {
        lemma_protocol_names();
    }
    match parse_obj2(s, &sk, &dk) {
        Some((Tok::N(n), Tok::S(d))) => {
            if n <= usize::MAX as u64 {
                Some(WriteMessage { size: n as usize, data: d })
            } else {
                proof {
                    assert forall|n2: u64, d2: Seq<u8>| write_inner_at(s@, n2, d2)
                        implies n2 > usize::MAX as u64 by {
                        lemma_obj2_at_unique(
                            s@,
                            size_key(),
                            data_key(),
                            TokModel::N(n),
                            TokModel::S(d@),
                            TokModel::N(n2),
                            TokModel::S(d2),
                        );
                    }
                }
                None
            }
        },
        Some(other) => {
            proof {
                assert forall|n2: u64, d2: Seq<u8>| write_inner_at(s@, n2, d2)
                    implies n2 > usize::MAX as u64 by {
                    lemma_obj2_at_unique(
                        s@,
                        size_key(),
                        data_key(),
                        other.0@,
                        other.1@,
                        TokModel::N(n2),
                        TokModel::S(d2),
                    );
                }
            }
            None
        },
        None => None,
    }
}

/// Parse a `WinSize` inner object: exactly the objects with keys `Cols` and
/// `Rows`, both 16-bit numbers.
pub fn parse_winsize_inner(s: &Vec<u8>) -> (r: Option<WinSizeMessage>)
    ensures
        r matches Some(m) ==> winsize_inner_at(s@, m.cols, m.rows),
        r is None ==> !(exists|c: u16, rr: u16| winsize_inner_at(s@, c, rr)),
{
    let ck = cols_key_vec();
    let rk = rows_key_vec();
    proof {
        lemma_protocol_names();
    }
    match parse_obj2(s, &ck, &rk) {
        Some((Tok::N(c), Tok::N(r))) => {
            if c <= u16::MAX as u64 && r <= u16::MAX as u64 {
                Some(WinSizeMessage { cols: c as u16, rows: r as u16 })
            } else {
                proof {
                    if exists|c2: u16, r2: u16| winsize_inner_at(s@, c2, r2) {
                        let (c2, r2): (u16, u16) =
                            choose|c2: u16, r2: u16| winsize_inner_at(s@, c2, r2);
                        lemma_obj2_at_unique(
                            s@,
                            cols_key(),
                            rows_key(),
                            TokModel::N(c),
                            TokModel::N(r),
                            TokModel::N(c2 as u64),
                            TokModel::N(r2 as u64),
                        );
                        assert(false);
                    }
                }
                None
            }
        },
        Some(other) => {
            proof {
                if exists|c2: u16, r2: u16| winsize_inner_at(s@, c2, r2) {
                    let (c2, r2): (u16, u16) =
                        choose|c2: u16, r2: u16| winsize_inner_at(s@, c2, r2);
                    lemma_obj2_at_unique(
                        s@,
                        cols_key(),
                        rows_key(),
                        other.0@,
                        other.1@,
                        TokModel::N(c2 as u64),
                        TokModel::N(r2 as u64),
                    );
                    assert(false);
                }
            }
            None
        },
        None => None,
    }
}

/// Parse a one-field boolean object `{"k":b}` by comparison with its only two
/// possible encodings.
fn parse_obj1_bool(s: &Vec<u8>, k: &Vec<u8>) -> (r: Option<bool>)
    ensures
        r matches Some(b) ==> s@ == obj1_bytes(k@, bool_bytes(b)),
        r is None ==> forall|b: bool| s@ != obj1_bytes(k@, bool_bytes(b)),
{
    let tv = bool_vec(true);
    let enc_true = encode_obj1(k, &tv);
    if bytes_eq(s, &enc_true) {
        return Some(true);
    }
    let fv = bool_vec(false);
    let enc_false = encode_obj1(k, &fv);
    if bytes_eq(s, &enc_false) {
        return Some(false);
    }
    None
}

/// A complete client `Write` frame carrying the payload `x`.
pub open spec fn client_write_at(s: Seq<u8>, x: Seq<u8>) -> bool {
    exists|n: u64, inner: Seq<u8>|
        #![auto]
        n <= usize::MAX as u64 && envelope_at(s, write_type(), b64_encode(inner))
            && write_inner_at(inner, n, b64_encode(x))
}

/// A complete `WinSize` frame for the size (c, r).
pub open spec fn client_winsize_at(s: Seq<u8>, c: u16, r: u16) -> bool {
    exists|inner: Seq<u8>|
        #![auto]
        envelope_at(s, winsize_type(), b64_encode(inner)) && winsize_inner_at(inner, c, r)
}

/// A well-formed envelope of a type the session does not act on.
pub open spec fn client_other_at(s: Seq<u8>) -> bool {
    exists|t: Seq<u8>, d: Seq<u8>|
        #![auto]
        envelope_at(s, t, d) && t != write_type() && t != winsize_type()
}

/// A complete `ReadOnly` frame.
pub open spec fn server_readonly_at(s: Seq<u8>, b: bool) -> bool {
    envelope_at(s, readonly_type(), b64_encode(readonly_inner_bytes(b)))
}

/// A complete `Headless` frame.
pub open spec fn server_headless_at(s: Seq<u8>, b: bool) -> bool {
    envelope_at(s, headless_type(), b64_encode(headless_inner_bytes(b)))
}

/// Parse one frame received from a client, as the session dispatches it:
/// a well-formed `Write` frame yields the decoded payload, a well-formed
/// `WinSize` frame the requested size, an envelope of any other type is
/// reported for dropping, and anything else is rejected.
pub fn parse_client_frame(s: &Vec<u8>) -> (r: Option<InFrame>)
    ensures
        r matches Some(f) ==> {
            &&& (f@ matches crate::session::InFrameModel::Write(x) ==> client_write_at(s@, x))
            &&& (f@ matches crate::session::InFrameModel::WinSize(c, rr) ==> client_winsize_at(s@, c, rr))
            &&& (f@ is Other ==> client_other_at(s@))
        },
        r is None ==> {
            &&& !(exists|x: Seq<u8>| client_write_at(s@, x))
            &&& !(exists|c: u16, rr: u16| client_winsize_at(s@, c, rr))
            &&& !client_other_at(s@)
        },
{
    proof {
        lemma_protocol_names();
    }
    let env = match parse_envelope(s) {
        Some(m) => m,
        None => {
            return None;
        },
    };
    let wt = write_type_vec();
    let wst = winsize_type_vec();
    if bytes_eq(&env.msg_type, &wt) {
        match b64_decode_checked(&env.data) {
            Some(inner) => {
                match parse_write_inner(&inner) {
                    Some(wm) => {
                        match b64_decode_checked(&wm.data) {
                            Some(payload) => {
                                proof {
                                    let n: u64 = wm.size as u64;
                                    assert(envelope_at(s@, write_type(), b64_encode(inner@)));
                                    assert(write_inner_at(inner@, n, b64_encode(payload@)));
                                }
                                Some(InFrame::Write(payload))
                            },
                            None => {
                                proof {
                                    lemma_no_other_shapes_for_write(s@, env.msg_type@, env.data@);
                                    if exists|x: Seq<u8>| client_write_at(s@, x) {
                                        let x = choose|x: Seq<u8>| client_write_at(s@, x);
                                        let (n2, inner2): (u64, Seq<u8>) = choose|n2: u64, inner2: Seq<u8>|
                                            #![auto]
                                            n2 <= usize::MAX as u64
                                                && envelope_at(s@, write_type(), b64_encode(inner2))
                                                && write_inner_at(inner2, n2, b64_encode(x));
                                        lemma_envelope_unique(s@, env.msg_type@, env.data@, write_type(), b64_encode(inner2));
                                        lemma_b64_encode_injective(inner2, inner@);
                                        lemma_obj2_at_unique(
                                            inner@,
                                            size_key(),
                                            data_key(),
                                            TokModel::N(wm.size as u64),
                                            TokModel::S(wm.data@),
                                            TokModel::N(n2),
                                            TokModel::S(b64_encode(x)),
                                        );
                                        assert(false);
                                    }
                                }
                                None
                            },
                        }
                    },
                    None => {
                        proof {
                            lemma_no_other_shapes_for_write(s@, env.msg_type@, env.data@);
                            if exists|x: Seq<u8>| client_write_at(s@, x) {
                                let x = choose|x: Seq<u8>| client_write_at(s@, x);
                                let (n2, inner2): (u64, Seq<u8>) = choose|n2: u64, inner2: Seq<u8>|
                                    #![auto]
                                    n2 <= usize::MAX as u64
                                        && envelope_at(s@, write_type(), b64_encode(inner2))
                                        && write_inner_at(inner2, n2, b64_encode(x));
                                lemma_envelope_unique(s@, env.msg_type@, env.data@, write_type(), b64_encode(inner2));
                                lemma_b64_encode_injective(inner2, inner@);
                                assert(false);
                            }
                        }
                        None
                    },
                }
            },
            None => {
                proof {
                    lemma_no_other_shapes_for_write(s@, env.msg_type@, env.data@);
                    if exists|x: Seq<u8>| client_write_at(s@, x) {
                        let x = choose|x: Seq<u8>| client_write_at(s@, x);
                        let (n2, inner2): (u64, Seq<u8>) = choose|n2: u64, inner2: Seq<u8>|
                            #![auto]
                            n2 <= usize::MAX as u64
                                && envelope_at(s@, write_type(), b64_encode(inner2))
                                && write_inner_at(inner2, n2, b64_encode(x));
                        lemma_envelope_unique(s@, env.msg_type@, env.data@, write_type(), b64_encode(inner2));
                        assert(false);
                    }
                }
                None
            },
        }
    } else if bytes_eq(&env.msg_type, &wst) {
        match b64_decode_checked(&env.data) {
            Some(inner) => {
                match parse_winsize_inner(&inner) {
                    Some(wsm) => Some(InFrame::WinSize(wsm.cols, wsm.rows)),
                    None => {
                        proof {
                            lemma_no_other_shapes_for_winsize(s@, env.msg_type@, env.data@);
                            if exists|c: u16, rr: u16| client_winsize_at(s@, c, rr) {
                                let (c, rr): (u16, u16) =
                                    choose|c: u16, rr: u16| client_winsize_at(s@, c, rr);
                                let inner2 = choose|inner2: Seq<u8>|
                                    #![auto]
                                    envelope_at(s@, winsize_type(), b64_encode(inner2))
                                        && winsize_inner_at(inner2, c, rr);
                                lemma_envelope_unique(s@, env.msg_type@, env.data@, winsize_type(), b64_encode(inner2));
                                lemma_b64_encode_injective(inner2, inner@);
                                assert(false);
                            }
                        }
                        None
                    },
                }
            },
            None => {
                proof {
                    lemma_no_other_shapes_for_winsize(s@, env.msg_type@, env.data@);
                    if exists|c: u16, rr: u16| client_winsize_at(s@, c, rr) {
                        let (c, rr): (u16, u16) =
                            choose|c: u16, rr: u16| client_winsize_at(s@, c, rr);
                        let inner2 = choose|inner2: Seq<u8>|
                            #![auto]
                            envelope_at(s@, winsize_type(), b64_encode(inner2))
                                && winsize_inner_at(inner2, c, rr);
                        lemma_envelope_unique(s@, env.msg_type@, env.data@, winsize_type(), b64_encode(inner2));
                        assert(false);
                    }
                }
                None
            },
        }
    } else {
        Some(InFrame::Other)
    }
}

/// When the envelope's type is `Write`, the frame is neither a `WinSize`
/// frame nor of an unknown type.
proof fn lemma_no_other_shapes_for_write(s: Seq<u8>, t: Seq<u8>, d: Seq<u8>)
    requires
        envelope_at(s, t, d),
        t == write_type(),
    ensures
        !(exists|c: u16, rr: u16| client_winsize_at(s, c, rr)),
        !client_other_at(s),
{
    lemma_protocol_names();
    if exists|c: u16, rr: u16| client_winsize_at(s, c, rr) {
        let (c, rr): (u16, u16) = choose|c: u16, rr: u16| client_winsize_at(s, c, rr);
        let inner = choose|inner: Seq<u8>|
            #![auto]
            envelope_at(s, winsize_type(), b64_encode(inner)) && winsize_inner_at(inner, c, rr);
        lemma_envelope_unique(s, t, d, winsize_type(), b64_encode(inner));
        assert(false);
    }
    if client_other_at(s) {
        let (t2, d2): (Seq<u8>, Seq<u8>) = choose|t2: Seq<u8>, d2: Seq<u8>|
            #![auto]
            envelope_at(s, t2, d2) && t2 != write_type() && t2 != winsize_type();
        lemma_envelope_unique(s, t, d, t2, d2);
        assert(false);
    }
}

/// When the envelope's type is `WinSize`, the frame is neither a `Write`
/// frame nor of an unknown type.
proof fn lemma_no_other_shapes_for_winsize(s: Seq<u8>, t: Seq<u8>, d: Seq<u8>)
    requires
        envelope_at(s, t, d),
        t == winsize_type(),
    ensures
        !(exists|x: Seq<u8>| client_write_at(s, x)),
        !client_other_at(s),
{
    lemma_protocol_names();
    if exists|x: Seq<u8>| client_write_at(s, x) {
        let x = choose|x: Seq<u8>| client_write_at(s, x);
        let (n2, inner2): (u64, Seq<u8>) = choose|n2: u64, inner2: Seq<u8>|
            #![auto]
            n2 <= usize::MAX as u64 && envelope_at(s, write_type(), b64_encode(inner2))
                && write_inner_at(inner2, n2, b64_encode(x));
        lemma_envelope_unique(s, t, d, write_type(), b64_encode(inner2));
        assert(false);
    }
    if client_other_at(s) {
        let (t2, d2): (Seq<u8>, Seq<u8>) = choose|t2: Seq<u8>, d2: Seq<u8>|
            #![auto]
            envelope_at(s, t2, d2) && t2 != write_type() && t2 != winsize_type();
        lemma_envelope_unique(s, t, d, t2, d2);
        assert(false);
    }
}

/// Parse one frame received from the server, as the attach client handles
/// it: `Write`, `WinSize`, `ReadOnly` and `Headless` frames yield their
/// payloads; anything else is rejected (and dropped by the caller).
pub fn parse_server_msg(s: &Vec<u8>) -> (r: Option<ServerMsg>)
    ensures
        r matches Some(m) ==> {
            &&& (m@ matches MsgModel::Write(x) ==> client_write_at(s@, x))
            &&& (m@ matches MsgModel::WinSize(c, rr) ==> client_winsize_at(s@, c, rr))
            &&& (m@ matches MsgModel::ReadOnly(b) ==> server_readonly_at(s@, b))
            &&& (m@ matches MsgModel::Headless(b) ==> server_headless_at(s@, b))
        },
        r is None ==> {
            &&& !(exists|x: Seq<u8>| client_write_at(s@, x))
            &&& !(exists|c: u16, rr: u16| client_winsize_at(s@, c, rr))
            &&& !(exists|b: bool| server_readonly_at(s@, b))
            &&& !(exists|b: bool| server_headless_at(s@, b))
        },
{
    proof {
        lemma_protocol_names();
    }
    let env = match parse_envelope(s) {
        Some(m) => m,
        None => {
            proof {
                lemma_no_envelope_no_shapes(s@);
            }
            return None;
        },
    };
    let wt = write_type_vec();
    let wst = winsize_type_vec();
    let rot = readonly_key_vec();
    let hlt = headless_key_vec();
    if bytes_eq(&env.msg_type, &wt) || bytes_eq(&env.msg_type, &wst) {
        match parse_client_frame(s) {
            Some(InFrame::Write(x)) => Some(ServerMsg::Write(x)),
            Some(InFrame::WinSize(c, r)) => Some(ServerMsg::WinSize(c, r)),
            Some(InFrame::Other) => {
                proof {
                    let (t2, d2): (Seq<u8>, Seq<u8>) = choose|t2: Seq<u8>, d2: Seq<u8>|
                        #![auto]
                        envelope_at(s@, t2, d2) && t2 != write_type() && t2 != winsize_type();
                    lemma_envelope_unique(s@, env.msg_type@, env.data@, t2, d2);
                    assert(false);
                }
                None
            },
            None => {
                proof {
                    lemma_shapes_need_their_type(s@, env.msg_type@, env.data@);
                }
                None
            },
        }
    } else if bytes_eq(&env.msg_type, &rot) {
        proof {
            lemma_shapes_need_their_type(s@, env.msg_type@, env.data@);
        }
        match b64_decode_checked(&env.data) {
            Some(inner) => {
                let rk = readonly_key_vec();
                match parse_obj1_bool(&inner, &rk) {
                    Some(b) => Some(ServerMsg::ReadOnly(b)),
                    None => {
                        proof {
                            if exists|b: bool| server_readonly_at(s@, b) {
                                let b = choose|b: bool| server_readonly_at(s@, b);
                                lemma_envelope_unique(s@, env.msg_type@, env.data@,
                                    readonly_type(), b64_encode(readonly_inner_bytes(b)));
                                lemma_b64_encode_injective(readonly_inner_bytes(b), inner@);
                                assert(false);
                            }
                        }
                        None
                    },
                }
            },
            None => {
                proof {
                    if exists|b: bool| server_readonly_at(s@, b) {
                        let b = choose|b: bool| server_readonly_at(s@, b);
                        lemma_envelope_unique(s@, env.msg_type@, env.data@,
                            readonly_type(), b64_encode(readonly_inner_bytes(b)));
                        assert(false);
                    }
                }
                None
            },
        }
    } else if bytes_eq(&env.msg_type, &hlt) {
        proof {
            lemma_shapes_need_their_type(s@, env.msg_type@, env.data@);
        }
        match b64_decode_checked(&env.data) {
            Some(inner) => {
                let hk = headless_key_vec();
                match parse_obj1_bool(&inner, &hk) {
                    Some(b) => Some(ServerMsg::Headless(b)),
                    None => {
                        proof {
                            if exists|b: bool| server_headless_at(s@, b) {
                                let b = choose|b: bool| server_headless_at(s@, b);
                                lemma_envelope_unique(s@, env.msg_type@, env.data@,
                                    headless_type(), b64_encode(headless_inner_bytes(b)));
                                lemma_b64_encode_injective(headless_inner_bytes(b), inner@);
                                assert(false);
                            }
                        }
                        None
                    },
                }
            },
            None => {
                proof {
                    if exists|b: bool| server_headless_at(s@, b) {
                        let b = choose|b: bool| server_headless_at(s@, b);
                        lemma_envelope_unique(s@, env.msg_type@, env.data@,
                            headless_type(), b64_encode(headless_inner_bytes(b)));
                        assert(false);
                    }
                }
                None
            },
        }
    } else {
        proof {
            lemma_shapes_need_their_type(s@, env.msg_type@, env.data@);
        }
        None
    }
}

/// An envelope whose type name is not the one a shape demands rules that
/// shape out entirely.
proof fn lemma_shapes_need_their_type(s: Seq<u8>, t: Seq<u8>, d: Seq<u8>)
    requires
        envelope_at(s, t, d),
    ensures
        t != write_type() ==> !(exists|x: Seq<u8>| client_write_at(s, x)),
        t != winsize_type() ==> !(exists|c: u16, rr: u16| client_winsize_at(s, c, rr)),
        t != readonly_type() ==> !(exists|b: bool| server_readonly_at(s, b)),
        t != headless_type() ==> !(exists|b: bool| server_headless_at(s, b)),
{
    if t != write_type() && (exists|x: Seq<u8>| client_write_at(s, x)) {
        let x = choose|x: Seq<u8>| client_write_at(s, x);
        let (n2, inner2): (u64, Seq<u8>) = choose|n2: u64, inner2: Seq<u8>|
            #![auto]
            n2 <= usize::MAX as u64 && envelope_at(s, write_type(), b64_encode(inner2))
                && write_inner_at(inner2, n2, b64_encode(x));
        lemma_envelope_unique(s, t, d, write_type(), b64_encode(inner2));
        assert(false);
    }
    if t != winsize_type() && (exists|c: u16, rr: u16| client_winsize_at(s, c, rr)) {
        let (c, rr): (u16, u16) = choose|c: u16, rr: u16| client_winsize_at(s, c, rr);
        let inner2 = choose|inner2: Seq<u8>|
            #![auto]
            envelope_at(s, winsize_type(), b64_encode(inner2)) && winsize_inner_at(inner2, c, rr);
        lemma_envelope_unique(s, t, d, winsize_type(), b64_encode(inner2));
        assert(false);
    }
    if t != readonly_type() && (exists|b: bool| server_readonly_at(s, b)) {
        let b = choose|b: bool| server_readonly_at(s, b);
        lemma_envelope_unique(s, t, d, readonly_type(), b64_encode(readonly_inner_bytes(b)));
        assert(false);
    }
    if t != headless_type() && (exists|b: bool| server_headless_at(s, b)) {
        let b = choose|b: bool| server_headless_at(s, b);
        lemma_envelope_unique(s, t, d, headless_type(), b64_encode(headless_inner_bytes(b)));
        assert(false);
    }
}

/// Where no envelope stands at all, no frame shape does either.
proof fn lemma_no_envelope_no_shapes(s: Seq<u8>)
    requires
        !(exists|t: Seq<u8>, d: Seq<u8>| envelope_at(s, t, d)),
    ensures
        !(exists|x: Seq<u8>| client_write_at(s, x)),
        !(exists|c: u16, rr: u16| client_winsize_at(s, c, rr)),
        !(exists|b: bool| server_readonly_at(s, b)),
        !(exists|b: bool| server_headless_at(s, b)),
{
    if exists|x: Seq<u8>| client_write_at(s, x) {
        let x = choose|x: Seq<u8>| client_write_at(s, x);
        let (n2, inner2): (u64, Seq<u8>) = choose|n2: u64, inner2: Seq<u8>|
            #![auto]
            n2 <= usize::MAX as u64 && envelope_at(s, write_type(), b64_encode(inner2))
                && write_inner_at(inner2, n2, b64_encode(x));
        assert(false);
    }
    if exists|c: u16, rr: u16| client_winsize_at(s, c, rr) {
        let (c, rr): (u16, u16) = choose|c: u16, rr: u16| client_winsize_at(s, c, rr);
        let inner2 = choose|inner2: Seq<u8>|
            #![auto]
            envelope_at(s, winsize_type(), b64_encode(inner2)) && winsize_inner_at(inner2, c, rr);
        assert(false);
    }
    if exists|b: bool| server_readonly_at(s, b) {
        let b = choose|b: bool| server_readonly_at(s, b);
        assert(false);
    }
    if exists|b: bool| server_headless_at(s, b) {
        let b = choose|b: bool| server_headless_at(s, b);
        assert(false);
    }
}

/// Base64 output never needs escaping inside a JSON string.
pub proof fn lemma_b64_jstr_ok(s: Seq<u8>)
    ensures
        jstr_ok(b64_encode(s)),
{
    crate::b64::lemma_b64_chars(s);
}

/// Round trip of the `Write` frame: encoding a payload and parsing the frame
/// back yields exactly that payload — the frame determines it.
pub proof fn lemma_write_frame_round_trip(x: Seq<u8>)
    requires
        x.len() <= 4096,
    ensures
        client_write_at(spec_encode_msg(MsgModel::Write(x)), x),
        forall|y: Seq<u8>| client_write_at(spec_encode_msg(MsgModel::Write(x)), y) ==> y == x,
{
    lemma_protocol_names();
    let inner0 = write_inner_bytes(x.len(), b64_encode(x));
    let s = envelope_bytes(write_type(), b64_encode(inner0));
    assert(spec_encode_msg(MsgModel::Write(x)) == s);
    lemma_b64_jstr_ok(inner0);
    lemma_b64_jstr_ok(x);
    let n0: u64 = x.len() as u64;
    assert(envelope_at(s, write_type(), b64_encode(inner0)));
    assert(write_inner_at(inner0, n0, b64_encode(x))) by {
        assert(n0 as nat == x.len());
    }
    assert(client_write_at(s, x));
    assert forall|y: Seq<u8>| client_write_at(s, y) implies y == x by {
        let (n2, inner2): (u64, Seq<u8>) = choose|n2: u64, inner2: Seq<u8>|
            #![auto]
            n2 <= usize::MAX as u64 && envelope_at(s, write_type(), b64_encode(inner2))
                && write_inner_at(inner2, n2, b64_encode(y));
        lemma_envelope_unique(s, write_type(), b64_encode(inner0), write_type(), b64_encode(inner2));
        lemma_b64_encode_injective(inner2, inner0);
        lemma_obj2_at_unique(
            inner0,
            size_key(),
            data_key(),
            TokModel::N(n0),
            TokModel::S(b64_encode(x)),
            TokModel::N(n2),
            TokModel::S(b64_encode(y)),
        );
        lemma_b64_encode_injective(y, x);
    }
}

} // verus!
