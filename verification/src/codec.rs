//! The wire protocol: text frames of the form
//! `{"Type":<string>,"Data":<base64 of an inner JSON object>}`, with inner
//! objects `{"Size":<int>,"Data":<base64>}` (Write),
//! `{"Cols":<int>,"Rows":<int>}` (WinSize), `{"ReadOnly":<bool>}` and
//! `{"Headless":<bool>}`.
//!
//! The grammar is fixed here by spec functions over byte sequences; the
//! encoders produce exactly those sequences and the parsers accept exactly
//! them, with either order of the two keys, and nothing else. String values
//! carry no escapes: every value of this protocol is base64 or a keyword, and
//! a frame whose values needed escaping could not decode anyway.

use vstd::prelude::*;
use crate::b64::{b64_encode, b64_encode_bytes};
use crate::session::{MsgModel, ServerMsg};

verus! {

/// ASCII codes used by the grammar.
pub const QUOTE: u8 = 34;
pub const BACKSLASH: u8 = 92;
pub const LBRACE: u8 = 123;
pub const RBRACE: u8 = 125;
pub const COLON: u8 = 58;
pub const COMMA: u8 = 44;

/// A string value may appear unescaped between quotes: it holds neither a
/// quote nor a backslash.
pub open spec fn jstr_ok(s: Seq<u8>) -> bool {
    forall|i: int| 0 <= i < s.len() ==> s[i] != QUOTE && s[i] != BACKSLASH
}

/// `"s"`.
pub open spec fn quoted(s: Seq<u8>) -> Seq<u8> {
    seq![QUOTE] + s + seq![QUOTE]
}

/// The canonical decimal numeral of `n`, as ASCII digits without leading
/// zeros.
pub open spec fn dec_rep(n: nat) -> Seq<u8>
    decreases n,
{
    if n < 10 {
        seq![(48 + n) as u8]
    } else {
        dec_rep(n / 10).push((48 + n % 10) as u8)
    }
}

/// `true` or `false`.
pub open spec fn bool_bytes(b: bool) -> Seq<u8> {
    if b {
        seq![116u8, 114u8, 117u8, 101u8]
    } else {
        seq![102u8, 97u8, 108u8, 115u8, 101u8]
    }
}

/// An object of two fields with the given keys and value tokens (a value
/// token is a quoted string or a numeral, quotes included):
/// `{"ka":va,"kb":vb}`.
pub open spec fn obj2_bytes(ka: Seq<u8>, va: Seq<u8>, kb: Seq<u8>, vb: Seq<u8>) -> Seq<u8> {
    seq![LBRACE, QUOTE] + ka + seq![QUOTE, COLON] + va + seq![COMMA, QUOTE] + kb + seq![QUOTE, COLON] + vb + seq![RBRACE]
}

/// An object of one field: `{"k":v}`.
pub open spec fn obj1_bytes(k: Seq<u8>, v: Seq<u8>) -> Seq<u8> {
    seq![LBRACE, QUOTE] + k + seq![QUOTE, COLON] + v + seq![RBRACE]
}

/// The field keys of the protocol.
pub open spec fn type_key() -> Seq<u8> {
    seq![84u8, 121u8, 112u8, 101u8]  // Type
}

pub open spec fn data_key() -> Seq<u8> {
    seq![68u8, 97u8, 116u8, 97u8]  // Data
}

pub open spec fn size_key() -> Seq<u8> {
    seq![83u8, 105u8, 122u8, 101u8]  // Size
}

pub open spec fn cols_key() -> Seq<u8> {
    seq![67u8, 111u8, 108u8, 115u8]  // Cols
}

pub open spec fn rows_key() -> Seq<u8> {
    seq![82u8, 111u8, 119u8, 115u8]  // Rows
}

pub open spec fn readonly_key() -> Seq<u8> {
    seq![82u8, 101u8, 97u8, 100u8, 79u8, 110u8, 108u8, 121u8]  // ReadOnly
}

pub open spec fn headless_key() -> Seq<u8> {
    seq![72u8, 101u8, 97u8, 100u8, 108u8, 101u8, 115u8, 115u8]  // Headless
}

/// The frame type names.
pub open spec fn write_type() -> Seq<u8> {
    seq![87u8, 114u8, 105u8, 116u8, 101u8]  // Write
}

pub open spec fn winsize_type() -> Seq<u8> {
    seq![87u8, 105u8, 110u8, 83u8, 105u8, 122u8, 101u8]  // WinSize
}

pub open spec fn readonly_type() -> Seq<u8> {
    readonly_key()
}

pub open spec fn headless_type() -> Seq<u8> {
    headless_key()
}

/// The envelope in canonical key order: `{"Type":"t","Data":"d"}`.
pub open spec fn envelope_bytes(t: Seq<u8>, d: Seq<u8>) -> Seq<u8> {
    obj2_bytes(type_key(), quoted(t), data_key(), quoted(d))
}

/// The inner object of a `Write` frame: `{"Size":n,"Data":"d"}`, where `d` is
/// the base64 of the payload. The protocol carries `Size` but never checks it
/// against the payload length.
pub open spec fn write_inner_bytes(n: nat, d: Seq<u8>) -> Seq<u8> {
    obj2_bytes(size_key(), dec_rep(n), data_key(), quoted(d))
}

/// The inner object of a `WinSize` frame: `{"Cols":c,"Rows":r}`.
pub open spec fn winsize_inner_bytes(c: u16, r: u16) -> Seq<u8> {
    obj2_bytes(cols_key(), dec_rep(c as nat), rows_key(), dec_rep(r as nat))
}

/// The inner object of a `ReadOnly` frame: `{"ReadOnly":b}`.
pub open spec fn readonly_inner_bytes(b: bool) -> Seq<u8> {
    obj1_bytes(readonly_key(), bool_bytes(b))
}

/// The inner object of a `Headless` frame: `{"Headless":b}`.
pub open spec fn headless_inner_bytes(b: bool) -> Seq<u8> {
    obj1_bytes(headless_key(), bool_bytes(b))
}

/// The complete wire bytes of one server-to-client message.
pub open spec fn spec_encode_msg(m: MsgModel) -> Seq<u8> {
    match m {
        MsgModel::WinSize(c, r) => envelope_bytes(winsize_type(), b64_encode(winsize_inner_bytes(c, r))),
        MsgModel::ReadOnly(b) => envelope_bytes(readonly_type(), b64_encode(readonly_inner_bytes(b))),
        MsgModel::Headless(b) => envelope_bytes(headless_type(), b64_encode(headless_inner_bytes(b))),
        MsgModel::Write(d) => envelope_bytes(write_type(), b64_encode(write_inner_bytes(d.len(), b64_encode(d)))),
    }
}

/// Append every byte of `s` to `v`.
fn push_all(v: &mut Vec<u8>, s: &Vec<u8>)
    ensures
        final(v)@ == old(v)@ + s@,
{
    let n = s.len();
    let mut i: usize = 0;
    while i < n
        invariant
            i <= n,
            n == s@.len(),
            v@ == old(v)@ + s@.subrange(0, i as int),
        decreases n - i,
    {
        v.push(s[i]);
        i += 1;
        assert(v@ =~= old(v)@ + s@.subrange(0, i as int));
    }
    assert(v@ =~= old(v)@ + s@);
}

/// The canonical decimal numeral of `n`.
pub fn u64_to_dec(n: u64) -> (r: Vec<u8>)
    ensures
        r@ == dec_rep(n as nat),
    decreases n,
{
    if n < 10 {
        let mut v: Vec<u8> = Vec::new();
        v.push(48 + n as u8);
        proof {
            assert(v@ =~= dec_rep(n as nat));
        }
        v
    } else {
        let mut v = u64_to_dec(n / 10);
        v.push(48 + (n % 10) as u8);
        proof {
            assert(v@ =~= dec_rep(n as nat));
        }
        v
    }
}

/// `{"ka":va,"kb":vb}` with the keys pushed by the caller as raw bytes and
/// each value token already complete (quotes included for strings).
pub(crate) fn encode_obj2(ka: &Vec<u8>, va: &Vec<u8>, kb: &Vec<u8>, vb: &Vec<u8>) -> (r: Vec<u8>)
    ensures
        r@ == obj2_bytes(ka@, va@, kb@, vb@),
{
    let mut v: Vec<u8> = Vec::new();
    v.push(LBRACE);
    v.push(QUOTE);
    push_all(&mut v, ka);
    v.push(QUOTE);
    v.push(COLON);
    push_all(&mut v, va);
    v.push(COMMA);
    v.push(QUOTE);
    push_all(&mut v, kb);
    v.push(QUOTE);
    v.push(COLON);
    push_all(&mut v, vb);
    v.push(RBRACE);
    proof {
        assert(v@ =~= obj2_bytes(ka@, va@, kb@, vb@));
    }
    v
}

/// `{"k":v}`.
pub(crate) fn encode_obj1(k: &Vec<u8>, v: &Vec<u8>) -> (r: Vec<u8>)
    ensures
        r@ == obj1_bytes(k@, v@),
{
    let mut out: Vec<u8> = Vec::new();
    out.push(LBRACE);
    out.push(QUOTE);
    push_all(&mut out, k);
    out.push(QUOTE);
    out.push(COLON);
    push_all(&mut out, v);
    out.push(RBRACE);
    proof {
        assert(out@ =~= obj1_bytes(k@, v@));
    }
    out
}

/// `"s"` as a value token.
pub(crate) fn quote_token(s: &Vec<u8>) -> (r: Vec<u8>)
    ensures
        r@ == quoted(s@),
{
    let mut v: Vec<u8> = Vec::new();
    v.push(QUOTE);
    push_all(&mut v, s);
    v.push(QUOTE);
    proof {
        assert(v@ =~= quoted(s@));
    }
    v
}

/// The key `Type` as bytes.
pub(crate) fn type_key_vec() -> (r: Vec<u8>)
    ensures
        r@ == type_key(),
{
    let mut v: Vec<u8> = Vec::new();
    v.push(84);
    v.push(121);
    v.push(112);
    v.push(101);
    proof {
        assert(v@ =~= type_key());
    }
    v
}

/// The key `Data` as bytes.
pub(crate) fn data_key_vec() -> (r: Vec<u8>)
    ensures
        r@ == data_key(),
{
    let mut v: Vec<u8> = Vec::new();
    v.push(68);
    v.push(97);
    v.push(116);
    v.push(97);
    proof {
        assert(v@ =~= data_key());
    }
    v
}

/// The key `Size` as bytes.
pub(crate) fn size_key_vec() -> (r: Vec<u8>)
    ensures
        r@ == size_key(),
{
    let mut v: Vec<u8> = Vec::new();
    v.push(83);
    v.push(105);
    v.push(122);
    v.push(101);
    proof {
        assert(v@ =~= size_key());
    }
    v
}

/// The key `Cols` as bytes.
pub(crate) fn cols_key_vec() -> (r: Vec<u8>)
    ensures
        r@ == cols_key(),
{
    let mut v: Vec<u8> = Vec::new();
    v.push(67);
    v.push(111);
    v.push(108);
    v.push(115);
    proof {
        assert(v@ =~= cols_key());
    }
    v
}

/// The key `Rows` as bytes.
pub(crate) fn rows_key_vec() -> (r: Vec<u8>)
    ensures
        r@ == rows_key(),
{
    let mut v: Vec<u8> = Vec::new();
    v.push(82);
    v.push(111);
    v.push(119);
    v.push(115);
    proof {
        assert(v@ =~= rows_key());
    }
    v
}

/// The key and type name `ReadOnly` as bytes.
pub(crate) fn readonly_key_vec() -> (r: Vec<u8>)
    ensures
        r@ == readonly_key(),
{
    let mut v: Vec<u8> = Vec::new();
    v.push(82);
    v.push(101);
    v.push(97);
    v.push(100);
    v.push(79);
    v.push(110);
    v.push(108);
    v.push(121);
    proof {
        assert(v@ =~= readonly_key());
    }
    v
}

/// The key and type name `Headless` as bytes.
pub(crate) fn headless_key_vec() -> (r: Vec<u8>)
    ensures
        r@ == headless_key(),
{
    let mut v: Vec<u8> = Vec::new();
    v.push(72);
    v.push(101);
    v.push(97);
    v.push(100);
    v.push(108);
    v.push(101);
    v.push(115);
    v.push(115);
    proof {
        assert(v@ =~= headless_key());
    }
    v
}

/// The type name `Write` as bytes.
pub(crate) fn write_type_vec() -> (r: Vec<u8>)
    ensures
        r@ == write_type(),
{
    let mut v: Vec<u8> = Vec::new();
    v.push(87);
    v.push(114);
    v.push(105);
    v.push(116);
    v.push(101);
    proof {
        assert(v@ =~= write_type());
    }
    v
}

/// The type name `WinSize` as bytes.
pub(crate) fn winsize_type_vec() -> (r: Vec<u8>)
    ensures
        r@ == winsize_type(),
{
    let mut v: Vec<u8> = Vec::new();
    v.push(87);
    v.push(105);
    v.push(110);
    v.push(83);
    v.push(105);
    v.push(122);
    v.push(101);
    proof {
        assert(v@ =~= winsize_type());
    }
    v
}

/// `true` or `false` as a value token.
pub(crate) fn bool_vec(b: bool) -> (r: Vec<u8>)
    ensures
        r@ == bool_bytes(b),
{
    let mut v: Vec<u8> = Vec::new();
    if b {
        v.push(116);
        v.push(114);
        v.push(117);
        v.push(101);
    } else {
        v.push(102);
        v.push(97);
        v.push(108);
        v.push(115);
        v.push(101);
    }
    proof {
        assert(v@ =~= bool_bytes(b));
    }
    v
}

/// The envelope in canonical key order, with the given type name and base64
/// `Data` value.
pub fn encode_envelope(t: &Vec<u8>, d: &Vec<u8>) -> (r: Vec<u8>)
    ensures
        r@ == envelope_bytes(t@, d@),
{
    let tk = type_key_vec();
    let dk = data_key_vec();
    let tv = quote_token(t);
    let dv = quote_token(d);
    encode_obj2(&tk, &tv, &dk, &dv)
}

/// The complete wire bytes of one server-to-client message, as
/// [`spec_encode_msg`] fixes them.
pub fn encode_msg(m: &ServerMsg) -> (r: Vec<u8>)
    ensures
        r@ == spec_encode_msg(m@),
{
    match m {
        ServerMsg::WinSize(c, r) => {
            let inner = encode_winsize_inner(*c, *r);
            let data = b64_encode_bytes(&inner);
            let t = winsize_type_vec();
            encode_envelope(&t, &data)
        },
        ServerMsg::ReadOnly(b) => {
            let k = readonly_key_vec();
            let bv = bool_vec(*b);
            let inner = encode_obj1(&k, &bv);
            let data = b64_encode_bytes(&inner);
            encode_envelope(&k, &data)
        },
        ServerMsg::Headless(b) => {
            let k = headless_key_vec();
            let bv = bool_vec(*b);
            let inner = encode_obj1(&k, &bv);
            let data = b64_encode_bytes(&inner);
            encode_envelope(&k, &data)
        },
        ServerMsg::Write(payload) => {
            let r = encode_write_frame(payload);
            r
        },
    }
}

/// The inner object of a `Write` frame for a payload: `Size` is its length,
/// `Data` its base64.
fn encode_write_inner(payload: &Vec<u8>) -> (r: Vec<u8>)
    ensures
        r@ == write_inner_bytes(payload@.len(), b64_encode(payload@)),
{
    let sk = size_key_vec();
    let dk = data_key_vec();
    let n = u64_to_dec(payload.len() as u64);
    let data = b64_encode_bytes(payload);
    let dv = quote_token(&data);
    encode_obj2(&sk, &n, &dk, &dv)
}

/// The inner object of a `WinSize` frame.
fn encode_winsize_inner(c: u16, r: u16) -> (out: Vec<u8>)
    ensures
        out@ == winsize_inner_bytes(c, r),
{
    let ck = cols_key_vec();
    let rk = rows_key_vec();
    let cv = u64_to_dec(c as u64);
    let rv = u64_to_dec(r as u64);
    encode_obj2(&ck, &cv, &rk, &rv)
}

/// The complete wire bytes of a `Write` frame carrying `payload` — the frame
/// either peer sends for raw terminal bytes.
pub fn encode_write_frame(payload: &Vec<u8>) -> (r: Vec<u8>)
    ensures
        r@ == envelope_bytes(write_type(), b64_encode(write_inner_bytes(payload@.len(), b64_encode(payload@)))),
{
    let inner = encode_write_inner(payload);
    let data = b64_encode_bytes(&inner);
    let t = write_type_vec();
    encode_envelope(&t, &data)
}

/// The complete wire bytes of a `WinSize` frame — the frame either peer sends
/// for a size change.
pub fn encode_winsize_frame(c: u16, r: u16) -> (out: Vec<u8>)
    ensures
        out@ == envelope_bytes(winsize_type(), b64_encode(winsize_inner_bytes(c, r))),
{
    let inner = encode_winsize_inner(c, r);
    let data = b64_encode_bytes(&inner);
    let t = winsize_type_vec();
    encode_envelope(&t, &data)
}

} // verus!
