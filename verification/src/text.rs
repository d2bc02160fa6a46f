//! Paths, URLs, the child environment, and the classification of transport
//! errors — the byte-level helpers around the session.

use vstd::prelude::*;
use crate::codec::dec_rep;

verus! {

/// `/s/<id>/` — the session page path.
pub open spec fn spec_session_page_path(id: Seq<u8>) -> Seq<u8> {
    seq![47u8, 115u8, 47u8] + id + seq![47u8]
}

/// `/s/<id>/ws/` — the path whose upgrade hands the transport to the session.
pub open spec fn spec_session_ws_path(id: Seq<u8>) -> Seq<u8> {
    seq![47u8, 115u8, 47u8] + id + seq![47u8, 119u8, 115u8, 47u8]
}

/// The session page path for a session id.
pub fn session_page_path(id: &Vec<u8>) -> (r: Vec<u8>)
    ensures
        r@ == spec_session_page_path(id@),
{
    let mut v: Vec<u8> = Vec::new();
    v.push(47);
    v.push(115);
    v.push(47);
    push_bytes(&mut v, id);
    v.push(47);
    proof {
        assert(v@ =~= spec_session_page_path(id@));
    }
    v
}

/// The websocket upgrade path for a session id.
pub fn session_ws_path(id: &Vec<u8>) -> (r: Vec<u8>)
    ensures
        r@ == spec_session_ws_path(id@),
{
    let mut v: Vec<u8> = Vec::new();
    v.push(47);
    v.push(115);
    v.push(47);
    push_bytes(&mut v, id);
    v.push(47);
    v.push(119);
    v.push(115);
    v.push(47);
    proof {
        assert(v@ =~= spec_session_ws_path(id@));
    }
    v
}

/// `http://<listen><page path>` — the URL announced at startup.
pub fn session_url(listen: &Vec<u8>, id: &Vec<u8>) -> (r: Vec<u8>)
    ensures
        r@ == seq![104u8, 116u8, 116u8, 112u8, 58u8, 47u8, 47u8] + listen@ + spec_session_page_path(id@),
{
    let mut v: Vec<u8> = Vec::new();
    v.push(104);
    v.push(116);
    v.push(116);
    v.push(112);
    v.push(58);
    v.push(47);
    v.push(47);
    push_bytes(&mut v, listen);
    let path = session_page_path(id);
    push_bytes(&mut v, &path);
    proof {
        assert(v@ =~= seq![104u8, 116u8, 116u8, 112u8, 58u8, 47u8, 47u8] + listen@
            + spec_session_page_path(id@));
    }
    v
}

/// The two environment bindings handed to the child: `RWSHELL=1` and
/// `RWSHELL_SESSION=<session id>`.
pub fn child_env(id: &Vec<u8>) -> (r: Vec<(Vec<u8>, Vec<u8>)>)
    ensures
        r@.len() == 2,
        r@[0].0@ == seq![82u8, 87u8, 83u8, 72u8, 69u8, 76u8, 76u8],
        r@[0].1@ == seq![49u8],
        r@[1].0@ == seq![82u8, 87u8, 83u8, 72u8, 69u8, 76u8, 76u8, 95u8, 83u8, 69u8, 83u8, 83u8, 73u8, 79u8, 78u8],
        r@[1].1@ == id@,
{
    let mut k1: Vec<u8> = Vec::new();
    k1.push(82);
    k1.push(87);
    k1.push(83);
    k1.push(72);
    k1.push(69);
    k1.push(76);
    k1.push(76);
    let mut v1: Vec<u8> = Vec::new();
    v1.push(49);
    let mut k2 = k1.clone();
    k2.push(95);
    k2.push(83);
    k2.push(69);
    k2.push(83);
    k2.push(83);
    k2.push(73);
    k2.push(79);
    k2.push(78);
    let mut out: Vec<(Vec<u8>, Vec<u8>)> = Vec::new();
    out.push((k1, v1));
    out.push((k2, id.clone()));
    proof {
        assert(out@[0].0@ =~= seq![82u8, 87u8, 83u8, 72u8, 69u8, 76u8, 76u8]);
        assert(out@[0].1@ =~= seq![49u8]);
        assert(out@[1].0@ =~= seq![
            82u8, 87u8, 83u8, 72u8, 69u8, 76u8, 76u8, 95u8, 83u8, 69u8, 83u8, 83u8, 73u8, 79u8,
            78u8,
        ]);
    }
    out
}

/// The input with every trailing slash removed.
pub open spec fn spec_trim_trailing_slashes(s: Seq<u8>) -> Seq<u8>
    decreases s.len(),
{
    if s.len() > 0 && s.last() == 47u8 {
        spec_trim_trailing_slashes(s.drop_last())
    } else {
        s
    }
}

/// Remove every trailing slash.
pub fn trim_trailing_slashes(p: &Vec<u8>) -> (r: Vec<u8>)
    ensures
        r@ == spec_trim_trailing_slashes(p@),
{
    let mut end = p.len();
    proof {
        assert(p@.subrange(0, p@.len() as int) =~= p@);
    }
    while end > 0 && p[end - 1] == 47
        invariant
            end <= p@.len(),
            spec_trim_trailing_slashes(p@) == spec_trim_trailing_slashes(p@.subrange(0, end as int)),
        decreases end,
    {
        proof {
            assert(p@.subrange(0, end as int).drop_last() =~= p@.subrange(0, end - 1));
        }
        end -= 1;
    }
    let r = copy_prefix(p, end);
    proof {
        assert(spec_trim_trailing_slashes(p@.subrange(0, end as int)) == p@.subrange(0, end as int));
    }
    r
}

/// The websocket path a session URL's path leads to: trailing slashes
/// removed, then `/ws/` appended.
pub fn ws_path_of(p: &Vec<u8>) -> (r: Vec<u8>)
    ensures
        r@ == spec_trim_trailing_slashes(p@) + seq![47u8, 119u8, 115u8, 47u8],
{
    let mut v = trim_trailing_slashes(p);
    v.push(47);
    v.push(119);
    v.push(115);
    v.push(47);
    proof {
        assert(v@ =~= spec_trim_trailing_slashes(p@) + seq![47u8, 119u8, 115u8, 47u8]);
    }
    v
}

/// `host` or `host:port`.
pub fn host_port_bytes(host: &Vec<u8>, port: Option<u16>) -> (r: Vec<u8>)
    ensures
        port is None ==> r@ == host@,
        port matches Some(p) ==> r@ == host@ + seq![58u8] + dec_rep(p as nat),
{
    match port {
        None => host.clone(),
        Some(p) => {
            let mut v = host.clone();
            v.push(58);
            let d = crate::codec::u64_to_dec(p as u64);
            push_bytes(&mut v, &d);
            proof {
                assert(v@ =~= host@ + seq![58u8] + dec_rep(p as nat));
            }
            v
        },
    }
}

/// `ws://` or `wss://` (for an `https` page) in front of host and path.
pub fn ws_url_bytes(secure: bool, hostport: &Vec<u8>, path: &Vec<u8>) -> (r: Vec<u8>)
    ensures
        secure ==> r@ == seq![119u8, 115u8, 115u8, 58u8, 47u8, 47u8] + hostport@ + path@,
        !secure ==> r@ == seq![119u8, 115u8, 58u8, 47u8, 47u8] + hostport@ + path@,
{
    let mut v: Vec<u8> = Vec::new();
    v.push(119);
    v.push(115);
    if secure {
        v.push(115);
    }
    v.push(58);
    v.push(47);
    v.push(47);
    push_bytes(&mut v, hostport);
    push_bytes(&mut v, path);
    proof {
        if secure {
            assert(v@ =~= seq![119u8, 115u8, 115u8, 58u8, 47u8, 47u8] + hostport@ + path@);
        } else {
            assert(v@ =~= seq![119u8, 115u8, 58u8, 47u8, 47u8] + hostport@ + path@);
        }
    }
    v
}

/// `n` occurs as a contiguous substring of `h`.
pub open spec fn is_substring(h: Seq<u8>, n: Seq<u8>) -> bool {
    exists|i: int| 0 <= i <= h.len() - n.len() && #[trigger] h.subrange(i, i + n.len()) == n
}

/// Whether `n` occurs in `h`.
pub fn contains_sub(h: &Vec<u8>, n: &Vec<u8>) -> (r: bool)
    ensures
        r <==> is_substring(h@, n@),
{
    let hl = h.len();
    let nl = n.len();
    if nl > hl {
        return false;
    }
    if nl == 0 {
        proof {
            let i: int = 0;
            assert(h@.subrange(i, i + n@.len()) =~= n@);
            assert(is_substring(h@, n@));
        }
        return true;
    }
    let mut i: usize = 0;
    while i <= hl - nl
        invariant
            1 <= nl <= hl,
            hl == h@.len(),
            nl == n@.len(),
            i <= hl - nl + 1,
            forall|k: int| 0 <= k < i ==> #[trigger] h@.subrange(k, k + nl) != n@,
        decreases hl - nl - i + 1,
    {
        if crate::parse::range_eq(h, i, i + nl, n) {
            return true;
        }
        i += 1;
    }
    false
}

/// The transport error messages that mean a normal disconnect: they contain
/// `closed connection`, `Connection reset`, or
/// `Trying to work with closed connection`. Such errors are logged quietly;
/// any other send error is logged loudly. Either way the connection closes.
pub fn is_normal_disconnect(msg: &Vec<u8>) -> (r: bool)
    ensures
        r <==> {
            ||| is_substring(msg@, closed_connection_pat())
            ||| is_substring(msg@, connection_reset_pat())
            ||| is_substring(msg@, trying_closed_pat())
        },
{
    let p1 = closed_connection_vec();
    let p2 = connection_reset_vec();
    let p3 = trying_closed_vec();
    contains_sub(msg, &p1) || contains_sub(msg, &p2) || contains_sub(msg, &p3)
}

/// `closed connection`.
pub open spec fn closed_connection_pat() -> Seq<u8> {
    seq![99u8, 108u8, 111u8, 115u8, 101u8, 100u8, 32u8, 99u8, 111u8, 110u8, 110u8, 101u8, 99u8, 116u8, 105u8, 111u8, 110u8]
}

/// `Connection reset`.
pub open spec fn connection_reset_pat() -> Seq<u8> {
    seq![67u8, 111u8, 110u8, 110u8, 101u8, 99u8, 116u8, 105u8, 111u8, 110u8, 32u8, 114u8, 101u8, 115u8, 101u8, 116u8]
}

/// `Trying to work with closed connection`.
pub open spec fn trying_closed_pat() -> Seq<u8> {
    seq![84u8, 114u8, 121u8, 105u8, 110u8, 103u8, 32u8, 116u8, 111u8, 32u8, 119u8, 111u8, 114u8, 107u8, 32u8, 119u8, 105u8, 116u8, 104u8, 32u8]
        + closed_connection_pat()
}

fn closed_connection_vec() -> (r: Vec<u8>)
    ensures
        r@ == closed_connection_pat(),
{
    let mut v: Vec<u8> = Vec::new();
    push_byte_list(&mut v, &[99, 108, 111, 115, 101, 100, 32, 99, 111, 110, 110, 101, 99, 116, 105, 111, 110]);
    proof {
        assert(v@ =~= closed_connection_pat());
    }
    v
}

fn connection_reset_vec() -> (r: Vec<u8>)
    ensures
        r@ == connection_reset_pat(),
{
    let mut v: Vec<u8> = Vec::new();
    push_byte_list(&mut v, &[67, 111, 110, 110, 101, 99, 116, 105, 111, 110, 32, 114, 101, 115, 101, 116]);
    proof {
        assert(v@ =~= connection_reset_pat());
    }
    v
}

fn trying_closed_vec() -> (r: Vec<u8>)
    ensures
        r@ == trying_closed_pat(),
{
    let mut v: Vec<u8> = Vec::new();
    push_byte_list(&mut v, &[84, 114, 121, 105, 110, 103, 32, 116, 111, 32, 119, 111, 114, 107, 32, 119, 105, 116, 104, 32]);
    push_byte_list(&mut v, &[99, 108, 111, 115, 101, 100, 32, 99, 111, 110, 110, 101, 99, 116, 105, 111, 110]);
    proof {
        assert(v@ =~= trying_closed_pat());
    }
    v
}

/// Append every byte of the slice to `v`.
fn push_byte_list(v: &mut Vec<u8>, s: &[u8])
    ensures
        final(v)@ == old(v)@ + s@,
{
    let n = s.len();
    let mut i: usize = 0;
    while i < n
        invariant
            i <= n,
            n == s@.len(),
            v@ == old(v)@ + s@.subrange(0, i as int),
        decreases n - i,
    {
        v.push(s[i]);
        i += 1;
        assert(v@ =~= old(v)@ + s@.subrange(0, i as int));
    }
    assert(v@ =~= old(v)@ + s@);
}

/// Append every byte of `s` to `v`.
fn push_bytes(v: &mut Vec<u8>, s: &Vec<u8>)
    ensures
        final(v)@ == old(v)@ + s@,
{
    let n = s.len();
    let mut i: usize = 0;
    while i < n
        invariant
            i <= n,
            n == s@.len(),
            v@ == old(v)@ + s@.subrange(0, i as int),
        decreases n - i,
    {
        v.push(s[i]);
        i += 1;
        assert(v@ =~= old(v)@ + s@.subrange(0, i as int));
    }
    assert(v@ =~= old(v)@ + s@);
}

/// Copy the first `end` bytes of `p`.
fn copy_prefix(p: &Vec<u8>, end: usize) -> (r: Vec<u8>)
    requires
        end <= p@.len(),
    ensures
        r@ == p@.subrange(0, end as int),
{
    let mut v: Vec<u8> = Vec::new();
    let mut k: usize = 0;
    while k < end
        invariant
            k <= end <= p@.len(),
            v@ == p@.subrange(0, k as int),
        decreases end - k,
    {
        v.push(p[k]);
        k += 1;
        assert(v@ =~= p@.subrange(0, k as int));
    }
    v
}

} // verus!
