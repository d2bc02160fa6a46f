//! Parsing of the protocol's JSON objects, exactly inverse to the byte
//! grammar of [`crate::codec`].
//!
//! Every parser here accepts precisely the language of its grammar function —
//! with the two keys of an object in either order — and rejects everything
//! else; the contracts say so in both directions. Uniqueness of the
//! decomposition (proved below) lets the callers pin the parsed values.

use vstd::prelude::*;
use crate::codec::{
    dec_rep, jstr_ok, obj2_bytes, quoted, BACKSLASH, COLON, COMMA, LBRACE, QUOTE, RBRACE,
};

verus! {

/// An ASCII decimal digit.
pub open spec fn is_digit(b: u8) -> bool {
    48 <= b <= 57
}

/// Position `j` does not continue a digit run.
pub open spec fn digit_bounded(s: Seq<u8>, j: int) -> bool {
    j == s.len() || !is_digit(s[j])
}

/// No string terminator or escape occurs in `s[i..j)`.
pub open spec fn no_stop(s: Seq<u8>, i: int, j: int) -> bool {
    forall|k: int| i <= k < j ==> s[k] != QUOTE && s[k] != BACKSLASH
}

/// A maximal numeral for `n` stands at `i..j`.
pub open spec fn num_at(s: Seq<u8>, i: int, n: nat, j: int) -> bool {
    &&& 0 <= i <= j <= s.len()
    &&& s.subrange(i, j) == dec_rep(n)
    &&& digit_bounded(s, j)
}

/// A value token: a string without escapes, or an unsigned numeral.
#[derive(Debug, Clone, PartialEq, Eq)]
pub enum Tok {
    S(Vec<u8>),
    N(u64),
}

/// The ghost image of a [`Tok`].
pub enum TokModel {
    S(Seq<u8>),
    N(u64),
}

impl View for Tok {
    type V = TokModel;

    open spec fn view(&self) -> TokModel {
        match self {
            Tok::S(v) => TokModel::S(v@),
            Tok::N(n) => TokModel::N(*n),
        }
    }
}

/// Well-formedness of a token: string content must be escape-free.
pub open spec fn tok_ok(t: TokModel) -> bool {
    match t {
        TokModel::S(c) => jstr_ok(c),
        TokModel::N(_) => true,
    }
}

/// The bytes of a value token, quotes included for strings.
pub open spec fn tok_bytes(t: TokModel) -> Seq<u8> {
    match t {
        TokModel::S(c) => quoted(c),
        TokModel::N(n) => dec_rep(n as nat),
    }
}

/// A token `t` stands at `i..p` in `s`: its bytes occupy that range, and a
/// numeral is maximal there.
pub open spec fn tok_at(s: Seq<u8>, i: int, t: TokModel, p: int) -> bool {
    &&& 0 <= i <= p <= s.len()
    &&& tok_ok(t)
    &&& s.subrange(i, p) == tok_bytes(t)
    &&& (t is N ==> digit_bounded(s, p))
}

// ---------------------------------------------------------------------------
// Facts about numerals.
// ---------------------------------------------------------------------------

/// Every numeral is a nonempty run of digits, and numerals of ten or more
/// never begin with a zero.
pub proof fn lemma_dec_rep_digits(n: nat)
    ensures
        dec_rep(n).len() >= 1,
        forall|k: int| 0 <= k < dec_rep(n).len() ==> is_digit(#[trigger] dec_rep(n)[k]),
        n >= 10 ==> dec_rep(n)[0] != 48,
        n >= 10 ==> dec_rep(n).len() >= 2,
        n < 10 ==> dec_rep(n).len() == 1,
        dec_rep(n)[0] != QUOTE && dec_rep(n)[0] != BACKSLASH,
    decreases n,
{
    if n >= 10 {
        lemma_dec_rep_digits(n / 10);
        assert(n / 10 >= 1);
        assert(dec_rep(n)[0] == dec_rep(n / 10)[0]);
    }
}

/// Distinct numbers have distinct numerals.
pub proof fn lemma_dec_rep_injective(a: nat, b: nat)
    requires
        dec_rep(a) == dec_rep(b),
    ensures
        a == b,
    decreases a,
{
    lemma_dec_rep_digits(a);
    lemma_dec_rep_digits(b);
    if a < 10 && b < 10 {
        assert(dec_rep(a)[0] == dec_rep(b)[0]);
    } else if a >= 10 && b >= 10 {
        let pa = dec_rep(a / 10);
        let pb = dec_rep(b / 10);
        assert(dec_rep(a) == pa.push((48 + a % 10) as u8));
        assert(dec_rep(b) == pb.push((48 + b % 10) as u8));
        assert(pa.push((48 + a % 10) as u8)[pa.len() as int] == (48 + a % 10) as u8);
        assert(pb.push((48 + b % 10) as u8)[pb.len() as int] == (48 + b % 10) as u8);
        assert(pa.len() == pb.len());
        assert((48 + a % 10) as u8 == (48 + b % 10) as u8);
        assert(a % 10 == b % 10);
        assert(dec_rep(a / 10) =~= dec_rep(a).drop_last());
        assert(dec_rep(b / 10) =~= dec_rep(b).drop_last());
        lemma_dec_rep_injective(a / 10, b / 10);
        assert(a == 10 * (a / 10) + a % 10) by {
            vstd::arithmetic::div_mod::lemma_fundamental_div_mod(a as int, 10);
        }
        assert(b == 10 * (b / 10) + b % 10) by {
            vstd::arithmetic::div_mod::lemma_fundamental_div_mod(b as int, 10);
        }
    } else if a < 10 {
        assert(dec_rep(b).len() >= 2);
        assert(false);
    } else {
        assert(dec_rep(a).len() >= 2);
        assert(false);
    }
}

/// A numeral that is a strict prefix of another belongs to a number at most a
/// tenth as large.
pub proof fn lemma_dec_prefix_value(a: nat, b: nat)
    requires
        dec_rep(a) == dec_rep(b).take(dec_rep(a).len() as int),
        dec_rep(a).len() < dec_rep(b).len(),
    ensures
        b >= 10 * a,
    decreases b,
{
    lemma_dec_rep_digits(a);
    lemma_dec_rep_digits(b);
    assert(b >= 10);
    assert(dec_rep(b) == dec_rep(b / 10).push((48 + b % 10) as u8));
    if dec_rep(a).len() == dec_rep(b / 10).len() {
        assert(dec_rep(a) =~= dec_rep(b / 10));
        lemma_dec_rep_injective(a, b / 10);
        assert(b == 10 * (b / 10) + b % 10) by {
            vstd::arithmetic::div_mod::lemma_fundamental_div_mod(b as int, 10);
        }
    } else {
        assert(dec_rep(a) =~= dec_rep(b / 10).take(dec_rep(a).len() as int));
        lemma_dec_prefix_value(a, b / 10);
        assert(b == 10 * (b / 10) + b % 10) by {
            vstd::arithmetic::div_mod::lemma_fundamental_div_mod(b as int, 10);
        }
        assert(b / 10 >= 10 * a);
    }
}

/// At one position there is at most one maximal numeral.
pub proof fn lemma_num_at_unique(s: Seq<u8>, i: int, n1: nat, j1: int, n2: nat, j2: int)
    requires
        num_at(s, i, n1, j1),
        num_at(s, i, n2, j2),
    ensures
        n1 == n2,
        j1 == j2,
{
    lemma_dec_rep_digits(n1);
    lemma_dec_rep_digits(n2);
    if j1 < j2 {
        assert(is_digit(s[j1])) by {
            assert(s[j1] == dec_rep(n2)[j1 - i]);
        }
        assert(false);
    } else if j2 < j1 {
        assert(is_digit(s[j2])) by {
            assert(s[j2] == dec_rep(n1)[j2 - i]);
        }
        assert(false);
    }
    assert(dec_rep(n1) =~= dec_rep(n2));
    lemma_dec_rep_injective(n1, n2);
}

/// The first unescaped quote at or after `i` is unique.
pub proof fn lemma_first_quote_unique(s: Seq<u8>, i: int, j1: int, j2: int)
    requires
        i <= j1 < s.len() && s[j1] == QUOTE && no_stop(s, i, j1),
        i <= j2 < s.len() && s[j2] == QUOTE && no_stop(s, i, j2),
    ensures
        j1 == j2,
{
}

/// At one position there is at most one value token.
pub proof fn lemma_tok_at_unique(s: Seq<u8>, i: int, t1: TokModel, p1: int, t2: TokModel, p2: int)
    requires
        tok_at(s, i, t1, p1),
        tok_at(s, i, t2, p2),
    ensures
        t1 == t2,
        p1 == p2,
{
    match (t1, t2) {
        (TokModel::S(c1), TokModel::S(c2)) => {
            assert(tok_bytes(t1) == quoted(c1));
            assert(s.subrange(i, p1) == quoted(c1));
            assert(quoted(c1).len() == c1.len() + 2);
            assert(s.subrange(i, p1).len() == p1 - i);
            assert(p1 - i >= 2);
            assert(s.subrange(i, p1)[0] == s[i]);
            assert(s[i] == QUOTE);
            assert(tok_bytes(t2) == quoted(c2));
            assert(s.subrange(i, p2) == quoted(c2));
            assert(s.subrange(i, p2).len() == p2 - i);
            assert(s[i + 1 + c1.len() as int] == QUOTE) by {
                assert(s.subrange(i, p1)[1 + c1.len() as int] == quoted(c1)[1 + c1.len() as int]);
            }
            assert(s[i + 1 + c2.len() as int] == QUOTE) by {
                assert(s.subrange(i, p2)[1 + c2.len() as int] == quoted(c2)[1 + c2.len() as int]);
            }
            assert forall|k: int| i + 1 <= k < i + 1 + c1.len() as int
                implies s[k] != QUOTE && s[k] != BACKSLASH by {
                assert(s.subrange(i, p1)[k - i] == s[k]);
                assert(quoted(c1)[k - i] == c1[k - i - 1]);
            }
            assert(no_stop(s, i + 1, i + 1 + c1.len() as int));
            assert forall|k: int| i + 1 <= k < i + 1 + c2.len() as int
                implies s[k] != QUOTE && s[k] != BACKSLASH by {
                assert(s.subrange(i, p2)[k - i] == s[k]);
                assert(quoted(c2)[k - i] == c2[k - i - 1]);
            }
            assert(no_stop(s, i + 1, i + 1 + c2.len() as int));
            lemma_first_quote_unique(s, i + 1, i + 1 + c1.len() as int, i + 1 + c2.len() as int);
            assert forall|k: int| 0 <= k < c1.len() implies #[trigger] c1[k] == c2[k] by {
                assert(s.subrange(i, p1)[k + 1] == s[i + 1 + k]);
                assert(quoted(c1)[k + 1] == c1[k]);
                assert(s.subrange(i, p2)[k + 1] == s[i + 1 + k]);
                assert(quoted(c2)[k + 1] == c2[k]);
            }
            assert(c1 =~= c2);
        },
        (TokModel::N(n1), TokModel::N(n2)) => {
            lemma_num_at_unique(s, i, n1 as nat, p1, n2 as nat, p2);
        },
        (TokModel::S(c1), TokModel::N(n2)) => {
            assert(tok_bytes(t1) == quoted(c1));
            assert(s.subrange(i, p1) == quoted(c1));
            assert(s.subrange(i, p1).len() == p1 - i);
            assert(tok_bytes(t2) == dec_rep(n2 as nat));
            assert(s.subrange(i, p2) == dec_rep(n2 as nat));
            assert(s.subrange(i, p2).len() == p2 - i);
            assert(s.subrange(i, p1)[0] == s[i]);
            assert(s[i] == QUOTE);
            lemma_dec_rep_digits(n2 as nat);
            assert(s.subrange(i, p2)[0] == s[i]);
            assert(s[i] == dec_rep(n2 as nat)[0]);
            assert(false);
        },
        (TokModel::N(n1), TokModel::S(c2)) => {
            assert(tok_bytes(t2) == quoted(c2));
            assert(s.subrange(i, p2) == quoted(c2));
            assert(s.subrange(i, p2).len() == p2 - i);
            assert(tok_bytes(t1) == dec_rep(n1 as nat));
            assert(s.subrange(i, p1) == dec_rep(n1 as nat));
            assert(s.subrange(i, p1).len() == p1 - i);
            assert(s.subrange(i, p2)[0] == s[i]);
            assert(s[i] == QUOTE);
            lemma_dec_rep_digits(n1 as nat);
            assert(s.subrange(i, p1)[0] == s[i]);
            assert(s[i] == dec_rep(n1 as nat)[0]);
            assert(false);
        },
    }
}

// ---------------------------------------------------------------------------
// Exec scanners.
// ---------------------------------------------------------------------------

/// Find the quote that ends a string's content, failing on any escape.
fn scan_string(s: &Vec<u8>, i: usize) -> (r: Option<usize>)
    requires
        i <= s@.len(),
    ensures
        r matches Some(j) ==> i <= j < s@.len() && s@[j as int] == QUOTE && no_stop(s@, i as int, j as int),
        r is None ==> !(exists|j: int| i <= j < s@.len() && s@[j] == QUOTE && no_stop(s@, i as int, j)),
{
    let n = s.len();
    let mut k = i;
    while k < n
        invariant
            i <= k <= n,
            n == s@.len(),
            no_stop(s@, i as int, k as int),
        decreases n - k,
    {
        if s[k] == QUOTE {
            return Some(k);
        }
        if s[k] == BACKSLASH {
            return None;
        }
        k += 1;
    }
    None
}

/// Parse a maximal numeral, rejecting leading zeros and values over `u64`.
fn scan_number(s: &Vec<u8>, i: usize) -> (r: Option<(u64, usize)>)
    requires
        i <= s@.len(),
    ensures
        r matches Some(p) ==> num_at(s@, i as int, p.0 as nat, p.1 as int),
        r is None ==> !(exists|n: u64, j: int| num_at(s@, i as int, n as nat, j)),
{
    let n = s.len();
    if i == n || s[i] < 48 || s[i] > 57 {
        proof {
            if exists|m: u64, j: int| num_at(s@, i as int, m as nat, j) {
                let (m, j): (u64, int) = choose|m: u64, j: int| num_at(s@, i as int, m as nat, j);
                lemma_dec_rep_digits(m as nat);
                assert(s@[i as int] == dec_rep(m as nat)[0]);
                assert(false);
            }
        }
        return None;
    }
    if s[i] == 48 {
        if i + 1 == n || s[i + 1] < 48 || s[i + 1] > 57 {
            proof {
                assert(s@.subrange(i as int, i + 1) =~= dec_rep(0));
            }
            return Some((0, i + 1));
        }
        proof {
            if exists|m: u64, j: int| num_at(s@, i as int, m as nat, j) {
                let (m, j): (u64, int) = choose|m: u64, j: int| num_at(s@, i as int, m as nat, j);
                lemma_dec_rep_digits(m as nat);
                assert(s@[i as int] == dec_rep(m as nat)[0]);
                assert(m < 10);
                assert(m == 0);
                assert(j == i + 1);
                assert(is_digit(s@[j]));
                assert(false);
            }
        }
        return None;
    }
    let mut acc: u64 = (s[i] - 48) as u64;
    let mut k = i + 1;
    proof {
        assert(s@.subrange(i as int, i + 1) =~= dec_rep(acc as nat));
    }
    while k < n && s[k] >= 48 && s[k] <= 57
        invariant
            i < k <= n,
            n == s@.len(),
            1 <= acc,
            s@.subrange(i as int, k as int) == dec_rep(acc as nat),
        decreases n - k,
    {
        let d = (s[k] - 48) as u64;
        if acc > (u64::MAX - d) / 10 {
            proof {
                let big: nat = (10 * acc + d) as nat;
                assert(big > u64::MAX) by {
                    assert(acc * 10 + d > u64::MAX) by (nonlinear_arith)
                        requires
                            acc > (u64::MAX - d) / 10,
                            0 <= d < 10,
                            u64::MAX == 0xffff_ffff_ffff_ffff,
                    ;
                }
                assert(dec_rep(big) == dec_rep(acc as nat).push((48 + big % 10) as u8)) by {
                    vstd::arithmetic::div_mod::lemma_fundamental_div_mod_converse(
                        big as int, 10, acc as int, d as int);
                }
                assert(dec_rep(big) =~= s@.subrange(i as int, k + 1)) by {
                    assert(s@.subrange(i as int, k + 1)
                        =~= s@.subrange(i as int, k as int).push(s@[k as int]));
                    assert(big % 10 == d) by {
                        vstd::arithmetic::div_mod::lemma_fundamental_div_mod_converse(
                            big as int, 10, acc as int, d as int);
                    }
                }
                if exists|m: u64, j: int| num_at(s@, i as int, m as nat, j) {
                    let (m, j): (u64, int) = choose|m: u64, j: int| num_at(s@, i as int, m as nat, j);
                    lemma_dec_rep_digits(m as nat);
                    lemma_dec_rep_digits(big);
                    // The numeral at i runs at least through position k.
                    assert(j > k) by {
                        if j <= k {
                            assert(is_digit(s@[j])) by {
                                if j < k {
                                    assert(s@[j] == dec_rep(acc as nat)[j - i]);
                                } else {
                                    assert(is_digit(s@[k as int]));
                                }
                            }
                            assert(false);
                        }
                    }
                    assert(dec_rep(big) == dec_rep(m as nat).take(dec_rep(big).len() as int)) by {
                        assert(forall|x: int| 0 <= x < k + 1 - i
                            ==> #[trigger] dec_rep(big)[x] == s@[i + x]
                                && dec_rep(m as nat)[x] == s@[i + x]);
                        assert(dec_rep(big) =~= dec_rep(m as nat).take(k + 1 - i));
                    }
                    if dec_rep(big).len() == dec_rep(m as nat).len() {
                        assert(dec_rep(big) =~= dec_rep(m as nat));
                        lemma_dec_rep_injective(big, m as nat);
                        assert(false);
                    } else {
                        lemma_dec_prefix_value(big, m as nat);
                        assert(false);
                    }
                }
            }
            return None;
        }
        let ghost old_acc = acc;
        acc = acc * 10 + d;
        proof {
            assert(dec_rep(acc as nat) == dec_rep(old_acc as nat).push((48 + acc as nat % 10) as u8)) by {
                vstd::arithmetic::div_mod::lemma_fundamental_div_mod_converse(
                    acc as int, 10, old_acc as int, d as int);
            }
            assert(acc as nat % 10 == d) by {
                vstd::arithmetic::div_mod::lemma_fundamental_div_mod_converse(
                    acc as int, 10, old_acc as int, d as int);
            }
            assert(s@.subrange(i as int, k + 1)
                =~= s@.subrange(i as int, k as int).push(s@[k as int]));
            assert(s@.subrange(i as int, k + 1) =~= dec_rep(acc as nat));
        }
        k += 1;
    }
    Some((acc, k))
}

/// Parse one value token.
fn parse_tok(s: &Vec<u8>, i: usize) -> (r: Option<(Tok, usize)>)
    requires
        i <= s@.len(),
    ensures
        r matches Some(p) ==> tok_at(s@, i as int, p.0@, p.1 as int),
        r is None ==> !(exists|t: TokModel, p: int| tok_at(s@, i as int, t, p)),
{
    let n = s.len();
    if i < n && s[i] == QUOTE {
        match scan_string(s, i + 1) {
            Some(j) => {
                let content = copy_range(s, i + 1, j);
                proof {
                    let q = quoted(content@);
                    assert(q.len() == j + 1 - i);
                    assert(q[0] == QUOTE && q[q.len() - 1] == QUOTE);
                    assert forall|x: int| 0 <= x < q.len() implies q[x] == s@[i + x] by {
                        if x == 0 {
                        } else if x == q.len() - 1 {
                        } else {
                            assert(q[x] == content@[x - 1]);
                            assert(content@[x - 1] == s@[i + 1 + (x - 1)]);
                        }
                    }
                    assert(s@.subrange(i as int, j + 1) =~= q);
                }
                Some((Tok::S(content), j + 1))
            },
            None => {
                proof {
                    if exists|t: TokModel, p: int| tok_at(s@, i as int, t, p) {
                        let (t, p): (TokModel, int) = choose|t: TokModel, p: int| tok_at(s@, i as int, t, p);
                        match t {
                            TokModel::S(c) => {
                                assert(tok_bytes(t) == quoted(c));
                                assert(s@.subrange(i as int, p) == quoted(c));
                                assert(s@.subrange(i as int, p).len() == c.len() + 2);
                                assert(s@[i + 1 + c.len() as int] == QUOTE) by {
                                    assert(s@.subrange(i as int, p)[1 + c.len() as int]
                                        == s@[i + 1 + c.len() as int]);
                                    assert(quoted(c)[1 + c.len() as int] == QUOTE);
                                }
                                assert forall|k: int| i + 1 <= k < i + 1 + c.len() as int
                                    implies s@[k] != QUOTE && s@[k] != BACKSLASH by {
                                    assert(s@.subrange(i as int, p)[k - i] == s@[k]);
                                    assert(quoted(c)[k - i] == c[k - i - 1]);
                                }
                                assert(no_stop(s@, i + 1, i + 1 + c.len() as int));
                                assert(false);
                            },
                            TokModel::N(m) => {
                                lemma_dec_rep_digits(m as nat);
                                assert(s@[i as int] == dec_rep(m as nat)[0]);
                                assert(false);
                            },
                        }
                    }
                }
                None
            },
        }
    } else {
        match scan_number(s, i) {
            Some((m, j)) => Some((Tok::N(m), j)),
            None => {
                proof {
                    if exists|t: TokModel, p: int| tok_at(s@, i as int, t, p) {
                        let (t, p): (TokModel, int) = choose|t: TokModel, p: int| tok_at(s@, i as int, t, p);
                        match t {
                            TokModel::S(c) => {
                                assert(tok_bytes(t) == quoted(c));
                                assert(s@.subrange(i as int, p) == quoted(c));
                                assert(s@.subrange(i as int, p).len() == p - i);
                                assert(s@.subrange(i as int, p)[0] == s@[i as int]);
                                assert(quoted(c)[0] == QUOTE);
                                assert(s@[i as int] == QUOTE);
                                assert(false);
                            },
                            TokModel::N(m) => {
                                assert(num_at(s@, i as int, m as nat, p));
                                assert(false);
                            },
                        }
                    }
                }
                None
            },
        }
    }
}

/// Copy `s[i..j]`.
fn copy_range(s: &Vec<u8>, i: usize, j: usize) -> (r: Vec<u8>)
    requires
        i <= j <= s@.len(),
    ensures
        r@ == s@.subrange(i as int, j as int),
{
    let mut v: Vec<u8> = Vec::new();
    let mut k = i;
    while k < j
        invariant
            i <= k <= j <= s@.len(),
            v@ == s@.subrange(i as int, k as int),
        decreases j - k,
    {
        v.push(s[k]);
        k += 1;
        assert(v@ =~= s@.subrange(i as int, k as int));
    }
    v
}

/// Whether `s[i..j] == t`.
pub(crate) fn range_eq(s: &Vec<u8>, i: usize, j: usize, t: &Vec<u8>) -> (r: bool)
    requires
        i <= j <= s@.len(),
    ensures
        r <==> s@.subrange(i as int, j as int) == t@,
{
    if j - i != t.len() {
        proof {
            assert(s@.subrange(i as int, j as int).len() == j - i);
        }
        return false;
    }
    let mut k: usize = 0;
    let len = t.len();
    while k < len
        invariant
            k <= len,
            len == t@.len(),
            i + len == j <= s@.len(),
            forall|x: int| 0 <= x < k ==> s@[i + x] == t@[x],
        decreases len - k,
    {
        if s[i + k] != t[k] {
            proof {
                assert(s@.subrange(i as int, j as int)[k as int] == s@[i + k]);
            }
            return false;
        }
        k += 1;
    }
    proof {
        assert(s@.subrange(i as int, j as int) =~= t@);
    }
    true
}

/// Whether two byte strings are equal.
pub fn bytes_eq(a: &Vec<u8>, b: &Vec<u8>) -> (r: bool)
    ensures
        r <==> a@ == b@,
{
    let r = range_eq(a, 0, a.len(), b);
    proof {
        assert(a@.subrange(0, a@.len() as int) =~= a@);
    }
    r
}


// ---------------------------------------------------------------------------
// Objects of two fields.
// ---------------------------------------------------------------------------

/// `s` is the object with value `v1` under key `k1` and `v2` under `k2`, the
/// keys in this order.
pub open spec fn obj2_ordered_at(s: Seq<u8>, k1: Seq<u8>, v1: TokModel, k2: Seq<u8>, v2: TokModel) -> bool {
    &&& tok_ok(v1)
    &&& tok_ok(v2)
    &&& s == obj2_bytes(k1, tok_bytes(v1), k2, tok_bytes(v2))
}

/// `s` is the object with value `va` under key `ka` and `vb` under `kb`, the
/// keys in either order.
pub open spec fn obj2_at(s: Seq<u8>, ka: Seq<u8>, kb: Seq<u8>, va: TokModel, vb: TokModel) -> bool {
    ||| obj2_ordered_at(s, ka, va, kb, vb)
    ||| obj2_ordered_at(s, kb, vb, ka, va)
}

/// Where every piece of a two-field object stands.
pub proof fn lemma_obj2_positions(ka: Seq<u8>, va: Seq<u8>, kb: Seq<u8>, vb: Seq<u8>)
    ensures
        ({
            let s = obj2_bytes(ka, va, kb, vb);
            let n1 = ka.len() as int;
            let m1 = va.len() as int;
            let n2 = kb.len() as int;
            let m2 = vb.len() as int;
            &&& s.len() == 9 + n1 + m1 + n2 + m2
            &&& s[0] == LBRACE
            &&& s[1] == QUOTE
            &&& s.subrange(2, 2 + n1) == ka
            &&& s[2 + n1] == QUOTE
            &&& s[3 + n1] == COLON
            &&& s.subrange(4 + n1, 4 + n1 + m1) == va
            &&& s[4 + n1 + m1] == COMMA
            &&& s[5 + n1 + m1] == QUOTE
            &&& s.subrange(6 + n1 + m1, 6 + n1 + m1 + n2) == kb
            &&& s[6 + n1 + m1 + n2] == QUOTE
            &&& s[7 + n1 + m1 + n2] == COLON
            &&& s.subrange(8 + n1 + m1 + n2, 8 + n1 + m1 + n2 + m2) == vb
            &&& s[8 + n1 + m1 + n2 + m2] == RBRACE
        }),
{
    let s = obj2_bytes(ka, va, kb, vb);
    let n1 = ka.len() as int;
    let m1 = va.len() as int;
    let n2 = kb.len() as int;
    let m2 = vb.len() as int;
    assert(s.subrange(2, 2 + n1) =~= ka);
    assert(s.subrange(4 + n1, 4 + n1 + m1) =~= va);
    assert(s.subrange(6 + n1 + m1, 6 + n1 + m1 + n2) =~= kb);
    assert(s.subrange(8 + n1 + m1 + n2, 8 + n1 + m1 + n2 + m2) =~= vb);
}

/// The parser-facing facts of an ordered two-field object: the scan targets,
/// separators, and the token extents, with numeral maximality at each.
pub proof fn lemma_ordered_facts(s: Seq<u8>, k1: Seq<u8>, v1: TokModel, k2: Seq<u8>, v2: TokModel)
    requires
        obj2_ordered_at(s, k1, v1, k2, v2),
        jstr_ok(k1),
        jstr_ok(k2),
    ensures
        ({
            let n1 = k1.len() as int;
            let m1 = tok_bytes(v1).len() as int;
            let n2 = k2.len() as int;
            let m2 = tok_bytes(v2).len() as int;
            &&& s.len() == 9 + n1 + m1 + n2 + m2
            &&& s[0] == LBRACE
            &&& s[1] == QUOTE
            &&& s.subrange(2, 2 + n1) == k1
            &&& no_stop(s, 2, 2 + n1)
            &&& s[2 + n1] == QUOTE
            &&& s[3 + n1] == COLON
            &&& tok_at(s, 4 + n1, v1, 4 + n1 + m1)
            &&& s[4 + n1 + m1] == COMMA
            &&& s[5 + n1 + m1] == QUOTE
            &&& s.subrange(6 + n1 + m1, 6 + n1 + m1 + n2) == k2
            &&& no_stop(s, 6 + n1 + m1, 6 + n1 + m1 + n2)
            &&& s[6 + n1 + m1 + n2] == QUOTE
            &&& s[7 + n1 + m1 + n2] == COLON
            &&& tok_at(s, 8 + n1 + m1 + n2, v2, 8 + n1 + m1 + n2 + m2)
            &&& s[8 + n1 + m1 + n2 + m2] == RBRACE
        }),
{
    lemma_obj2_positions(k1, tok_bytes(v1), k2, tok_bytes(v2));
    let n1 = k1.len() as int;
    let m1 = tok_bytes(v1).len() as int;
    let n2 = k2.len() as int;
    let m2 = tok_bytes(v2).len() as int;
    assert forall|k: int| 2 <= k < 2 + n1 implies s[k] != QUOTE && s[k] != BACKSLASH by {
        assert(s.subrange(2, 2 + n1)[k - 2] == s[k]);
        assert(k1[k - 2] != QUOTE && k1[k - 2] != BACKSLASH);
    }
    assert forall|k: int| 6 + n1 + m1 <= k < 6 + n1 + m1 + n2
        implies s[k] != QUOTE && s[k] != BACKSLASH by {
        assert(s.subrange(6 + n1 + m1, 6 + n1 + m1 + n2)[k - 6 - n1 - m1] == s[k]);
        assert(k2[k - 6 - n1 - m1] != QUOTE && k2[k - 6 - n1 - m1] != BACKSLASH);
    }
    assert(tok_at(s, 4 + n1, v1, 4 + n1 + m1)) by {
        assert(s[4 + n1 + m1] == COMMA);
        assert(!is_digit(COMMA));
    }
    assert(tok_at(s, 8 + n1 + m1 + n2, v2, 8 + n1 + m1 + n2 + m2)) by {
        assert(s[8 + n1 + m1 + n2 + m2] == RBRACE);
        assert(!is_digit(RBRACE));
    }
}

/// Assembling a two-field object from the facts a successful parse collects.
pub proof fn lemma_obj2_assemble(s: Seq<u8>, k1: Seq<u8>, v1: Seq<u8>, k2: Seq<u8>, v2: Seq<u8>)
    requires
        ({
            let n1 = k1.len() as int;
            let m1 = v1.len() as int;
            let n2 = k2.len() as int;
            let m2 = v2.len() as int;
            &&& s.len() == 9 + n1 + m1 + n2 + m2
            &&& s[0] == LBRACE
            &&& s[1] == QUOTE
            &&& s.subrange(2, 2 + n1) == k1
            &&& s[2 + n1] == QUOTE
            &&& s[3 + n1] == COLON
            &&& s.subrange(4 + n1, 4 + n1 + m1) == v1
            &&& s[4 + n1 + m1] == COMMA
            &&& s[5 + n1 + m1] == QUOTE
            &&& s.subrange(6 + n1 + m1, 6 + n1 + m1 + n2) == k2
            &&& s[6 + n1 + m1 + n2] == QUOTE
            &&& s[7 + n1 + m1 + n2] == COLON
            &&& s.subrange(8 + n1 + m1 + n2, 8 + n1 + m1 + n2 + m2) == v2
            &&& s[8 + n1 + m1 + n2 + m2] == RBRACE
        }),
    ensures
        s == obj2_bytes(k1, v1, k2, v2),
{
    let t = obj2_bytes(k1, v1, k2, v2);
    let n1 = k1.len() as int;
    let m1 = v1.len() as int;
    let n2 = k2.len() as int;
    let m2 = v2.len() as int;
    lemma_obj2_positions(k1, v1, k2, v2);
    assert forall|x: int| 0 <= x < s.len() implies s[x] == t[x] by {
        if 2 <= x < 2 + n1 {
            assert(s.subrange(2, 2 + n1)[x - 2] == s[x]);
            assert(t.subrange(2, 2 + n1)[x - 2] == t[x]);
        } else if 4 + n1 <= x < 4 + n1 + m1 {
            assert(s.subrange(4 + n1, 4 + n1 + m1)[x - 4 - n1] == s[x]);
            assert(t.subrange(4 + n1, 4 + n1 + m1)[x - 4 - n1] == t[x]);
        } else if 6 + n1 + m1 <= x < 6 + n1 + m1 + n2 {
            assert(s.subrange(6 + n1 + m1, 6 + n1 + m1 + n2)[x - 6 - n1 - m1] == s[x]);
            assert(t.subrange(6 + n1 + m1, 6 + n1 + m1 + n2)[x - 6 - n1 - m1] == t[x]);
        } else if 8 + n1 + m1 + n2 <= x < 8 + n1 + m1 + n2 + m2 {
            assert(s.subrange(8 + n1 + m1 + n2, 8 + n1 + m1 + n2 + m2)[x - 8 - n1 - m1 - n2] == s[x]);
            assert(t.subrange(8 + n1 + m1 + n2, 8 + n1 + m1 + n2 + m2)[x - 8 - n1 - m1 - n2] == t[x]);
        }
    }
    assert(s =~= t);
}

/// An object decomposes in at most one way over two fixed, distinct keys.
pub proof fn lemma_obj2_at_unique(s: Seq<u8>, ka: Seq<u8>, kb: Seq<u8>, va: TokModel, vb: TokModel, va2: TokModel, vb2: TokModel)
    requires
        jstr_ok(ka),
        jstr_ok(kb),
        ka != kb,
        obj2_at(s, ka, kb, va, vb),
        obj2_at(s, ka, kb, va2, vb2),
    ensures
        va == va2,
        vb == vb2,
{
    if obj2_ordered_at(s, ka, va, kb, vb) && obj2_ordered_at(s, ka, va2, kb, vb2) {
        lemma_ordered_same_order(s, ka, va, kb, vb, va2, vb2);
    } else if obj2_ordered_at(s, kb, vb, ka, va) && obj2_ordered_at(s, kb, vb2, ka, va2) {
        lemma_ordered_same_order(s, kb, vb, ka, va, vb2, va2);
    } else if obj2_ordered_at(s, ka, va, kb, vb) && obj2_ordered_at(s, kb, vb2, ka, va2) {
        lemma_ordered_cross_order(s, ka, va, kb, vb, vb2, va2);
    } else {
        lemma_ordered_cross_order(s, kb, vb, ka, va, va2, vb2);
    }
}

/// Two decompositions with the same first key agree on both values.
proof fn lemma_ordered_same_order(s: Seq<u8>, k1: Seq<u8>, v1: TokModel, k2: Seq<u8>, v2: TokModel, w1: TokModel, w2: TokModel)
    requires
        jstr_ok(k1),
        jstr_ok(k2),
        obj2_ordered_at(s, k1, v1, k2, v2),
        obj2_ordered_at(s, k1, w1, k2, w2),
    ensures
        v1 == w1,
        v2 == w2,
{
    lemma_ordered_facts(s, k1, v1, k2, v2);
    lemma_ordered_facts(s, k1, w1, k2, w2);
    let n1 = k1.len() as int;
    lemma_tok_at_unique(s, 4 + n1, v1, 4 + n1 + tok_bytes(v1).len() as int, w1, 4 + n1 + tok_bytes(w1).len() as int);
    let m1 = tok_bytes(v1).len() as int;
    let n2 = k2.len() as int;
    lemma_tok_at_unique(
        s,
        8 + n1 + m1 + n2,
        v2,
        8 + n1 + m1 + n2 + tok_bytes(v2).len() as int,
        w2,
        8 + n1 + m1 + n2 + tok_bytes(w2).len() as int,
    );
}

/// Decompositions with swapped key orders force the two keys to coincide:
/// the first key of the object is unambiguous.
proof fn lemma_ordered_cross_order(s: Seq<u8>, k1: Seq<u8>, v1: TokModel, k2: Seq<u8>, v2: TokModel, w1: TokModel, w2: TokModel)
    requires
        jstr_ok(k1),
        jstr_ok(k2),
        obj2_ordered_at(s, k1, v1, k2, v2),
        obj2_ordered_at(s, k2, w1, k1, w2),
    ensures
        k1 == k2,
{
    lemma_ordered_facts(s, k1, v1, k2, v2);
    lemma_ordered_facts(s, k2, w1, k1, w2);
    let n1 = k1.len() as int;
    let n2 = k2.len() as int;
    lemma_first_quote_unique(s, 2, 2 + n1, 2 + n2);
    assert(k1 =~= k2) by {
        assert(forall|x: int| 0 <= x < n1
            ==> #[trigger] k1[x] == s.subrange(2, 2 + n1)[x] && k2[x] == s.subrange(2, 2 + n2)[x]);
    }
}

/// Parse an object of exactly two fields with the given distinct keys, in
/// either order; the values come back in `(ka, kb)` order.
#[verifier::rlimit(100)]
#[verifier::spinoff_prover]
pub fn parse_obj2(s: &Vec<u8>, ka: &Vec<u8>, kb: &Vec<u8>) -> (r: Option<(Tok, Tok)>)
    requires
        jstr_ok(ka@),
        jstr_ok(kb@),
        ka@ != kb@,
    ensures
        r matches Some(p) ==> obj2_at(s@, ka@, kb@, p.0@, p.1@),
        r is None ==> !(exists|va: TokModel, vb: TokModel| obj2_at(s@, ka@, kb@, va, vb)),
{
    let n = s.len();
    if n < 2 || s[0] != LBRACE || s[1] != QUOTE {
        proof {
            if exists|va: TokModel, vb: TokModel| obj2_at(s@, ka@, kb@, va, vb) {
                let (va, vb): (TokModel, TokModel) =
                    choose|va: TokModel, vb: TokModel| obj2_at(s@, ka@, kb@, va, vb);
                if obj2_ordered_at(s@, ka@, va, kb@, vb) {
                    lemma_ordered_facts(s@, ka@, va, kb@, vb);
                } else {
                    lemma_ordered_facts(s@, kb@, vb, ka@, va);
                }
                assert(false);
            }
        }
        return None;
    }
    let j1 = match scan_string(s, 2) {
        Some(j) => j,
        None => {
            proof {
                if exists|va: TokModel, vb: TokModel| obj2_at(s@, ka@, kb@, va, vb) {
                    let (va, vb): (TokModel, TokModel) =
                        choose|va: TokModel, vb: TokModel| obj2_at(s@, ka@, kb@, va, vb);
                    if obj2_ordered_at(s@, ka@, va, kb@, vb) {
                        lemma_ordered_facts(s@, ka@, va, kb@, vb);
                        assert(s@[2 + ka@.len() as int] == QUOTE && no_stop(s@, 2, 2 + ka@.len() as int));
                    } else {
                        lemma_ordered_facts(s@, kb@, vb, ka@, va);
                        assert(s@[2 + kb@.len() as int] == QUOTE && no_stop(s@, 2, 2 + kb@.len() as int));
                    }
                    assert(false);
                }
            }
            return None;
        },
    };
    if !(j1 + 1 < n && s[j1 + 1] == COLON) {
        proof {
            if exists|va: TokModel, vb: TokModel| obj2_at(s@, ka@, kb@, va, vb) {
                let (va, vb): (TokModel, TokModel) =
                    choose|va: TokModel, vb: TokModel| obj2_at(s@, ka@, kb@, va, vb);
                if obj2_ordered_at(s@, ka@, va, kb@, vb) {
                    lemma_ordered_facts(s@, ka@, va, kb@, vb);
                    lemma_first_quote_unique(s@, 2, j1 as int, 2 + ka@.len() as int);
                } else {
                    lemma_ordered_facts(s@, kb@, vb, ka@, va);
                    lemma_first_quote_unique(s@, 2, j1 as int, 2 + kb@.len() as int);
                }
                assert(false);
            }
        }
        return None;
    }
    let (tok1, p1) = match parse_tok(s, j1 + 2) {
        Some(t) => t,
        None => {
            proof {
                if exists|va: TokModel, vb: TokModel| obj2_at(s@, ka@, kb@, va, vb) {
                    let (va, vb): (TokModel, TokModel) =
                        choose|va: TokModel, vb: TokModel| obj2_at(s@, ka@, kb@, va, vb);
                    if obj2_ordered_at(s@, ka@, va, kb@, vb) {
                        lemma_ordered_facts(s@, ka@, va, kb@, vb);
                        lemma_first_quote_unique(s@, 2, j1 as int, 2 + ka@.len() as int);
                        assert(tok_at(s@, j1 + 2, va, 4 + ka@.len() as int + tok_bytes(va).len() as int));
                    } else {
                        lemma_ordered_facts(s@, kb@, vb, ka@, va);
                        lemma_first_quote_unique(s@, 2, j1 as int, 2 + kb@.len() as int);
                        assert(tok_at(s@, j1 + 2, vb, 4 + kb@.len() as int + tok_bytes(vb).len() as int));
                    }
                    assert(false);
                }
            }
            return None;
        },
    };
    if !(p1 < n && s[p1] == COMMA && p1 + 1 < n && s[p1 + 1] == QUOTE) {
        proof {
            if exists|va: TokModel, vb: TokModel| obj2_at(s@, ka@, kb@, va, vb) {
                let (va, vb): (TokModel, TokModel) =
                    choose|va: TokModel, vb: TokModel| obj2_at(s@, ka@, kb@, va, vb);
                if obj2_ordered_at(s@, ka@, va, kb@, vb) {
                    lemma_ordered_facts(s@, ka@, va, kb@, vb);
                    lemma_first_quote_unique(s@, 2, j1 as int, 2 + ka@.len() as int);
                    lemma_tok_at_unique(s@, j1 + 2, tok1@, p1 as int, va,
                        4 + ka@.len() as int + tok_bytes(va).len() as int);
                } else {
                    lemma_ordered_facts(s@, kb@, vb, ka@, va);
                    lemma_first_quote_unique(s@, 2, j1 as int, 2 + kb@.len() as int);
                    lemma_tok_at_unique(s@, j1 + 2, tok1@, p1 as int, vb,
                        4 + kb@.len() as int + tok_bytes(vb).len() as int);
                }
                assert(false);
            }
        }
        return None;
    }
    let j2 = match scan_string(s, p1 + 2) {
        Some(j) => j,
        None => {
            proof {
                if exists|va: TokModel, vb: TokModel| obj2_at(s@, ka@, kb@, va, vb) {
                    let (va, vb): (TokModel, TokModel) =
                        choose|va: TokModel, vb: TokModel| obj2_at(s@, ka@, kb@, va, vb);
                    if obj2_ordered_at(s@, ka@, va, kb@, vb) {
                        lemma_ordered_facts(s@, ka@, va, kb@, vb);
                        lemma_first_quote_unique(s@, 2, j1 as int, 2 + ka@.len() as int);
                        lemma_tok_at_unique(s@, j1 + 2, tok1@, p1 as int, va,
                            4 + ka@.len() as int + tok_bytes(va).len() as int);
                    } else {
                        lemma_ordered_facts(s@, kb@, vb, ka@, va);
                        lemma_first_quote_unique(s@, 2, j1 as int, 2 + kb@.len() as int);
                        lemma_tok_at_unique(s@, j1 + 2, tok1@, p1 as int, vb,
                            4 + kb@.len() as int + tok_bytes(vb).len() as int);
                    }
                    assert(false);
                }
            }
            return None;
        },
    };
    if !(j2 + 1 < n && s[j2 + 1] == COLON) {
        proof {
            if exists|va: TokModel, vb: TokModel| obj2_at(s@, ka@, kb@, va, vb) {
                let (va, vb): (TokModel, TokModel) =
                    choose|va: TokModel, vb: TokModel| obj2_at(s@, ka@, kb@, va, vb);
                if obj2_ordered_at(s@, ka@, va, kb@, vb) {
                    lemma_ordered_facts(s@, ka@, va, kb@, vb);
                    lemma_first_quote_unique(s@, 2, j1 as int, 2 + ka@.len() as int);
                    lemma_tok_at_unique(s@, j1 + 2, tok1@, p1 as int, va,
                        4 + ka@.len() as int + tok_bytes(va).len() as int);
                    lemma_first_quote_unique(s@, p1 + 2, j2 as int,
                        6 + ka@.len() as int + tok_bytes(va).len() as int + kb@.len() as int);
                } else {
                    lemma_ordered_facts(s@, kb@, vb, ka@, va);
                    lemma_first_quote_unique(s@, 2, j1 as int, 2 + kb@.len() as int);
                    lemma_tok_at_unique(s@, j1 + 2, tok1@, p1 as int, vb,
                        4 + kb@.len() as int + tok_bytes(vb).len() as int);
                    lemma_first_quote_unique(s@, p1 + 2, j2 as int,
                        6 + kb@.len() as int + tok_bytes(vb).len() as int + ka@.len() as int);
                }
                assert(false);
            }
        }
        return None;
    }
    let (tok2, p2) = match parse_tok(s, j2 + 2) {
        Some(t) => t,
        None => {
            proof {
                if exists|va: TokModel, vb: TokModel| obj2_at(s@, ka@, kb@, va, vb) {
                    let (va, vb): (TokModel, TokModel) =
                        choose|va: TokModel, vb: TokModel| obj2_at(s@, ka@, kb@, va, vb);
                    if obj2_ordered_at(s@, ka@, va, kb@, vb) {
                        lemma_ordered_facts(s@, ka@, va, kb@, vb);
                        lemma_first_quote_unique(s@, 2, j1 as int, 2 + ka@.len() as int);
                        lemma_tok_at_unique(s@, j1 + 2, tok1@, p1 as int, va,
                            4 + ka@.len() as int + tok_bytes(va).len() as int);
                        lemma_first_quote_unique(s@, p1 + 2, j2 as int,
                            6 + ka@.len() as int + tok_bytes(va).len() as int + kb@.len() as int);
                        assert(tok_at(s@, j2 + 2, vb,
                            8 + ka@.len() as int + tok_bytes(va).len() as int + kb@.len() as int + tok_bytes(vb).len() as int));
                    } else {
                        lemma_ordered_facts(s@, kb@, vb, ka@, va);
                        lemma_first_quote_unique(s@, 2, j1 as int, 2 + kb@.len() as int);
                        lemma_tok_at_unique(s@, j1 + 2, tok1@, p1 as int, vb,
                            4 + kb@.len() as int + tok_bytes(vb).len() as int);
                        lemma_first_quote_unique(s@, p1 + 2, j2 as int,
                            6 + kb@.len() as int + tok_bytes(vb).len() as int + ka@.len() as int);
                        assert(tok_at(s@, j2 + 2, va,
                            8 + kb@.len() as int + tok_bytes(vb).len() as int + ka@.len() as int + tok_bytes(va).len() as int));
                    }
                    assert(false);
                }
            }
            return None;
        },
    };
    if !(p2 < n && s[p2] == RBRACE && p2 + 1 == n) {
        proof {
            if exists|va: TokModel, vb: TokModel| obj2_at(s@, ka@, kb@, va, vb) {
                let (va, vb): (TokModel, TokModel) =
                    choose|va: TokModel, vb: TokModel| obj2_at(s@, ka@, kb@, va, vb);
                if obj2_ordered_at(s@, ka@, va, kb@, vb) {
                    lemma_ordered_facts(s@, ka@, va, kb@, vb);
                    lemma_first_quote_unique(s@, 2, j1 as int, 2 + ka@.len() as int);
                    lemma_tok_at_unique(s@, j1 + 2, tok1@, p1 as int, va,
                        4 + ka@.len() as int + tok_bytes(va).len() as int);
                    lemma_first_quote_unique(s@, p1 + 2, j2 as int,
                        6 + ka@.len() as int + tok_bytes(va).len() as int + kb@.len() as int);
                    lemma_tok_at_unique(s@, j2 + 2, tok2@, p2 as int, vb,
                        8 + ka@.len() as int + tok_bytes(va).len() as int + kb@.len() as int + tok_bytes(vb).len() as int);
                } else {
                    lemma_ordered_facts(s@, kb@, vb, ka@, va);
                    lemma_first_quote_unique(s@, 2, j1 as int, 2 + kb@.len() as int);
                    lemma_tok_at_unique(s@, j1 + 2, tok1@, p1 as int, vb,
                        4 + kb@.len() as int + tok_bytes(vb).len() as int);
                    lemma_first_quote_unique(s@, p1 + 2, j2 as int,
                        6 + kb@.len() as int + tok_bytes(vb).len() as int + ka@.len() as int);
                    lemma_tok_at_unique(s@, j2 + 2, tok2@, p2 as int, va,
                        8 + kb@.len() as int + tok_bytes(vb).len() as int + ka@.len() as int + tok_bytes(va).len() as int);
                }
                assert(false);
            }
        }
        return None;
    }
    let first_is_ka = range_eq(s, 2, j1, ka);
    let first_is_kb = range_eq(s, 2, j1, kb);
    let second_is_ka = range_eq(s, p1 + 2, j2, ka);
    let second_is_kb = range_eq(s, p1 + 2, j2, kb);
    proof {
        assert(s@.subrange(j1 + 2, p1 as int) == tok_bytes(tok1@));
        assert(s@.subrange(j2 + 2, p2 as int) == tok_bytes(tok2@));
    }
    if first_is_ka && second_is_kb {
        proof {
            lemma_obj2_assemble(s@, ka@, tok_bytes(tok1@), kb@, tok_bytes(tok2@));
        }
        Some((tok1, tok2))
    } else if first_is_kb && second_is_ka {
        proof {
            lemma_obj2_assemble(s@, kb@, tok_bytes(tok1@), ka@, tok_bytes(tok2@));
        }
        Some((tok2, tok1))
    } else {
        proof {
            if exists|va: TokModel, vb: TokModel| obj2_at(s@, ka@, kb@, va, vb) {
                let (va, vb): (TokModel, TokModel) =
                    choose|va: TokModel, vb: TokModel| obj2_at(s@, ka@, kb@, va, vb);
                if obj2_ordered_at(s@, ka@, va, kb@, vb) {
                    lemma_ordered_facts(s@, ka@, va, kb@, vb);
                    lemma_first_quote_unique(s@, 2, j1 as int, 2 + ka@.len() as int);
                    lemma_tok_at_unique(s@, j1 + 2, tok1@, p1 as int, va,
                        4 + ka@.len() as int + tok_bytes(va).len() as int);
                    lemma_first_quote_unique(s@, p1 + 2, j2 as int,
                        6 + ka@.len() as int + tok_bytes(va).len() as int + kb@.len() as int);
                    assert(s@.subrange(2, j1 as int) == ka@);
                    assert(s@.subrange(p1 + 2, j2 as int) == kb@);
                } else {
                    lemma_ordered_facts(s@, kb@, vb, ka@, va);
                    lemma_first_quote_unique(s@, 2, j1 as int, 2 + kb@.len() as int);
                    lemma_tok_at_unique(s@, j1 + 2, tok1@, p1 as int, vb,
                        4 + kb@.len() as int + tok_bytes(vb).len() as int);
                    lemma_first_quote_unique(s@, p1 + 2, j2 as int,
                        6 + kb@.len() as int + tok_bytes(vb).len() as int + ka@.len() as int);
                    assert(s@.subrange(2, j1 as int) == kb@);
                    assert(s@.subrange(p1 + 2, j2 as int) == ka@);
                }
                assert(false);
            }
        }
        None
    }
}

} // verus!
