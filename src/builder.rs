use vstd::prelude::*;

use crate::error::{Error, ErrorType};
use crate::node::Node;
use crate::borrowed::{BorrowedStr, BorrowedValue};
use crate::value::OwnedValue;

verus! {

broadcast use {
    vstd::std_specs::vec::axiom_vec_decreases_to_view,
    vstd::std_specs::vec::axiom_vec_index_decreases,
};

/// Where the value that starts at `pos` ends, when the tape holds a whole
/// value there, nested at most `fuel` deep: a scalar or a string is one
/// node; a container start is followed by its children, each object child
/// a string key node and then its value, and its `end` is exactly the
/// index past its last child.
pub open spec fn value_end(tape: Seq<Node>, pos: int, fuel: nat) -> Option<int>
    decreases fuel, 0int, 0int,
{
    if fuel == 0 || pos < 0 || pos >= tape.len() {
        None
    } else {
        match tape[pos] {
            Node::Static(_) => Some(pos + 1),
            Node::String(_) => Some(pos + 1),
            Node::Array { len, end } => match nth_start(tape, pos + 1, len as nat, (fuel - 1) as nat, false) {
                Some(e) => if e == end {
                    Some(e)
                } else {
                    None
                },
                None => None,
            },
            Node::Object { len, end } => match nth_start(tape, pos + 1, len as nat, (fuel - 1) as nat, true) {
                Some(e) => if e == end {
                    Some(e)
                } else {
                    None
                },
                None => None,
            },
        }
    }
}

/// Where the `k`-th child of a container starts (or, for `k` equal to its
/// length, where the container ends), its first child starting at `first`.
pub open spec fn nth_start(tape: Seq<Node>, first: int, k: nat, fuel: nat, keyed: bool) -> Option<int>
    decreases fuel, k, 1int,
{
    if k == 0 {
        Some(first)
    } else {
        match nth_start(tape, first, (k - 1) as nat, fuel, keyed) {
            Some(p) => if keyed {
                if 0 <= p < tape.len() && tape[p] is String {
                    value_end(tape, p + 1, fuel)
                } else {
                    None
                }
            } else {
                value_end(tape, p, fuel)
            },
            None => None,
        }
    }
}

/// The text of the string node at `p`, if there is one.
pub open spec fn key_at(tape: Seq<Node>, p: int) -> Option<Seq<char>> {
    if 0 <= p < tape.len() {
        match tape[p] {
            Node::String(s) => Some(s@),
            _ => None,
        }
    } else {
        None
    }
}

/// `v` is the tree of the value that starts at `pos`: scalars and strings
/// as their nodes hold them, children and object entries in tape order.
pub open spec fn builds(tape: Seq<Node>, pos: int, fuel: nat, v: OwnedValue) -> bool
    decreases v,
{
    &&& value_end(tape, pos, fuel) is Some
    &&& match tape[pos] {
        Node::Static(n) => v == OwnedValue::Static(n),
        Node::String(s) => v matches OwnedValue::String(t) && s@ == t@,
        Node::Array { len, end: _ } => match v {
            OwnedValue::Array(a) => a@.len() == len && forall|k: int|
                0 <= k < len ==> builds(
                    tape,
                    nth_start(tape, pos + 1, k as nat, (fuel - 1) as nat, false)->Some_0,
                    (fuel - 1) as nat,
                    #[trigger] a@[k],
                ),
            _ => false,
        },
        Node::Object { len, end: _ } => match v {
            OwnedValue::Object(o) => o@.len() == len && forall|k: int|
                0 <= k < len ==> {
                    let p = nth_start(tape, pos + 1, k as nat, (fuel - 1) as nat, true)->Some_0;
                    &&& key_at(tape, p) == Some((#[trigger] o@[k]).0@)
                    &&& builds(tape, p + 1, (fuel - 1) as nat, o@[k].1)
                },
            _ => false,
        },
    }
}

proof fn lemma_nth_start_none(tape: Seq<Node>, first: int, k: nat, m: nat, fuel: nat, keyed: bool)
    requires
        k <= m,
        nth_start(tape, first, k, fuel, keyed) is None,
    ensures
        nth_start(tape, first, m, fuel, keyed) is None,
    decreases m - k,
{
    if k < m {
        lemma_nth_start_none(tape, first, k, (m - 1) as nat, fuel, keyed);
    }
}

/// Builds the tree of the value at `pos`, and says where it ends.
pub(crate) fn build_at<'de>(tape: &Vec<Node<'de>>, pos: usize, fuel: usize) -> (r: Result<(OwnedValue, usize), Error>)
    ensures
        match value_end(tape@, pos as int, fuel as nat) {
            Some(e) => r matches Ok((v, n)) && n == e && builds(tape@, pos as int, fuel as nat, v),
            None => r is Err,
        },
    decreases fuel,
{
    if fuel == 0 || pos >= tape.len() {
        return Err(Error::new(pos, ErrorType::UnexpectedEnd));
    }
    match tape[pos] {
        Node::Static(n) => Ok((OwnedValue::Static(n), pos + 1)),
        Node::String(s) => Ok((OwnedValue::String(s.to_owned()), pos + 1)),
        Node::Array { len, end } => {
            let ghost g = tape@;
            let mut out: Vec<OwnedValue> = Vec::new();
            let mut cur: usize = pos + 1;
            let mut k: usize = 0;
            while k < len
                invariant
                    g == tape@,
                    pos < g.len(),
                    fuel > 0,
                    g[pos as int] matches Node::Array { len: l, end: n } && l == len && n == end,
                    k <= len,
                    out@.len() == k,
                    nth_start(g, pos + 1, k as nat, (fuel - 1) as nat, false) == Some(cur as int),
                    forall|j: int|
                        0 <= j < k ==> builds(
                            g,
                            nth_start(g, pos + 1, j as nat, (fuel - 1) as nat, false)->Some_0,
                            (fuel - 1) as nat,
                            #[trigger] out@[j],
                        ),
                decreases len - k,
            {
                match build_at(tape, cur, fuel - 1) {
                    Ok((v, n)) => {
                        out.push(v);
                        cur = n;
                    },
                    Err(e) => {
                        proof {
                            lemma_nth_start_none(g, pos + 1, (k + 1) as nat, len as nat, (fuel - 1) as nat, false);
                        }
                        return Err(e);
                    },
                }
                k = k + 1;
            }
            if cur != end {
                return Err(Error::new(pos, ErrorType::Syntax));
            }
            let v = OwnedValue::Array(out);
            proof {
                assert(builds(g, pos as int, fuel as nat, v));
            }
            Ok((v, cur))
        },
        Node::Object { len, end } => {
            let ghost g = tape@;
            let mut out: Vec<(String, OwnedValue)> = Vec::new();
            let mut cur: usize = pos + 1;
            let mut k: usize = 0;
            while k < len
                invariant
                    g == tape@,
                    pos < g.len(),
                    fuel > 0,
                    g[pos as int] matches Node::Object { len: l, end: n } && l == len && n == end,
                    k <= len,
                    out@.len() == k,
                    nth_start(g, pos + 1, k as nat, (fuel - 1) as nat, true) == Some(cur as int),
                    forall|j: int|
                        0 <= j < k ==> {
                            let p = nth_start(g, pos + 1, j as nat, (fuel - 1) as nat, true)->Some_0;
                            &&& key_at(g, p) == Some((#[trigger] out@[j]).0@)
                            &&& builds(g, p + 1, (fuel - 1) as nat, out@[j].1)
                        },
                decreases len - k,
            {
                let key = if cur < tape.len() {
                    match tape[cur] {
                        Node::String(s) => {
                            let owned = s.to_owned();
                            Some(owned)
                        },
                        _ => None,
                    }
                } else {
                    None
                };
                match key {
                    Some(key) => {
                        assert(key_at(g, cur as int) == Some(key@));
                        match build_at(tape, cur + 1, fuel - 1) {
                            Ok((v, n)) => {
                                out.push((key, v));
                                cur = n;
                            },
                            Err(e) => {
                                proof {
                                    lemma_nth_start_none(g, pos + 1, (k + 1) as nat, len as nat, (fuel - 1) as nat, true);
                                }
                                return Err(e);
                            },
                        }
                    },
                    None => {
                        proof {
                            lemma_nth_start_none(g, pos + 1, (k + 1) as nat, len as nat, (fuel - 1) as nat, true);
                        }
                        return Err(Error::new(cur, ErrorType::Syntax));
                    },
                }
                k = k + 1;
            }
            if cur != end {
                return Err(Error::new(pos, ErrorType::Syntax));
            }
            let v = OwnedValue::Object(out);
            proof {
                assert(builds(g, pos as int, fuel as nat, v));
            }
            Ok((v, cur))
        },
    }
}

/// `v` is the borrowed tree of the value that starts at `pos`, its strings
/// and keys borrowing the tape's text: scalars and strings
/// as their nodes hold them, children and object entries in tape order.
pub open spec fn borrowed_builds<'de>(tape: Seq<Node<'de>>, pos: int, fuel: nat, v: BorrowedValue<'de>) -> bool
    decreases v,
{
    &&& value_end(tape, pos, fuel) is Some
    &&& match tape[pos] {
        Node::Static(n) => v == BorrowedValue::Static(n),
        Node::String(s) => v == BorrowedValue::String(BorrowedStr::Borrowed(s)),
        Node::Array { len, end: _ } => match v {
            BorrowedValue::Array(a) => a@.len() == len && forall|k: int|
                0 <= k < len ==> borrowed_builds(
                    tape,
                    nth_start(tape, pos + 1, k as nat, (fuel - 1) as nat, false)->Some_0,
                    (fuel - 1) as nat,
                    #[trigger] a@[k],
                ),
            _ => false,
        },
        Node::Object { len, end: _ } => match v {
            BorrowedValue::Object(o) => o@.len() == len && forall|k: int|
                0 <= k < len ==> {
                    let p = nth_start(tape, pos + 1, k as nat, (fuel - 1) as nat, true)->Some_0;
                    &&& key_at(tape, p) == Some((#[trigger] o@[k]).0@)
                    &&& borrowed_builds(tape, p + 1, (fuel - 1) as nat, o@[k].1)
                },
            _ => false,
        },
    }
}

/// Builds the borrowed tree of the value at `pos`, and says where it ends.
pub(crate) fn borrowed_build_at<'de>(tape: &Vec<Node<'de>>, pos: usize, fuel: usize) -> (r: Result<(BorrowedValue<'de>, usize), Error>)
    ensures
        match value_end(tape@, pos as int, fuel as nat) {
            Some(e) => r matches Ok((v, n)) && n == e && borrowed_builds(tape@, pos as int, fuel as nat, v),
            None => r is Err,
        },
    decreases fuel,
{
    if fuel == 0 || pos >= tape.len() {
        return Err(Error::new(pos, ErrorType::UnexpectedEnd));
    }
    match tape[pos] {
        Node::Static(n) => Ok((BorrowedValue::Static(n), pos + 1)),
        Node::String(s) => Ok((BorrowedValue::String(BorrowedStr::Borrowed(s)), pos + 1)),
        Node::Array { len, end } => {
            let ghost g = tape@;
            let mut out: Vec<BorrowedValue<'de>> = Vec::new();
            let mut cur: usize = pos + 1;
            let mut k: usize = 0;
            while k < len
                invariant
                    g == tape@,
                    pos < g.len(),
                    fuel > 0,
                    g[pos as int] matches Node::Array { len: l, end: n } && l == len && n == end,
                    k <= len,
                    out@.len() == k,
                    nth_start(g, pos + 1, k as nat, (fuel - 1) as nat, false) == Some(cur as int),
                    forall|j: int|
                        0 <= j < k ==> borrowed_builds(
                            g,
                            nth_start(g, pos + 1, j as nat, (fuel - 1) as nat, false)->Some_0,
                            (fuel - 1) as nat,
                            #[trigger] out@[j],
                        ),
                decreases len - k,
            {
                match borrowed_build_at(tape, cur, fuel - 1) {
                    Ok((v, n)) => {
                        out.push(v);
                        cur = n;
                    },
                    Err(e) => {
                        proof {
                            lemma_nth_start_none(g, pos + 1, (k + 1) as nat, len as nat, (fuel - 1) as nat, false);
                        }
                        return Err(e);
                    },
                }
                k = k + 1;
            }
            if cur != end {
                return Err(Error::new(pos, ErrorType::Syntax));
            }
            let v = BorrowedValue::Array(out);
            proof {
                assert(borrowed_builds(g, pos as int, fuel as nat, v));
            }
            Ok((v, cur))
        },
        Node::Object { len, end } => {
            let ghost g = tape@;
            let mut out: Vec<(BorrowedStr<'de>, BorrowedValue<'de>)> = Vec::new();
            let mut cur: usize = pos + 1;
            let mut k: usize = 0;
            while k < len
                invariant
                    g == tape@,
                    pos < g.len(),
                    fuel > 0,
                    g[pos as int] matches Node::Object { len: l, end: n } && l == len && n == end,
                    k <= len,
                    out@.len() == k,
                    nth_start(g, pos + 1, k as nat, (fuel - 1) as nat, true) == Some(cur as int),
                    forall|j: int|
                        0 <= j < k ==> {
                            let p = nth_start(g, pos + 1, j as nat, (fuel - 1) as nat, true)->Some_0;
                            &&& key_at(g, p) == Some((#[trigger] out@[j]).0@)
                            &&& borrowed_builds(g, p + 1, (fuel - 1) as nat, out@[j].1)
                        },
                decreases len - k,
            {
                let key = if cur < tape.len() {
                    match tape[cur] {
                        Node::String(s) => {
                            Some(BorrowedStr::Borrowed(s))
                        },
                        _ => None,
                    }
                } else {
                    None
                };
                match key {
                    Some(key) => {
                        assert(key_at(g, cur as int) == Some(key@));
                        match borrowed_build_at(tape, cur + 1, fuel - 1) {
                            Ok((v, n)) => {
                                out.push((key, v));
                                cur = n;
                            },
                            Err(e) => {
                                proof {
                                    lemma_nth_start_none(g, pos + 1, (k + 1) as nat, len as nat, (fuel - 1) as nat, true);
                                }
                                return Err(e);
                            },
                        }
                    },
                    None => {
                        proof {
                            lemma_nth_start_none(g, pos + 1, (k + 1) as nat, len as nat, (fuel - 1) as nat, true);
                        }
                        return Err(Error::new(cur, ErrorType::Syntax));
                    },
                }
                k = k + 1;
            }
            if cur != end {
                return Err(Error::new(pos, ErrorType::Syntax));
            }
            let v = BorrowedValue::Object(out);
            proof {
                assert(borrowed_builds(g, pos as int, fuel as nat, v));
            }
            Ok((v, cur))
        },
    }
}

} // verus!
