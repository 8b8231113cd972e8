use vstd::prelude::*;

use crate::error::{Error, ErrorType};
use crate::borrowed::BorrowedValue;
use crate::builder::{borrowed_build_at, borrowed_builds, build_at, builds, value_end};
use crate::node::{Node, StaticNode};
use crate::value::OwnedValue;

verus! {

/// A cursor over a tape. `idx` counts the nodes already consumed: `next`
/// hands out `tape[idx]` and moves past it, `peek` reads it in place.
pub struct Deserializer<'de> {
    tape: Vec<Node<'de>>,
    idx: usize,
}

/// The integer of a scalar node, if it is one and lies in `lo..=hi`.
pub open spec fn int_in(n: Node, lo: int, hi: int) -> Option<int> {
    match n {
        Node::Static(s) => match s.int_value() {
            Some(v) => if lo <= v <= hi {
                Some(v)
            } else {
                None
            },
            None => None,
        },
        _ => None,
    }
}

impl<'de> Deserializer<'de> {
    /// The nodes of the tape.
    pub closed spec fn tape_view(&self) -> Seq<Node<'de>> {
        self.tape@
    }

    /// How many nodes have been consumed.
    pub closed spec fn cursor(&self) -> int {
        self.idx as int
    }

    /// A walker at the start of `tape`.
    pub fn new(tape: Vec<Node<'de>>) -> (r: Deserializer<'de>)
        ensures
            r.tape_view() == tape@,
            r.cursor() == 0,
    {
        Deserializer { tape, idx: 0 }
    }

    /// How many nodes have been consumed.
    pub fn position(&self) -> (r: usize)
        ensures
            r == self.cursor(),
    {
        self.idx
    }

    /// Moves the cursor forward by one and returns the node it passes; past
    /// the end of the tape fails with `UnexpectedEnd`.
    pub fn next(&mut self) -> (r: Result<Node<'de>, Error>)
        requires
            old(self).cursor() < usize::MAX,
        ensures
            final(self).tape_view() == old(self).tape_view(),
            final(self).cursor() == old(self).cursor() + 1,
            old(self).cursor() < old(self).tape_view().len() ==> r == Ok::<Node<'de>, Error>(
                old(self).tape_view()[old(self).cursor()],
            ),
            old(self).cursor() >= old(self).tape_view().len() ==> r == Err::<Node<'de>, Error>(
                Error { index: old(self).cursor() as usize, error: ErrorType::UnexpectedEnd },
            ),
    {
        let at = self.idx;
        self.idx = self.idx + 1;
        if at < self.tape.len() {
            Ok(self.tape[at])
        } else {
            Err(Error::new(at, ErrorType::UnexpectedEnd))
        }
    }

    /// The node that `next` would return, without moving.
    pub fn peek(&self) -> (r: Result<Node<'de>, Error>)
        ensures
            self.cursor() < self.tape_view().len() ==> r == Ok::<Node<'de>, Error>(
                self.tape_view()[self.cursor()],
            ),
            self.cursor() >= self.tape_view().len() ==> r == Err::<Node<'de>, Error>(
                Error { index: self.cursor() as usize, error: ErrorType::UnexpectedEnd },
            ),
    {
        if self.idx < self.tape.len() {
            Ok(self.tape[self.idx])
        } else {
            Err(Error::new(self.idx, ErrorType::UnexpectedEnd))
        }
    }

    /// Takes the next node as an integer within `lo..=hi`, failing with
    /// `kind` when it is no such integer.
    fn next_int(&mut self, lo: i128, hi: u128, kind: ErrorType) -> (r: Result<(bool, u128), Error>)
        requires
            lo <= 0,
            old(self).cursor() < usize::MAX,
        ensures
            final(self).tape_view() == old(self).tape_view(),
            final(self).cursor() == old(self).cursor() + 1,
            old(self).cursor() >= old(self).tape_view().len() ==> r == Err::<(bool, u128), Error>(
                Error { index: old(self).cursor() as usize, error: ErrorType::UnexpectedEnd },
            ),
            old(self).cursor() < old(self).tape_view().len() ==> match int_in(
                old(self).tape_view()[old(self).cursor()],
                lo as int,
                hi as int,
            ) {
                Some(v) => r matches Ok((neg, m)) && (if neg {
                    v == -(m as int) && v < 0
                } else {
                    v == m as int
                }),
                None => r == Err::<(bool, u128), Error>(
                    Error { index: old(self).cursor() as usize, error: kind },
                ),
            },
    {
        let at = self.idx;
        match self.next() {
            Ok(Node::Static(s)) => {
                match s.as_u128() {
                    Some(m) => if m <= hi {
                        return Ok((false, m));
                    } else {
                        return Err(Error::new(at, kind));
                    },
                    None => {},
                }
                match s.as_i128() {
                    Some(v) => if lo <= v {
                        // v is negative here: its magnitude fits u128
                        Ok((true, (-(v + 1)) as u128 + 1))
                    } else {
                        Err(Error::new(at, kind))
                    },
                    None => Err(Error::new(at, kind)),
                }
            },
            Ok(_) => Err(Error::new(at, kind)),
            Err(e) => Err(e),
        }
    }
}

impl<'de> Deserializer<'de> {
    /// Consumes the value that starts at the cursor and returns its tree.
    /// It fails, and the cursor stays, when no whole value starts there.
    /// Object entries come in tape order, a repeated key included, so the
    /// tree satisfies `wf` exactly when the tape's keys are distinct.
    pub fn to_owned_value(&mut self) -> (r: Result<OwnedValue, Error>)
        ensures
            final(self).tape_view() == old(self).tape_view(),
            match value_end(old(self).tape_view(), old(self).cursor(), old(self).tape_view().len()) {
                Some(e) => r matches Ok(v) && builds(
                    old(self).tape_view(),
                    old(self).cursor(),
                    old(self).tape_view().len(),
                    v,
                ) && final(self).cursor() == e,
                None => r is Err && final(self).cursor() == old(self).cursor(),
            },
    {
        match build_at(&self.tape, self.idx, self.tape.len()) {
            Ok((v, n)) => {
                self.idx = n;
                Ok(v)
            },
            Err(e) => Err(e),
        }
    }
}

impl<'de> Deserializer<'de> {
    /// Consumes the value that starts at the cursor and returns its tree,
    /// whose strings and keys borrow the tape's text. It fails, and the
    /// cursor stays, when no whole value starts there.
    pub fn to_borrowed_value(&mut self) -> (r: Result<BorrowedValue<'de>, Error>)
        ensures
            final(self).tape_view() == old(self).tape_view(),
            match value_end(old(self).tape_view(), old(self).cursor(), old(self).tape_view().len()) {
                Some(e) => r matches Ok(v) && borrowed_builds(
                    old(self).tape_view(),
                    old(self).cursor(),
                    old(self).tape_view().len(),
                    v,
                ) && final(self).cursor() == e,
                None => r is Err && final(self).cursor() == old(self).cursor(),
            },
    {
        match borrowed_build_at(&self.tape, self.idx, self.tape.len()) {
            Ok((v, n)) => {
                self.idx = n;
                Ok(v)
            },
            Err(e) => Err(e),
        }
    }
}

/// Where the cursor stands after skipping the value whose first node is `n`
/// at `at`: past a container's `end`, or past the node itself.
pub open spec fn skip_target(n: Node, at: int) -> int {
    match n {
        Node::Array { len: _, end } => end as int,
        Node::Object { len: _, end } => end as int,
        _ => at + 1,
    }
}

impl<'de> Deserializer<'de> {
    /// Skips the value at the cursor without descending into it, by the
    /// container's `end`; past the end of the tape it fails with
    /// `UnexpectedEnd` and moves forward by one, as `next` does.
    pub fn skip(&mut self) -> (r: Result<(), Error>)
        requires
            old(self).cursor() < usize::MAX,
        ensures
            final(self).tape_view() == old(self).tape_view(),
            old(self).cursor() < old(self).tape_view().len() ==> r is Ok && final(self).cursor()
                == skip_target(old(self).tape_view()[old(self).cursor()], old(self).cursor()),
            old(self).cursor() >= old(self).tape_view().len() ==> r == Err::<(), Error>(
                Error { index: old(self).cursor() as usize, error: ErrorType::UnexpectedEnd },
            ) && final(self).cursor() == old(self).cursor() + 1,
    {
        match self.next() {
            Ok(Node::Array { len: _, end }) => {
                self.idx = end;
                Ok(())
            },
            Ok(Node::Object { len: _, end }) => {
                self.idx = end;
                Ok(())
            },
            Ok(_) => Ok(()),
            Err(e) => Err(e),
        }
    }
}

/// The signed integer of a sign and a magnitude.
fn signed_of(neg: bool, m: u128) -> (r: i128)
    requires
        neg ==> m <= 170141183460469231731687303715884105728,
        !neg ==> m <= i128::MAX,
    ensures
        r as int == (if neg {
            -(m as int)
        } else {
            m as int
        }),
{
    if !neg {
        m as i128
    } else if m == 170141183460469231731687303715884105728u128 {
        i128::MIN
    } else {
        -(m as i128)
    }
}

impl<'de> Deserializer<'de> {
    /// What a typed extraction does: it consumes one node, and returns its
    /// integer through `conv` when the node is an integer within `lo..=hi`;
    /// else it fails with `kind`, or with `UnexpectedEnd` past the tape.
    pub open spec fn pulls<T>(
        self,
        after: Self,
        r: Result<T, Error>,
        lo: int,
        hi: int,
        kind: ErrorType,
        conv: spec_fn(int) -> T,
    ) -> bool {
        &&& after.tape_view() == self.tape_view()
        &&& after.cursor() == self.cursor() + 1
        &&& if self.cursor() < self.tape_view().len() {
            match int_in(self.tape_view()[self.cursor()], lo, hi) {
                Some(v) => r == Ok::<T, Error>(conv(v)),
                None => r == Err::<T, Error>(Error { index: self.cursor() as usize, error: kind }),
            }
        } else {
            r == Err::<T, Error>(
                Error { index: self.cursor() as usize, error: ErrorType::UnexpectedEnd },
            )
        }
    }

    /// Takes the next node as an unsigned `u8`: an integer node of any width
    /// whose value fits, and nothing else.
    pub fn parse_u8(&mut self) -> (r: Result<u8, Error>)
        requires
            old(self).cursor() < usize::MAX,
        ensures
            old(self).pulls(
                *final(self),
                r,
                0 as int,
                255 as int,
                ErrorType::ExpectedUnsigned,
                |v: int| v as u8,
            ),
    {
        match self.next_int(0, 255u128, ErrorType::ExpectedUnsigned) {
            Ok((_, m)) => Ok(m as u8),
            Err(e) => Err(e),
        }
    }

    /// Takes the next node as an unsigned `u16`: an integer node of any width
    /// whose value fits, and nothing else.
    pub fn parse_u16(&mut self) -> (r: Result<u16, Error>)
        requires
            old(self).cursor() < usize::MAX,
        ensures
            old(self).pulls(
                *final(self),
                r,
                0 as int,
                65535 as int,
                ErrorType::ExpectedUnsigned,
                |v: int| v as u16,
            ),
    {
        match self.next_int(0, 65535u128, ErrorType::ExpectedUnsigned) {
            Ok((_, m)) => Ok(m as u16),
            Err(e) => Err(e),
        }
    }

    /// Takes the next node as an unsigned `u32`: an integer node of any width
    /// whose value fits, and nothing else.
    pub fn parse_u32(&mut self) -> (r: Result<u32, Error>)
        requires
            old(self).cursor() < usize::MAX,
        ensures
            old(self).pulls(
                *final(self),
                r,
                0 as int,
                u32::MAX as int,
                ErrorType::ExpectedUnsigned,
                |v: int| v as u32,
            ),
    {
        match self.next_int(0, u32::MAX as u128, ErrorType::ExpectedUnsigned) {
            Ok((_, m)) => Ok(m as u32),
            Err(e) => Err(e),
        }
    }

    /// Takes the next node as an unsigned `u64`: an integer node of any width
    /// whose value fits, and nothing else.
    pub fn parse_u64(&mut self) -> (r: Result<u64, Error>)
        requires
            old(self).cursor() < usize::MAX,
        ensures
            old(self).pulls(
                *final(self),
                r,
                0 as int,
                u64::MAX as int,
                ErrorType::ExpectedUnsigned,
                |v: int| v as u64,
            ),
    {
        match self.next_int(0, u64::MAX as u128, ErrorType::ExpectedUnsigned) {
            Ok((_, m)) => Ok(m as u64),
            Err(e) => Err(e),
        }
    }

    /// Takes the next node as an unsigned `u128`: an integer node of any width
    /// whose value fits, and nothing else.
    pub fn parse_u128(&mut self) -> (r: Result<u128, Error>)
        requires
            old(self).cursor() < usize::MAX,
        ensures
            old(self).pulls(
                *final(self),
                r,
                0 as int,
                u128::MAX as int,
                ErrorType::ExpectedUnsigned,
                |v: int| v as u128,
            ),
    {
        match self.next_int(0, u128::MAX, ErrorType::ExpectedUnsigned) {
            Ok((_, m)) => Ok(m as u128),
            Err(e) => Err(e),
        }
    }

    /// Takes the next node as a signed `i8`: an integer node of any width
    /// whose value fits, and nothing else.
    pub fn parse_i8(&mut self) -> (r: Result<i8, Error>)
        requires
            old(self).cursor() < usize::MAX,
        ensures
            old(self).pulls(
                *final(self),
                r,
                -128 as int,
                127 as int,
                ErrorType::ExpectedSigned,
                |v: int| v as i8,
            ),
    {
        match self.next_int(-128, 127u128, ErrorType::ExpectedSigned) {
            Ok((neg, m)) => Ok(signed_of(neg, m) as i8),
            Err(e) => Err(e),
        }
    }

    /// Takes the next node as a signed `i16`: an integer node of any width
    /// whose value fits, and nothing else.
    pub fn parse_i16(&mut self) -> (r: Result<i16, Error>)
        requires
            old(self).cursor() < usize::MAX,
        ensures
            old(self).pulls(
                *final(self),
                r,
                -32768 as int,
                32767 as int,
                ErrorType::ExpectedSigned,
                |v: int| v as i16,
            ),
    {
        match self.next_int(-32768, 32767u128, ErrorType::ExpectedSigned) {
            Ok((neg, m)) => Ok(signed_of(neg, m) as i16),
            Err(e) => Err(e),
        }
    }

    /// Takes the next node as a signed `i32`: an integer node of any width
    /// whose value fits, and nothing else.
    pub fn parse_i32(&mut self) -> (r: Result<i32, Error>)
        requires
            old(self).cursor() < usize::MAX,
        ensures
            old(self).pulls(
                *final(self),
                r,
                i32::MIN as int,
                i32::MAX as int,
                ErrorType::ExpectedSigned,
                |v: int| v as i32,
            ),
    {
        match self.next_int(i32::MIN as i128, i32::MAX as u128, ErrorType::ExpectedSigned) {
            Ok((neg, m)) => Ok(signed_of(neg, m) as i32),
            Err(e) => Err(e),
        }
    }

    /// Takes the next node as a signed `i64`: an integer node of any width
    /// whose value fits, and nothing else.
    pub fn parse_i64(&mut self) -> (r: Result<i64, Error>)
        requires
            old(self).cursor() < usize::MAX,
        ensures
            old(self).pulls(
                *final(self),
                r,
                i64::MIN as int,
                i64::MAX as int,
                ErrorType::ExpectedSigned,
                |v: int| v as i64,
            ),
    {
        match self.next_int(i64::MIN as i128, i64::MAX as u128, ErrorType::ExpectedSigned) {
            Ok((neg, m)) => Ok(signed_of(neg, m) as i64),
            Err(e) => Err(e),
        }
    }

    /// Takes the next node as a signed `i128`: an integer node of any width
    /// whose value fits, and nothing else.
    pub fn parse_i128(&mut self) -> (r: Result<i128, Error>)
        requires
            old(self).cursor() < usize::MAX,
        ensures
            old(self).pulls(
                *final(self),
                r,
                i128::MIN as int,
                i128::MAX as int,
                ErrorType::ExpectedSigned,
                |v: int| v as i128,
            ),
    {
        match self.next_int(i128::MIN, i128::MAX as u128, ErrorType::ExpectedSigned) {
            Ok((neg, m)) => Ok(signed_of(neg, m) as i128),
            Err(e) => Err(e),
        }
    }
}

/// A walker at the start of what was read. `read` is the outcome of reading
/// the input and scanning it into a tape; a failed read becomes an `IO`
/// error that carries its message.
pub fn from_reader<'de>(read: Result<Vec<Node<'de>>, String>) -> (r: Result<Deserializer<'de>, Error>)
    ensures
        match read {
            Ok(tape) => r matches Ok(d) && d.tape_view() == tape@ && d.cursor() == 0,
            Err(msg) => r == Err::<Deserializer<'de>, Error>(
                Error { index: 0, error: ErrorType::IO(msg) },
            ),
        },
{
    match read {
        Ok(tape) => Ok(Deserializer::new(tape)),
        Err(msg) => Err(Error::generic(ErrorType::IO(msg))),
    }
}

} // verus!
