//! The lookahead buffer: a bounded window over the characters that come next.

use std::collections::VecDeque;
use vstd::prelude::*;
use vstd::std_specs::iter::IteratorSpec;

verus! {

broadcast use vstd::string::group_string_axioms;

/// Bounded queue of the characters that the engine looks at next. Its capacity
/// is fixed when it is made: it is the length of the longest pattern that the
/// buffer has to match.
#[derive(Debug)]
pub struct Buf {
    chars: VecDeque<char>,
    cap: usize,
}

impl Buf {
    /// The characters in the buffer, first to leave first.
    pub closed spec fn view(&self) -> Seq<char> {
        self.chars@
    }

    /// The number of characters that the buffer holds at most.
    pub closed spec fn capacity(&self) -> nat {
        self.cap as nat
    }

    /// The buffer holds no more characters than its capacity.
    pub open spec fn wf(&self) -> bool {
        self@.len() <= self.capacity()
    }

    /// An empty buffer for at most `max_len` characters.
    pub fn new(max_len: usize) -> (buf: Self)
        ensures
            buf.wf(),
            buf@ == Seq::<char>::empty(),
            buf.capacity() == max_len,
    {
        Buf { chars: VecDeque::with_capacity(max_len), cap: max_len }
    }

    /// Whether the buffer holds as many characters as it can.
    pub fn is_full(&self) -> (full: bool)
        ensures
            full == (self@.len() == self.capacity()),
    {
        self.chars.len() == self.cap
    }

    /// Whether the buffer holds no character.
    pub fn is_empty(&self) -> (empty: bool)
        ensures
            empty == (self@.len() == 0),
    {
        self.chars.len() == 0
    }

    /// Moves characters from `iter` to the back of the buffer until the buffer
    /// is full or `iter` has ended. This is the only way to add characters to
    /// the buffer.
    ///
    /// For callers that loop on it: a buffer that is full already leaves
    /// `iter` as it is, and a buffer that takes characters and gets full
    /// lowers the measure by which `iter` ends.
    pub fn fill_up(&mut self, iter: &mut impl Iterator<Item = char>)
        requires
            old(self).wf(),
            (*old(iter)).obeys_prophetic_iter_laws(),
        ensures
            final(self).wf(),
            final(self).capacity() == old(self).capacity(),
            (*final(iter)).obeys_prophetic_iter_laws(),
            ({
                let room = old(self).capacity() - old(self)@.len();
                let coming = (*old(iter)).remaining();
                let n = if coming.len() < room { coming.len() as int } else { room };
                &&& final(self)@ == old(self)@ + coming.take(n)
                &&& (*final(iter)).remaining() == coming.skip(n)
            }),
            old(self)@.len() == old(self).capacity() ==> *final(iter) == *old(iter),
            ({
                let before = (*old(iter)).decrease();
                let after = (*final(iter)).decrease();
                &&& after is Some <==> before is Some
                &&& before is Some && old(self)@.len() < final(self)@.len()
                    && final(self)@.len() == final(self).capacity() ==> after->0 < before->0
            }),
    {
        let ghost coming = (*iter).remaining();
        let ghost mut pulled: int = 0;
        let ghost before = (*iter).decrease();
        while self.chars.len() < self.cap
            invariant_except_break
                pulled == 0 ==> *iter == *old(iter),
                pulled > 0 && before is Some ==> (*iter).decrease()->0 < before->0,
            invariant
                self.cap == old(self).cap,
                self.chars@.len() <= self.cap,
                (*iter).obeys_prophetic_iter_laws(),
                (*iter).decrease() is Some <==> before is Some,
                before == (*old(iter)).decrease(),
                coming == (*old(iter)).remaining(),
                0 <= pulled <= coming.len(),
                self.chars@ == old(self).chars@ + coming.take(pulled),
                (*iter).remaining() == coming.skip(pulled),
            ensures
                self.chars@.len() == self.cap || pulled == coming.len(),
                old(self).chars@.len() == self.cap ==> *iter == *old(iter),
                before is Some && old(self).chars@.len() < self.chars@.len() && self.chars@.len()
                    == self.cap ==> (*iter).decrease()->0 < before->0,
            decreases self.cap - self.chars.len(),
        {
            match iter.next() {
                None => {
                    break;
                },
                Some(x) => {
                    self.chars.push_back(x);
                    proof {
                        pulled = pulled + 1;
                    }
                },
            }
        }
    }

    /// Whether the buffer starts with the pattern `pat`.
    pub fn matches(&self, pat: &str) -> (m: bool)
        ensures
            m == pat@.is_prefix_of(self@),
    {
        let mut rest = pat.chars();
        let mut i: usize = 0;
        loop
            invariant
                i <= self.chars@.len(),
                i <= pat@.len(),
                rest.remaining() == pat@.skip(i as int),
                pat@.take(i as int) == self.chars@.take(i as int),
            decreases self.chars@.len() - i,
        {
            match rest.next() {
                None => {
                    return true;
                },
                Some(c) => {
                    if i >= self.chars.len() || self.chars[i] != c {
                        return false;
                    }
                    i += 1;
                },
            }
        }
    }

    /// Takes the first character out of the buffer.
    pub fn pop_front(&mut self) -> (c: char)
        requires
            old(self)@.len() > 0,
        ensures
            c == old(self)@[0],
            final(self)@ == old(self)@.skip(1),
            final(self).capacity() == old(self).capacity(),
    {
        self.chars.pop_front().unwrap()
    }

    /// Drops the first `n` characters of the buffer.
    pub fn pop_front_n(&mut self, n: usize)
        requires
            n <= old(self)@.len(),
        ensures
            final(self)@ == old(self)@.skip(n as int),
            final(self).capacity() == old(self).capacity(),
    {
        let mut dropped: usize = 0;
        while dropped < n
            invariant
                dropped <= n <= old(self).chars@.len(),
                self.cap == old(self).cap,
                self.chars@ == old(self).chars@.skip(dropped as int),
            decreases n - dropped,
        {
            let _ = self.chars.pop_front();
            dropped += 1;
        }
    }
}

} // verus!
