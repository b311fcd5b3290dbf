//! The character-scanning primitive shared by the stylesheet and markup
//! parsers: a fixed input held as scalar characters plus a cursor that only
//! moves forward.

use vstd::prelude::*;
use crate::text::{scan_while, seq_starts_with, whitespace_char, ws_pred, chars_to_string};

verus! {

pub struct Parser {
    pub pos: usize,
    pub input: Vec<char>,
}

impl Parser {
    /// The cursor never leaves the input: it sits on a character or just past
    /// the last one.
    pub open spec fn wf(&self) -> bool {
        self.pos <= self.input.len()
    }

    pub fn new(input: Vec<char>) -> (r: Parser)
        ensures
            r.input == input,
            r.pos == 0,
            r.wf(),
    {
        Parser { pos: 0, input }
    }

    /// Read and return the character under the cursor, without advancing.
    pub fn next_char(&self) -> (c: char)
        requires
            self.wf(),
            self.pos < self.input.len(),
        ensures
            c == self.input@[self.pos as int],
    {
        self.input[self.pos]
    }

    /// Do the next characters start with the string `s`?
    pub fn starts_with(&self, s: &str) -> (r: bool)
        requires
            self.wf(),
        ensures
            r == seq_starts_with(self.input@, self.pos as int, s@),
    {
        let n = s.unicode_len();
        if n > self.input.len() - self.pos {
            return false;
        }
        let mut i: usize = 0;
        while i < n
            invariant
                self.wf(),
                n == s@.len(),
                self.pos + n <= self.input.len(),
                i <= n,
                forall|j: int| 0 <= j < i ==> self.input@[self.pos + j] == s@[j],
            decreases n - i,
        {
            if self.input[self.pos + i] != s.get_char(i) {
                return false;
            }
            i = i + 1;
        }
        true
    }

    /// Have we consumed all the input?
    pub fn eof(&self) -> (r: bool)
        ensures
            r == (self.pos >= self.input.len()),
    {
        self.pos >= self.input.len()
    }

    /// Return the character under the cursor and advance past it.
    pub fn consume_char(&mut self) -> (c: char)
        requires
            old(self).wf(),
            old(self).pos < old(self).input.len(),
        ensures
            final(self).wf(),
            final(self).input == old(self).input,
            final(self).pos == old(self).pos + 1,
            c == old(self).input@[old(self).pos as int],
    {
        let c = self.input[self.pos];
        self.pos = self.pos + 1;
        c
    }

    /// Consume characters for as long as `test` accepts them, and return them.
    /// `p` names the predicate that `test` computes.
    pub fn consume_while<F: Fn(char) -> bool>(
        &mut self,
        test: F,
        Ghost(p): Ghost<spec_fn(char) -> bool>,
    ) -> (r: String)
        requires
            old(self).wf(),
            forall|c: char| #[trigger] call_requires(test, (c,)),
            forall|c: char, b: bool| #[trigger] call_ensures(test, (c,), b) ==> b == p(c),
        ensures
            final(self).wf(),
            final(self).input == old(self).input,
            final(self).pos as int == scan_while(old(self).input@, old(self).pos as int, p),
            r@ == old(self).input@.subrange(old(self).pos as int, final(self).pos as int),
    {
        let mut result: Vec<char> = Vec::new();
        let ghost orig = *self;
        let ghost start = self.pos as int;
        let ghost s = self.input@;
        proof {
            assert(result@ =~= s.subrange(start, start));
        }
        loop
            invariant
                self.wf(),
                self.input == orig.input,
                self.input@ == s,
                0 <= start <= self.pos as int <= s.len(),
                forall|c: char| #[trigger] call_requires(test, (c,)),
                forall|c: char, b: bool| #[trigger] call_ensures(test, (c,), b) ==> b == p(c),
                scan_while(s, start, p) == scan_while(s, self.pos as int, p),
                result@ == s.subrange(start, self.pos as int),
            ensures
                self.wf(),
                self.input == orig.input,
                self.pos as int == scan_while(s, start, p),
                result@ == s.subrange(start, self.pos as int),
            decreases s.len() - self.pos,
        {
            if self.eof() {
                break;
            }
            let c = self.next_char();
            if !test(c) {
                break;
            }
            let c2 = self.consume_char();
            result.push(c2);
            proof {
                assert(result@ =~= s.subrange(start, self.pos as int));
            }
        }
        chars_to_string(&result)
    }

    /// Consume and discard whitespace.
    pub fn consume_whitespace(&mut self)
        requires
            old(self).wf(),
        ensures
            final(self).wf(),
            final(self).input == old(self).input,
            final(self).pos as int == scan_while(old(self).input@, old(self).pos as int, ws_pred()),
    {
        let test = |c: char| -> (b: bool)
            ensures
                b == whitespace_char(c),
            { c.is_whitespace() };
        let _ = self.consume_while(test, Ghost(ws_pred()));
    }
}

} // verus!
