//! The text buffer: a string, a byte cursor into it, and a file name.

use vstd::prelude::*;
use vstd::utf8::*;
use vstd::string::StringExecFns;
use crate::search::{find_first, is_first_match, no_match};
use crate::text::chars_of;
use crate::utf8::{
    lemma_boundary_is_prefix, lemma_encode_concat, lemma_encode_single, lemma_next_boundary,
    lemma_prefix_is_boundary, lemma_prefix_len_monotonic, lemma_prev_boundary,
    lemma_split_at_prefix, prefix_len, utf8_width, width,
};

verus! {

/// `String::insert`: puts the encoding of `c` at the byte offset `idx`, which
/// has to be a character boundary, and keeps the bytes on both sides.
#[verifier::external_body]
fn string_insert(s: &mut String, idx: usize, c: char)
    requires
        is_char_boundary(encode_utf8(old(s)@), idx as int),
    ensures
        encode_utf8(final(s)@) == encode_utf8(old(s)@).subrange(0, idx as int) + encode_scalar(
            c as u32,
        ) + encode_utf8(old(s)@).subrange(idx as int, encode_utf8(old(s)@).len() as int),
{
    s.insert(idx, c)
}

/// `String::remove`: takes out the one character that starts at the byte
/// offset `idx`, which has to be a character boundary before the end, and
/// keeps the bytes on both sides.
#[verifier::external_body]
fn string_remove(s: &mut String, idx: usize)
    requires
        is_char_boundary(encode_utf8(old(s)@), idx as int),
        idx < encode_utf8(old(s)@).len(),
    ensures
        encode_utf8(final(s)@) == encode_utf8(old(s)@).subrange(0, idx as int) + pop_first_scalar(
            encode_utf8(old(s)@).subrange(idx as int, encode_utf8(old(s)@).len() as int),
        ),
{
    s.remove(idx);
}

/// A mutable text with a cursor, tagged with the name of the file it belongs to.
pub struct ViewBuffer {
    /// Byte offset of the cursor in `buffer`.
    pub cursor: usize,
    /// The text.
    pub buffer: String,
    /// The name of the file that the text is saved to and loaded from.
    pub filename: String,
}

impl ViewBuffer {
    /// The bytes of the text.
    pub open spec fn bytes(&self) -> Seq<u8> {
        encode_utf8(self.buffer@)
    }

    /// The cursor stands on a character boundary of the text.
    pub open spec fn wf(&self) -> bool {
        is_char_boundary(self.bytes(), self.cursor as int)
    }

    /// The characters before the cursor.
    pub open spec fn left(&self) -> Seq<char> {
        decode_utf8(self.bytes().subrange(0, self.cursor as int))
    }

    /// The characters from the cursor on.
    pub open spec fn right(&self) -> Seq<char> {
        decode_utf8(self.bytes().subrange(self.cursor as int, self.bytes().len() as int))
    }

    /// An empty buffer for the file `filename`, with the cursor at the start.
    pub fn new(filename: &str) -> (res: Self)
        ensures
            res.cursor == 0,
            res.buffer@ == Seq::<char>::empty(),
            res.filename@ == filename@,
            res.left() == Seq::<char>::empty(),
            res.right() == Seq::<char>::empty(),
            res.wf(),
    {
        let res = Self { cursor: 0, buffer: String::new(), filename: filename.to_owned() };
        proof {
            encode_utf8_valid_utf8(res.buffer@);
            encode_utf8_decode_utf8(res.buffer@);
            assert(res.bytes().subrange(0, 0) =~= res.bytes());
        }
        res
    }

    /// Under `wf`, the text is what stands before the cursor followed by what
    /// stands after it, and the cursor is the byte length of the first part.
    pub proof fn lemma_gap(&self)
        requires
            self.wf(),
        ensures
            self.buffer@ =~= self.left() + self.right(),
            self.cursor == encode_utf8(self.left()).len(),
            self.cursor <= self.bytes().len(),
    {
        lemma_boundary_is_prefix(self.buffer@, self.cursor as int);
    }

    /// The byte length of the text.
    fn byte_len(&self) -> (n: usize)
        ensures
            n == self.bytes().len(),
    {
        self.buffer.as_str().as_bytes().len()
    }

    /// The nearest character boundary before the cursor.
    fn prev_boundary(&self) -> (p: usize)
        requires
            self.wf(),
            self.cursor > 0,
        ensures
            p < self.cursor,
            is_char_boundary(self.bytes(), p as int),
            forall|j: int| p < j < self.cursor ==> !is_char_boundary(self.bytes(), j),
    {
        proof {
            encode_utf8_valid_utf8(self.buffer@);
        }
        let mut p: usize = self.cursor - 1;
        while !self.buffer.as_str().is_char_boundary(p)
            invariant
                p < self.cursor,
                valid_utf8(self.bytes()),
                forall|j: int| p < j < self.cursor ==> !is_char_boundary(self.bytes(), j),
            decreases p,
        {
            p = p - 1;
        }
        p
    }

    /// The nearest character boundary after the cursor.
    fn next_boundary(&self) -> (q: usize)
        requires
            self.wf(),
            self.cursor < self.bytes().len(),
        ensures
            self.cursor < q <= self.bytes().len(),
            is_char_boundary(self.bytes(), q as int),
            forall|j: int| self.cursor < j < q ==> !is_char_boundary(self.bytes(), j),
    {
        proof {
            encode_utf8_valid_utf8(self.buffer@);
            is_char_boundary_start_end_of_seq(self.bytes());
        }
        let n = self.byte_len();
        let mut q: usize = self.cursor + 1;
        while !self.buffer.as_str().is_char_boundary(q)
            invariant
                self.cursor < q <= n,
                n == self.bytes().len(),
                valid_utf8(self.bytes()),
                is_char_boundary(self.bytes(), n as int),
                forall|j: int| self.cursor < j < q ==> !is_char_boundary(self.bytes(), j),
            decreases n - q,
        {
            q = q + 1;
        }
        q
    }

    /// Inserts `c` at the cursor and moves the cursor behind it.
    pub fn add_char(&mut self, c: char)
        requires
            old(self).wf(),
        ensures
            final(self).wf(),
            final(self).left() == old(self).left().push(c),
            final(self).right() == old(self).right(),
            final(self).buffer@ == old(self).left().push(c) + old(self).right(),
            final(self).cursor == old(self).cursor + width(c),
            final(self).filename == old(self).filename,
    {
        let ghost l = self.left();
        let ghost r = self.right();
        let ghost l2 = l.push(c);
        proof {
            self.lemma_gap();
            lemma_boundary_is_prefix(self.buffer@, self.cursor as int);
            lemma_encode_concat(l, seq![c]);
            lemma_encode_single(c);
            assert(l2 =~= l + seq![c]);
            lemma_encode_concat(l2, r);
            lemma_split_at_prefix(l2, r);
        }
        string_insert(&mut self.buffer, self.cursor, c);
        proof {
            assert(encode_utf8(self.buffer@) =~= encode_utf8(l2 + r));
            encode_utf8_decode_utf8(self.buffer@);
            encode_utf8_decode_utf8(l2 + r);
            encode_utf8_decode_utf8(l2);
            encode_utf8_decode_utf8(r);
        }
        // The cursor stays within the text, whose length is a `usize`.
        let _ = self.byte_len();
        self.cursor = self.cursor + utf8_width(c);
    }

    /// Deletes the character before the cursor, if there is one, and moves
    /// the cursor to where it stood.
    pub fn remove_char(&mut self)
        requires
            old(self).wf(),
        ensures
            final(self).wf(),
            final(self).right() == old(self).right(),
            final(self).filename == old(self).filename,
            old(self).left().len() == 0 ==> *final(self) == *old(self),
            old(self).left().len() > 0 ==> {
                &&& final(self).left() == old(self).left().drop_last()
                &&& final(self).buffer@ == old(self).left().drop_last() + old(self).right()
                &&& final(self).cursor == old(self).cursor - width(old(self).left().last())
            },
    {
        proof {
            self.lemma_gap();
            encode_utf8_decode_utf8(seq![]);
        }
        if self.cursor == 0 || self.buffer.as_str().is_empty() {
            return ;
        }
        let p = self.prev_boundary();
        let ghost l = self.left();
        let ghost r = self.right();
        let ghost init = l.drop_last();
        proof {
            lemma_prev_boundary(self.buffer@, self.cursor as int, p as int);
            lemma_boundary_is_prefix(self.buffer@, self.cursor as int);
            lemma_boundary_is_prefix(self.buffer@, p as int);
            let bytes = self.bytes();
            let tail = bytes.subrange(p as int, bytes.len() as int);
            assert(tail =~= encode_utf8(seq![l.last()] + r));
            encode_utf8_first_scalar(seq![l.last()] + r);
            assert(pop_first_scalar(tail) =~= bytes.subrange(
                self.cursor as int,
                bytes.len() as int,
            ));
            lemma_encode_concat(init, r);
            lemma_split_at_prefix(init, r);
        }
        string_remove(&mut self.buffer, p);
        proof {
            assert(encode_utf8(self.buffer@) =~= encode_utf8(init + r));
            encode_utf8_decode_utf8(self.buffer@);
            encode_utf8_decode_utf8(init + r);
            encode_utf8_decode_utf8(init);
            encode_utf8_decode_utf8(r);
        }
        self.cursor = p;
    }

    /// Moves the cursor to the start of the character before it, if there is
    /// one.
    pub fn cur_move_left(&mut self)
        requires
            old(self).wf(),
        ensures
            final(self).wf(),
            final(self).buffer == old(self).buffer,
            final(self).filename == old(self).filename,
            old(self).left().len() == 0 ==> *final(self) == *old(self),
            old(self).left().len() > 0 ==> {
                &&& final(self).left() == old(self).left().drop_last()
                &&& final(self).right() == seq![old(self).left().last()] + old(self).right()
                &&& final(self).cursor == old(self).cursor - width(old(self).left().last())
            },
    {
        proof {
            self.lemma_gap();
            encode_utf8_decode_utf8(seq![]);
        }
        if self.cursor == 0 {
            return ;
        }
        let p = self.prev_boundary();
        proof {
            lemma_prev_boundary(self.buffer@, self.cursor as int, p as int);
        }
        self.cursor = p;
    }

    /// Moves the cursor to the start of the next character, or to the end of
    /// the text where the cursor stands on the last character or behind it.
    pub fn cur_move_right(&mut self)
        requires
            old(self).wf(),
        ensures
            final(self).wf(),
            final(self).buffer == old(self).buffer,
            final(self).filename == old(self).filename,
            old(self).right().len() == 0 ==> *final(self) == *old(self),
            old(self).right().len() > 0 ==> {
                &&& final(self).left() == old(self).left().push(old(self).right()[0])
                &&& final(self).right() == old(self).right().drop_first()
                &&& final(self).cursor == old(self).cursor + width(old(self).right()[0])
            },
    {
        proof {
            self.lemma_gap();
            lemma_boundary_is_prefix(self.buffer@, self.cursor as int);
            encode_utf8_decode_utf8(seq![]);
        }
        let n = self.byte_len();
        if self.cursor >= n {
            proof {
                assert(self.bytes().subrange(self.cursor as int, n as int) =~= Seq::<u8>::empty());
            }
            return ;
        }
        let q = self.next_boundary();
        proof {
            lemma_next_boundary(self.buffer@, self.cursor as int, q as int);
        }
        self.cursor = q;
    }

    /// Inserts the characters of `text` at the cursor and moves the cursor
    /// behind them.
    pub fn insert_text(&mut self, text: &str)
        requires
            old(self).wf(),
        ensures
            final(self).wf(),
            final(self).left() == old(self).left() + text@,
            final(self).right() == old(self).right(),
            final(self).buffer@ == old(self).left() + text@ + old(self).right(),
            final(self).filename == old(self).filename,
    {
        let chars = chars_of(text);
        let mut i: usize = 0;
        proof {
            assert(self.left() + text@.take(0) =~= self.left());
            self.lemma_gap();
        }
        while i < chars.len()
            invariant
                i <= chars.len(),
                chars@ == text@,
                self.wf(),
                self.left() == old(self).left() + text@.take(i as int),
                self.right() == old(self).right(),
                self.buffer@ == self.left() + self.right(),
                self.filename == old(self).filename,
            decreases chars.len() - i,
        {
            self.add_char(chars[i]);
            proof {
                assert(text@.take(i + 1) =~= text@.take(i as int).push(text@[i as int]));
                assert((old(self).left() + text@.take(i as int)).push(text@[i as int]) =~= old(
                    self,
                ).left() + text@.take(i + 1));
            }
            i = i + 1;
        }
        proof {
            assert(text@.take(text@.len() as int) =~= text@);
        }
    }

    /// Empties the text and puts the cursor at the start.
    pub fn clear(&mut self)
        ensures
            final(self).wf(),
            final(self).cursor == 0,
            final(self).buffer@ == Seq::<char>::empty(),
            final(self).left() == Seq::<char>::empty(),
            final(self).right() == Seq::<char>::empty(),
            final(self).filename == old(self).filename,
    {
        self.buffer = String::new();
        self.cursor = 0;
        proof {
            encode_utf8_valid_utf8(self.buffer@);
            encode_utf8_decode_utf8(self.buffer@);
            assert(self.bytes().subrange(0, 0) =~= self.bytes());
        }
    }

    /// Whether a jump to the byte offset `to` is taken: the offset lies
    /// before the end of the text, on a character boundary.
    pub open spec fn can_jump(&self, to: int) -> bool {
        0 <= to < self.bytes().len() && is_char_boundary(self.bytes(), to)
    }

    /// Puts the cursor at the byte offset `to`, where that is the start of a
    /// character of the text. Any other offset is ignored.
    pub fn jump(&mut self, to: i32)
        requires
            old(self).wf(),
        ensures
            final(self).wf(),
            final(self).buffer == old(self).buffer,
            final(self).filename == old(self).filename,
            final(self).cursor == (if old(self).can_jump(to as int) {
                to as usize
            } else {
                old(self).cursor
            }),
    {
        if to < 0 {
            return ;
        }
        let target = to as usize;
        if target < self.byte_len() && self.buffer.as_str().is_char_boundary(target) {
            self.cursor = target;
        }
    }

    /// Puts the cursor in front of the first occurrence of `pattern` in the
    /// text. Where there is none, the cursor stays.
    pub fn search(&mut self, pattern: &str)
        requires
            old(self).wf(),
        ensures
            final(self).wf(),
            final(self).buffer == old(self).buffer,
            final(self).filename == old(self).filename,
            no_match(old(self).buffer@, pattern@) || exists|k: int|
                is_first_match(old(self).buffer@, pattern@, k),
            no_match(old(self).buffer@, pattern@) ==> final(self).cursor == old(self).cursor,
            forall|k: int|
                #[trigger] is_first_match(old(self).buffer@, pattern@, k) ==> {
                    &&& final(self).cursor == prefix_len(old(self).buffer@, k)
                    &&& final(self).left() == old(self).buffer@.take(k)
                    &&& final(self).right() == old(self).buffer@.skip(k)
                },
    {
        let text = chars_of(self.buffer.as_str());
        let pat = chars_of(pattern);
        match find_first(&text, &pat) {
            None => {
                proof {
                    assert forall|k: int| is_first_match(self.buffer@, pattern@, k) implies false by {
                        assert(!crate::search::matches_at(self.buffer@, pattern@, k));
                    }
                }
            },
            Some(k) => {
                let total = self.byte_len();
                let mut offset: usize = 0;
                let mut i: usize = 0;
                proof {
                    assert(text@.take(0) =~= Seq::<char>::empty());
                    lemma_prefix_len_monotonic(text@, 0, k as int);
                    lemma_prefix_is_boundary(text@, k as int);
                }
                while i < k
                    invariant
                        i <= k <= text.len(),
                        text@ == self.buffer@,
                        total == self.bytes().len(),
                        offset == prefix_len(text@, i as int),
                        prefix_len(text@, k as int) <= total,
                    decreases k - i,
                {
                    let w = utf8_width(text[i]);
                    proof {
                        assert(text@.take(i + 1) =~= text@.take(i as int) + seq![text@[i as int]]);
                        lemma_encode_concat(text@.take(i as int), seq![text@[i as int]]);
                        lemma_encode_single(text@[i as int]);
                        lemma_prefix_len_monotonic(text@, i + 1, k as int);
                    }
                    offset = offset + w;
                    i = i + 1;
                }
                self.cursor = offset;
                proof {
                    encode_utf8_decode_utf8(text@.take(k as int));
                    encode_utf8_decode_utf8(text@.skip(k as int));
                    assert forall|j: int| is_first_match(old(self).buffer@, pattern@, j) implies j
                        == k by {
                        if j < k {
                            assert(!crate::search::matches_at(old(self).buffer@, pattern@, j));
                        }
                        if k < j {
                            assert(!crate::search::matches_at(old(self).buffer@, pattern@, k as int));
                        }
                    }
                }
            },
        }
    }

    /// Puts `text` behind the end of the buffer's text. The cursor stays.
    pub fn append_text(&mut self, text: &str)
        requires
            old(self).wf(),
        ensures
            final(self).wf(),
            final(self).cursor == old(self).cursor,
            final(self).buffer@ == old(self).buffer@ + text@,
            final(self).left() == old(self).left(),
            final(self).right() == old(self).right() + text@,
            final(self).filename == old(self).filename,
    {
        let ghost l = self.left();
        let ghost r = self.right();
        proof {
            self.lemma_gap();
            assert(l + r + text@ =~= l + (r + text@));
            lemma_split_at_prefix(l, r + text@);
            encode_utf8_decode_utf8(l);
            encode_utf8_decode_utf8(r + text@);
        }
        self.buffer.append(text);
    }

    /// Names the file that the text belongs to.
    pub fn set_filename(&mut self, filename: String)
        ensures
            final(self).filename == filename,
            final(self).buffer == old(self).buffer,
            final(self).cursor == old(self).cursor,
    {
        self.filename = filename;
    }
}

} // verus!
