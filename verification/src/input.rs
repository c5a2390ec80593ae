//! A text buffer with a cursor and terminal-style editing and movement.
//!
//! The buffer is a sequence of characters with a cursor between them, so the
//! cursor can never split a character; the type invariant keeps it inside the
//! buffer. Every operation is a no-op at an exhausted boundary.

use vstd::prelude::*;
use crate::keys::{KeyCode, KeyEvent};
use crate::text::{chars_of_str, is_space, is_space_char, string_from_chars};

verus! {

/// Position after skipping space characters leftward from `p`.
pub open spec fn skip_spaces_back(t: Seq<char>, p: int) -> int
    decreases p,
{
    if 0 < p <= t.len() && is_space(t[p - 1]) {
        skip_spaces_back(t, p - 1)
    } else {
        p
    }
}

/// Position after skipping word (non-space) characters leftward from `p`.
pub open spec fn skip_word_back(t: Seq<char>, p: int) -> int
    decreases p,
{
    if 0 < p <= t.len() && !is_space(t[p - 1]) {
        skip_word_back(t, p - 1)
    } else {
        p
    }
}

/// Position after skipping word characters rightward from `p`.
pub open spec fn skip_word_fwd(t: Seq<char>, p: int) -> int
    decreases t.len() - p,
{
    if 0 <= p < t.len() && !is_space(t[p]) {
        skip_word_fwd(t, p + 1)
    } else {
        p
    }
}

/// Position after skipping space characters rightward from `p`.
pub open spec fn skip_spaces_fwd(t: Seq<char>, p: int) -> int
    decreases t.len() - p,
{
    if 0 <= p < t.len() && is_space(t[p]) {
        skip_spaces_fwd(t, p + 1)
    } else {
        p
    }
}

/// Where the cursor lands moving one word left: skip spaces, then the word.
pub open spec fn word_back_pos(t: Seq<char>, c: int) -> int {
    skip_word_back(t, skip_spaces_back(t, c))
}

/// Where the cursor lands moving one word right: skip the word, then spaces.
pub open spec fn word_fwd_pos(t: Seq<char>, c: int) -> int {
    skip_spaces_fwd(t, skip_word_fwd(t, c))
}

/// Start of the line containing position `c`: just after the previous
/// newline, or the start of the buffer.
pub open spec fn line_start(t: Seq<char>, c: int) -> int
    decreases c,
{
    if 0 < c <= t.len() && t[c - 1] != '\n' {
        line_start(t, c - 1)
    } else {
        c
    }
}

/// End of the line containing position `c`: the next newline, or the end of
/// the buffer.
pub open spec fn line_end(t: Seq<char>, c: int) -> int
    decreases t.len() - c,
{
    if 0 <= c < t.len() && t[c] != '\n' {
        line_end(t, c + 1)
    } else {
        c
    }
}

/// Where the cursor lands moving up a line, keeping the column when the line
/// above is long enough.
pub open spec fn up_pos(t: Seq<char>, c: int) -> int {
    let ls = line_start(t, c);
    if ls == 0 {
        c
    } else {
        let col = c - ls;
        let pls = line_start(t, ls - 1);
        let plen = ls - 1 - pls;
        if col <= plen {
            pls + col
        } else {
            pls + plen
        }
    }
}

/// Where the cursor lands moving down a line, keeping the column when the
/// line below is long enough.
pub open spec fn down_pos(t: Seq<char>, c: int) -> int {
    if c >= t.len() {
        c
    } else {
        let ls = line_start(t, c);
        let col = c - ls;
        let le = line_end(t, c);
        if le >= t.len() {
            c
        } else if le + 1 >= t.len() {
            c
        } else {
            let nls = le + 1;
            let nle = line_end(t, nls);
            let nlen = nle - nls;
            if col <= nlen {
                nls + col
            } else {
                nls + nlen
            }
        }
    }
}

/// Buffer and cursor after a key press, and whether the key was handled.
pub open spec fn key_result(t: Seq<char>, c: int, key: KeyEvent) -> (Seq<char>, int, bool) {
    let ctrl = key.modifiers.ctrl;
    let alt = key.modifiers.alt;
    match key.code {
        KeyCode::Char(ch) => {
            if !ctrl && !alt {
                (t.insert(c, ch), c + 1, true)
            } else if ctrl && ch == 'a' {
                (t, line_start(t, c), true)
            } else if ctrl && ch == 'e' {
                (t, line_end(t, c), true)
            } else if ctrl && ch == 'b' {
                (t, if c > 0 { c - 1 } else { 0 }, true)
            } else if ctrl && ch == 'f' {
                (t, if c < t.len() { c + 1 } else { c }, true)
            } else if alt && ch == 'b' {
                (t, word_back_pos(t, c), true)
            } else if alt && ch == 'f' {
                (t, word_fwd_pos(t, c), true)
            } else if ctrl && ch == 'w' {
                let p = word_back_pos(t, c);
                (t.take(p) + t.skip(c), p, true)
            } else if ctrl && ch == 'u' {
                (t.skip(c), 0, true)
            } else if ctrl && ch == 'k' {
                (t.take(c), c, true)
            } else {
                (t, c, false)
            }
        },
        KeyCode::Up => (t, up_pos(t, c), true),
        KeyCode::Down => (t, down_pos(t, c), true),
        KeyCode::Left => (t, if c > 0 { c - 1 } else { 0 }, true),
        KeyCode::Right => (t, if c < t.len() { c + 1 } else { c }, true),
        KeyCode::Backspace => if c > 0 {
            (t.remove(c - 1), c - 1, true)
        } else {
            (t, c, true)
        },
        KeyCode::Delete => if c < t.len() {
            (t.remove(c), c, true)
        } else {
            (t, c, true)
        },
        KeyCode::Home => (t, 0, true),
        KeyCode::End => (t, t.len() as int, true),
        _ => (t, c, false),
    }
}

/// A text input with cursor position and terminal-style navigation.
pub struct TextInput {
    chars: Vec<char>,
    cursor: usize,
}

impl TextInput {
    /// The buffer contents.
    pub closed spec fn text_seq(self) -> Seq<char> {
        self.chars@
    }

    /// The cursor position, in characters from the start.
    pub closed spec fn cursor_spec(self) -> int {
        self.cursor as int
    }

    /// The cursor always lies between characters, inside the buffer.
    pub closed spec fn wf(self) -> bool {
        self.cursor <= self.chars@.len()
    }

    /// An empty buffer.
    pub fn new() -> (r: Self)
        ensures
            r.wf(),
            r.text_seq() == Seq::<char>::empty(),
            r.cursor_spec() == 0,
    {
        let r = TextInput { chars: Vec::new(), cursor: 0 };
        assert(r.text_seq() =~= Seq::<char>::empty());
        r
    }

    /// A buffer holding the given text, cursor at the end.
    pub fn with_text(text: &str) -> (r: Self)
        ensures
            r.wf(),
            r.text_seq() == text@,
            r.cursor_spec() == text@.len(),
    {
        let chars = chars_of_str(text);
        let cursor = chars.len();
        TextInput { chars, cursor }
    }

    /// The current text.
    pub fn text(&self) -> (r: String)
        ensures
            r@ == self.text_seq(),
    {
        string_from_chars(&self.chars)
    }

    /// The cursor position in characters. It lies inside the buffer:
    /// between characters, never past the end — the well-formedness
    /// predicate every operation preserves.
    pub fn cursor(&self) -> (r: usize)
        requires
            self.wf(),
        ensures
            r == self.cursor_spec(),
            0 <= r <= self.text_seq().len(),
    {
        self.cursor
    }

    /// Whether the buffer is empty.
    pub fn is_empty(&self) -> (r: bool)
        ensures
            r == (self.text_seq().len() == 0),
    {
        self.chars.len() == 0
    }

    /// Reset to empty.
    pub fn clear(&mut self)
        requires
            old(self).wf(),
        ensures
            final(self).wf(),
            final(self).text_seq() == Seq::<char>::empty(),
            final(self).cursor_spec() == 0,
    {
        self.chars = Vec::new();
        self.cursor = 0;
        assert(final(self).text_seq() =~= Seq::<char>::empty());
    }

    /// Insert a character at the cursor; the cursor advances past it.
    pub fn insert_char(&mut self, ch: char)
        requires
            old(self).wf(),
        ensures
            final(self).wf(),
            final(self).text_seq() == old(self).text_seq().insert(old(self).cursor_spec(), ch),
            final(self).cursor_spec() == old(self).cursor_spec() + 1,
    {
        self.chars.insert(self.cursor, ch);
        let n = self.chars.len();
        assert(self.cursor < n);
        self.cursor = self.cursor + 1;
    }

    /// Insert a string at the cursor; the cursor advances past it.
    pub fn insert_str(&mut self, s: &str)
        requires
            old(self).wf(),
        ensures
            final(self).wf(),
            final(self).text_seq() == old(self).text_seq().take(old(self).cursor_spec()) + s@
                + old(self).text_seq().skip(old(self).cursor_spec()),
            final(self).cursor_spec() == old(self).cursor_spec() + s@.len(),
    {
        let extra = chars_of_str(s);
        let ghost t0 = self.chars@;
        let ghost c0 = self.cursor as int;
        let mut rebuilt: Vec<char> = Vec::new();
        let mut i: usize = 0;
        while i < self.cursor
            invariant
                old(self).wf(),
                *self == *old(self),
                t0 == self.chars@,
                c0 == self.cursor as int,
                0 <= i <= c0,
                rebuilt@ == t0.subrange(0, i as int),
            decreases c0 - i,
        {
            rebuilt.push(self.chars[i]);
            assert(rebuilt@ =~= t0.subrange(0, i + 1 as int));
            i = i + 1;
        }
        let mut k: usize = 0;
        while k < extra.len()
            invariant
                old(self).wf(),
                *self == *old(self),
                t0 == self.chars@,
                c0 == self.cursor as int,
                0 <= k <= extra@.len(),
                rebuilt@ == t0.take(c0) + extra@.take(k as int),
            decreases extra@.len() - k,
        {
            rebuilt.push(extra[k]);
            assert(rebuilt@ =~= t0.take(c0) + extra@.take(k + 1 as int));
            k = k + 1;
        }
        assert(extra@.take(extra@.len() as int) =~= extra@);
        let mut j: usize = self.cursor;
        while j < self.chars.len()
            invariant
                old(self).wf(),
                *self == *old(self),
                t0 == self.chars@,
                c0 == self.cursor as int,
                c0 <= j <= t0.len(),
                rebuilt@ == t0.take(c0) + extra@ + t0.subrange(c0, j as int),
            decreases t0.len() - j,
        {
            rebuilt.push(self.chars[j]);
            assert(rebuilt@ =~= t0.take(c0) + extra@ + t0.subrange(c0, j + 1 as int));
            j = j + 1;
        }
        let rl = rebuilt.len();
        assert(self.cursor + extra@.len() <= rl);
        let new_cursor = self.cursor + extra.len();
        self.chars = rebuilt;
        self.cursor = new_cursor;
        assert(self.chars@ =~= t0.take(c0) + extra@ + t0.skip(c0));
    }

    /// Move the cursor one character left, stopping at the start.
    pub fn move_left(&mut self)
        requires
            old(self).wf(),
        ensures
            final(self).wf(),
            final(self).text_seq() == old(self).text_seq(),
            final(self).cursor_spec() == (if old(self).cursor_spec() > 0 {
                old(self).cursor_spec() - 1
            } else {
                0int
            }),
    {
        if self.cursor > 0 {
            self.cursor = self.cursor - 1;
        }
    }

    /// Move the cursor one character right, stopping at the end.
    pub fn move_right(&mut self)
        requires
            old(self).wf(),
        ensures
            final(self).wf(),
            final(self).text_seq() == old(self).text_seq(),
            final(self).cursor_spec() == (if old(self).cursor_spec() < old(self).text_seq().len() {
                old(self).cursor_spec() + 1
            } else {
                old(self).cursor_spec()
            }),
    {
        if self.cursor < self.chars.len() {
            self.cursor = self.cursor + 1;
        }
    }

    fn pos_spaces_back(&self, from: usize) -> (r: usize)
        requires
            from <= self.text_seq().len(),
        ensures
            r == skip_spaces_back(self.text_seq(), from as int),
            r <= from,
    {
        let mut p: usize = from;
        while p > 0 && is_space_char(self.chars[p - 1])
            invariant
                p <= from <= self.chars@.len(),
                skip_spaces_back(self.chars@, from as int) == skip_spaces_back(
                    self.chars@,
                    p as int,
                ),
            decreases p,
        {
            p = p - 1;
        }
        p
    }

    fn pos_word_back(&self, from: usize) -> (r: usize)
        requires
            from <= self.text_seq().len(),
        ensures
            r == skip_word_back(self.text_seq(), from as int),
            r <= from,
    {
        let mut p: usize = from;
        while p > 0 && !is_space_char(self.chars[p - 1])
            invariant
                p <= from <= self.chars@.len(),
                skip_word_back(self.chars@, from as int) == skip_word_back(self.chars@, p as int),
            decreases p,
        {
            p = p - 1;
        }
        p
    }

    fn pos_word_fwd(&self, from: usize) -> (r: usize)
        requires
            from <= self.text_seq().len(),
        ensures
            r == skip_word_fwd(self.text_seq(), from as int),
            from <= r <= self.text_seq().len(),
    {
        let mut p: usize = from;
        while p < self.chars.len() && !is_space_char(self.chars[p])
            invariant
                from <= p <= self.chars@.len(),
                skip_word_fwd(self.chars@, from as int) == skip_word_fwd(self.chars@, p as int),
            decreases self.chars@.len() - p,
        {
            p = p + 1;
        }
        p
    }

    fn pos_spaces_fwd(&self, from: usize) -> (r: usize)
        requires
            from <= self.text_seq().len(),
        ensures
            r == skip_spaces_fwd(self.text_seq(), from as int),
            from <= r <= self.text_seq().len(),
    {
        let mut p: usize = from;
        while p < self.chars.len() && is_space_char(self.chars[p])
            invariant
                from <= p <= self.chars@.len(),
                skip_spaces_fwd(self.chars@, from as int) == skip_spaces_fwd(self.chars@, p as int),
            decreases self.chars@.len() - p,
        {
            p = p + 1;
        }
        p
    }

    fn pos_line_start(&self, from: usize) -> (r: usize)
        requires
            from <= self.text_seq().len(),
        ensures
            r == line_start(self.text_seq(), from as int),
            r <= from,
    {
        let mut p: usize = from;
        while p > 0 && self.chars[p - 1] != '\n'
            invariant
                p <= from <= self.chars@.len(),
                line_start(self.chars@, from as int) == line_start(self.chars@, p as int),
            decreases p,
        {
            p = p - 1;
        }
        p
    }

    fn pos_line_end(&self, from: usize) -> (r: usize)
        requires
            from <= self.text_seq().len(),
        ensures
            r == line_end(self.text_seq(), from as int),
            from <= r <= self.text_seq().len(),
    {
        let mut p: usize = from;
        while p < self.chars.len() && self.chars[p] != '\n'
            invariant
                from <= p <= self.chars@.len(),
                line_end(self.chars@, from as int) == line_end(self.chars@, p as int),
            decreases self.chars@.len() - p,
        {
            p = p + 1;
        }
        p
    }

    /// Move the cursor one word left: skip spaces, then the word.
    pub fn move_word_backward(&mut self)
        requires
            old(self).wf(),
        ensures
            final(self).wf(),
            final(self).text_seq() == old(self).text_seq(),
            final(self).cursor_spec() == word_back_pos(
                old(self).text_seq(),
                old(self).cursor_spec(),
            ),
    {
        let p = self.pos_spaces_back(self.cursor);
        let p2 = self.pos_word_back(p);
        self.cursor = p2;
    }

    /// Move the cursor one word right: skip the word, then spaces.
    pub fn move_word_forward(&mut self)
        requires
            old(self).wf(),
        ensures
            final(self).wf(),
            final(self).text_seq() == old(self).text_seq(),
            final(self).cursor_spec() == word_fwd_pos(old(self).text_seq(), old(self).cursor_spec()),
    {
        let p = self.pos_word_fwd(self.cursor);
        let p2 = self.pos_spaces_fwd(p);
        self.cursor = p2;
    }

    /// Delete the character before the cursor, if any.
    pub fn delete_char_backward(&mut self)
        requires
            old(self).wf(),
        ensures
            final(self).wf(),
            old(self).cursor_spec() > 0 ==> final(self).text_seq() == old(self).text_seq().remove(
                old(self).cursor_spec() - 1,
            ) && final(self).cursor_spec() == old(self).cursor_spec() - 1,
            old(self).cursor_spec() == 0 ==> *final(self) == *old(self),
    {
        if self.cursor > 0 {
            self.chars.remove(self.cursor - 1);
            self.cursor = self.cursor - 1;
        }
    }

    /// Delete the character at the cursor, if any.
    pub fn delete_char_forward(&mut self)
        requires
            old(self).wf(),
        ensures
            final(self).wf(),
            old(self).cursor_spec() < old(self).text_seq().len() ==> final(self).text_seq() == old(
                self,
            ).text_seq().remove(old(self).cursor_spec()) && final(self).cursor_spec() == old(
                self,
            ).cursor_spec(),
            old(self).cursor_spec() >= old(self).text_seq().len() ==> *final(self) == *old(self),
    {
        if self.cursor < self.chars.len() {
            self.chars.remove(self.cursor);
        }
    }

    /// Delete from one word left of the cursor up to the cursor.
    pub fn delete_word_backward(&mut self)
        requires
            old(self).wf(),
        ensures
            final(self).wf(),
            final(self).text_seq() == old(self).text_seq().take(
                word_back_pos(old(self).text_seq(), old(self).cursor_spec()),
            ) + old(self).text_seq().skip(old(self).cursor_spec()),
            final(self).cursor_spec() == word_back_pos(old(self).text_seq(), old(self).cursor_spec()),
    {
        let ghost t0 = self.chars@;
        let ghost c0 = self.cursor as int;
        let p = self.pos_spaces_back(self.cursor);
        let p2 = self.pos_word_back(p);
        let stop = self.cursor;
        let mut removed: usize = 0;
        assert(self.chars@ =~= t0.take(p2 as int) + t0.skip(p2 as int));
        while p2 + removed < stop
            invariant
                p2 + removed <= stop,
                stop <= t0.len(),
                p2 as int == word_back_pos(t0, c0),
                stop == c0,
                self.chars@ == t0.take(p2 as int) + t0.skip(p2 + removed),
            decreases stop - p2 - removed,
        {
            proof {
                let pre = self.chars@;
                assert(pre.len() == t0.len() - removed);
                assert(pre.remove(p2 as int) =~= t0.take(p2 as int) + t0.skip(p2 + removed + 1));
            }
            self.chars.remove(p2);
            removed = removed + 1;
        }
        self.cursor = p2;
        proof {
            assert(self.chars@ =~= t0.take(p2 as int) + t0.skip(c0));
        }
    }

    /// Move the cursor to the start of the current line.
    pub fn move_to_line_start(&mut self)
        requires
            old(self).wf(),
        ensures
            final(self).wf(),
            final(self).text_seq() == old(self).text_seq(),
            final(self).cursor_spec() == line_start(old(self).text_seq(), old(self).cursor_spec()),
    {
        let p = self.pos_line_start(self.cursor);
        self.cursor = p;
    }

    /// Move the cursor to the end of the current line.
    pub fn move_to_line_end(&mut self)
        requires
            old(self).wf(),
        ensures
            final(self).wf(),
            final(self).text_seq() == old(self).text_seq(),
            final(self).cursor_spec() == line_end(old(self).text_seq(), old(self).cursor_spec()),
    {
        let p = self.pos_line_end(self.cursor);
        self.cursor = p;
    }

    /// Move the cursor up one line, clamped to the shorter line's length.
    pub fn move_up(&mut self)
        requires
            old(self).wf(),
        ensures
            final(self).wf(),
            final(self).text_seq() == old(self).text_seq(),
            final(self).cursor_spec() == up_pos(old(self).text_seq(), old(self).cursor_spec()),
    {
        let ls = self.pos_line_start(self.cursor);
        if ls == 0 {
            return;
        }
        let col = self.cursor - ls;
        let pls = self.pos_line_start(ls - 1);
        proof {
            lemma_line_start_le(self.chars@, ls - 1);
        }
        let plen = ls - 1 - pls;
        if col <= plen {
            self.cursor = pls + col;
        } else {
            self.cursor = pls + plen;
        }
    }

    /// Move the cursor down one line, clamped to the shorter line's length.
    pub fn move_down(&mut self)
        requires
            old(self).wf(),
        ensures
            final(self).wf(),
            final(self).text_seq() == old(self).text_seq(),
            final(self).cursor_spec() == down_pos(old(self).text_seq(), old(self).cursor_spec()),
    {
        if self.cursor >= self.chars.len() {
            return;
        }
        let ls = self.pos_line_start(self.cursor);
        let col = self.cursor - ls;
        let le = self.pos_line_end(self.cursor);
        if le >= self.chars.len() {
            return;
        }
        let nls = le + 1;
        if nls >= self.chars.len() {
            return;
        }
        let nle = self.pos_line_end(nls);
        let nlen = nle - nls;
        if col <= nlen {
            self.cursor = nls + col;
        } else {
            self.cursor = nls + nlen;
        }
    }

    /// Handle a key event; returns whether the event was handled. The new
    /// buffer, cursor and result are exactly `key_result` of the old state.
    pub fn handle_key(&mut self, key: KeyEvent) -> (r: bool)
        requires
            old(self).wf(),
        ensures
            final(self).wf(),
            ({
                let (t2, c2, h) = key_result(old(self).text_seq(), old(self).cursor_spec(), key);
                final(self).text_seq() == t2 && final(self).cursor_spec() == c2 && r == h
            }),
    {
        let ctrl = key.modifiers.ctrl;
        let alt = key.modifiers.alt;
        match key.code {
            KeyCode::Char(ch) => {
                if !ctrl && !alt {
                    self.insert_char(ch);
                    true
                } else if ctrl && ch == 'a' {
                    self.move_to_line_start();
                    true
                } else if ctrl && ch == 'e' {
                    self.move_to_line_end();
                    true
                } else if ctrl && ch == 'b' {
                    self.move_left();
                    true
                } else if ctrl && ch == 'f' {
                    self.move_right();
                    true
                } else if alt && ch == 'b' {
                    self.move_word_backward();
                    true
                } else if alt && ch == 'f' {
                    self.move_word_forward();
                    true
                } else if ctrl && ch == 'w' {
                    self.delete_word_backward();
                    true
                } else if ctrl && ch == 'u' {
                    let ghost t0 = self.chars@;
                    let mut rest: Vec<char> = Vec::new();
                    let mut i: usize = self.cursor;
                    while i < self.chars.len()
                        invariant
                            self.cursor <= i <= self.chars@.len(),
                            self.chars@ == t0,
                            self.cursor as int <= t0.len(),
                            rest@ == t0.subrange(self.cursor as int, i as int),
                        decreases self.chars@.len() - i,
                    {
                        rest.push(self.chars[i]);
                        assert(rest@ =~= t0.subrange(self.cursor as int, i + 1 as int));
                        i = i + 1;
                    }
                    proof {
                        assert(rest@ =~= t0.skip(self.cursor as int));
                    }
                    self.chars = rest;
                    self.cursor = 0;
                    true
                } else if ctrl && ch == 'k' {
                    self.chars.truncate(self.cursor);
                    assert(self.chars@ =~= old(self).text_seq().take(old(self).cursor_spec()));
                    true
                } else {
                    false
                }
            },
            KeyCode::Up => {
                self.move_up();
                true
            },
            KeyCode::Down => {
                self.move_down();
                true
            },
            KeyCode::Left => {
                self.move_left();
                true
            },
            KeyCode::Right => {
                self.move_right();
                true
            },
            KeyCode::Backspace => {
                self.delete_char_backward();
                true
            },
            KeyCode::Delete => {
                self.delete_char_forward();
                true
            },
            KeyCode::Home => {
                self.cursor = 0;
                true
            },
            KeyCode::End => {
                self.cursor = self.chars.len();
                true
            },
            _ => false,
        }
    }
}

proof fn lemma_line_start_le(t: Seq<char>, c: int)
    requires
        0 <= c <= t.len(),
    ensures
        0 <= line_start(t, c) <= c,
    decreases c,
{
    if 0 < c <= t.len() && t[c - 1] != '\n' {
        lemma_line_start_le(t, c - 1);
    }
}

} // verus!
