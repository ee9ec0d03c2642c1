//! The fixed-capacity edit buffer and the terminal echo of each edit.
use vstd::prelude::*;

use crate::control::{BELL, BS, CSI, ESC};

verus! {

/// The abstract state of a line being edited: its bytes and the insertion
/// point.
pub struct LineState {
    pub text: Seq<u8>,
    pub cursor: int,
}

/// A line state that a buffer of capacity `cap` can hold.
pub open spec fn line_ok(s: LineState, cap: nat) -> bool {
    0 <= s.cursor <= s.text.len() <= cap
}

/// `ESC [ f`: a control sequence with final byte `f`.
pub open spec fn csi(f: u8) -> Seq<u8> {
    seq![ESC, CSI, f]
}

/// Final byte of the save-cursor sequence.
pub const SAVE_CURSOR: u8 = 0x73;

/// Final byte of the restore-cursor sequence.
pub const RESTORE_CURSOR: u8 = 0x75;

/// Final byte of the clear-to-end-of-line sequence.
pub const CLEAR_EOL: u8 = 0x4b;

/// Final byte of the cursor-left sequence.
pub const CURSOR_LEFT: u8 = 0x44;

/// Final byte of the cursor-right sequence.
pub const CURSOR_RIGHT: u8 = 0x43;

/// `count` backspace bytes.
pub open spec fn backspaces(count: nat) -> Seq<u8> {
    Seq::new(count, |i: int| BS)
}

/// The echo of a destructive backspace at the end of the line.
pub open spec fn rubout() -> Seq<u8> {
    seq![BS, 0x20u8, BS]
}

/// Inserting `b` at the cursor; refused with a bell when the line is full.
pub open spec fn insert_step(s: LineState, cap: nat, b: u8) -> (LineState, Seq<u8>) {
    if s.text.len() >= cap {
        (s, seq![BELL])
    } else {
        let t = s.text.insert(s.cursor, b);
        let n = LineState { text: t, cursor: s.cursor + 1 };
        if s.cursor == s.text.len() {
            (n, seq![b])
        } else {
            (n, seq![b] + csi(SAVE_CURSOR) + csi(CLEAR_EOL) + t.subrange(s.cursor + 1, t.len() as int)
                + csi(RESTORE_CURSOR))
        }
    }
}

/// Deleting the byte left of the cursor; refused with a bell at column 0.
pub open spec fn delete_step(s: LineState) -> (LineState, Seq<u8>) {
    if s.cursor == 0 {
        (s, seq![BELL])
    } else {
        let t = s.text.remove(s.cursor - 1);
        let n = LineState { text: t, cursor: s.cursor - 1 };
        if s.cursor == s.text.len() {
            (n, rubout())
        } else {
            (n, csi(CURSOR_LEFT) + csi(SAVE_CURSOR) + csi(CLEAR_EOL) + t.subrange(
                s.cursor - 1,
                t.len() as int,
            ) + csi(RESTORE_CURSOR))
        }
    }
}

/// Moving the cursor one byte left; refused with a bell at column 0.
pub open spec fn left_step(s: LineState) -> (LineState, Seq<u8>) {
    if s.cursor == 0 {
        (s, seq![BELL])
    } else {
        (LineState { text: s.text, cursor: s.cursor - 1 }, csi(CURSOR_LEFT))
    }
}

/// Moving the cursor one byte right; refused with a bell at the end.
pub open spec fn right_step(s: LineState) -> (LineState, Seq<u8>) {
    if s.cursor >= s.text.len() {
        (s, seq![BELL])
    } else {
        (LineState { text: s.text, cursor: s.cursor + 1 }, csi(CURSOR_RIGHT))
    }
}

/// Replacing the whole line (a history entry): walk back to column 0,
/// clear, and print the new line with the cursor at its end.
pub open spec fn replace_step(s: LineState, line: Seq<u8>) -> (LineState, Seq<u8>) {
    (
        LineState { text: line, cursor: line.len() as int },
        backspaces(s.cursor as nat) + csi(CLEAR_EOL) + line,
    )
}

/// Completing at the cursor: the suffix replaces whatever followed the
/// cursor; refused with a bell when it does not fit.
pub open spec fn append_step(s: LineState, cap: nat, suffix: Seq<u8>) -> (LineState, Seq<u8>) {
    if s.cursor + suffix.len() > cap {
        (s, seq![BELL])
    } else {
        let t = s.text.subrange(0, s.cursor) + suffix;
        (LineState { text: t, cursor: t.len() as int }, csi(CLEAR_EOL) + suffix)
    }
}

/// One edit of the line, as the engine applies it.
pub enum Edit {
    Insert(u8),
    Delete,
    Left,
    Right,
}

/// The new state and the echo of one edit.
pub open spec fn edit_step(s: LineState, cap: nat, e: Edit) -> (LineState, Seq<u8>) {
    match e {
        Edit::Insert(b) => insert_step(s, cap, b),
        Edit::Delete => delete_step(s),
        Edit::Left => left_step(s),
        Edit::Right => right_step(s),
    }
}

/// Whether `e` is refused in state `s`.
pub open spec fn refused(s: LineState, cap: nat, e: Edit) -> bool {
    match e {
        Edit::Insert(_) => s.text.len() >= cap,
        Edit::Delete => s.cursor == 0,
        Edit::Left => s.cursor == 0,
        Edit::Right => s.cursor >= s.text.len(),
    }
}

/// The state after applying `edits` in order.
pub open spec fn apply_edits(s: LineState, cap: nat, edits: Seq<Edit>) -> LineState
    decreases edits.len(),
{
    if edits.len() == 0 {
        s
    } else {
        apply_edits(edit_step(s, cap, edits[0]).0, cap, edits.drop_first())
    }
}

/// Whether no edit of `edits` is refused when they are applied in order.
pub open spec fn all_accepted(s: LineState, cap: nat, edits: Seq<Edit>) -> bool
    decreases edits.len(),
{
    edits.len() == 0 || (!refused(s, cap, edits[0]) && all_accepted(
        edit_step(s, cap, edits[0]).0,
        cap,
        edits.drop_first(),
    ))
}

/// How many insertions `edits` holds.
pub open spec fn inserts(edits: Seq<Edit>) -> int
    decreases edits.len(),
{
    if edits.len() == 0 {
        0
    } else {
        (if edits[0] is Insert { 1int } else { 0int }) + inserts(edits.drop_first())
    }
}

/// How many deletions `edits` holds.
pub open spec fn deletes(edits: Seq<Edit>) -> int
    decreases edits.len(),
{
    if edits.len() == 0 {
        0
    } else {
        (if edits[0] is Delete { 1int } else { 0int }) + deletes(edits.drop_first())
    }
}

/// Every edit keeps `cursor <= length <= cap`; a refused edit leaves the
/// line as it was and only rings the bell.
pub proof fn lemma_edit_bounds(s: LineState, cap: nat, e: Edit)
    requires
        line_ok(s, cap),
    ensures
        line_ok(edit_step(s, cap, e).0, cap),
        refused(s, cap, e) ==> edit_step(s, cap, e) == (s, seq![BELL]),
{
}

/// Completion and history replacement keep `cursor <= length <= cap` too;
/// a completion that does not fit only rings the bell.
pub proof fn lemma_replace_bounds(s: LineState, cap: nat, other: Seq<u8>)
    requires
        line_ok(s, cap),
        other.len() <= cap,
    ensures
        line_ok(replace_step(s, other).0, cap),
        line_ok(append_step(s, cap, other).0, cap),
        s.cursor + other.len() > cap ==> append_step(s, cap, other) == (s, seq![BELL]),
{
}

/// When no edit is refused, the length of the line grows by the number of
/// insertions and shrinks by the number of deletions.
pub proof fn lemma_length_counts(s: LineState, cap: nat, edits: Seq<Edit>)
    requires
        line_ok(s, cap),
        all_accepted(s, cap, edits),
    ensures
        apply_edits(s, cap, edits).text.len() == s.text.len() + inserts(edits) - deletes(edits),
        line_ok(apply_edits(s, cap, edits), cap),
    decreases edits.len(),
{
    if edits.len() > 0 {
        lemma_edit_bounds(s, cap, edits[0]);
        lemma_length_counts(edit_step(s, cap, edits[0]).0, cap, edits.drop_first());
    }
}

/// Applying edits keeps `cursor <= length <= cap`.
pub proof fn lemma_length_bounds(s: LineState, cap: nat, edits: Seq<Edit>)
    requires
        line_ok(s, cap),
    ensures
        line_ok(apply_edits(s, cap, edits), cap),
    decreases edits.len(),
{
    if edits.len() > 0 {
        lemma_edit_bounds(s, cap, edits[0]);
        lemma_length_bounds(edit_step(s, cap, edits[0]).0, cap, edits.drop_first());
    }
}

/// The insertion of each byte of `bytes`, in order.
pub open spec fn typing(bytes: Seq<u8>) -> Seq<Edit> {
    bytes.map_values(|b: u8| Edit::Insert(b))
}

/// Typing at the end of a line appends exactly the typed bytes, as long
/// as they fit.
pub proof fn lemma_typing_appends(s: LineState, cap: nat, bytes: Seq<u8>)
    requires
        line_ok(s, cap),
        s.cursor == s.text.len(),
        s.text.len() + bytes.len() <= cap,
    ensures
        apply_edits(s, cap, typing(bytes)) == (LineState {
            text: s.text + bytes,
            cursor: (s.text.len() + bytes.len()) as int,
        }),
        all_accepted(s, cap, typing(bytes)),
    decreases bytes.len(),
{
    if bytes.len() == 0 {
        assert(s.text + bytes =~= s.text);
    } else {
        let n = insert_step(s, cap, bytes[0]).0;
        assert(n.text =~= s.text.push(bytes[0]));
        assert(typing(bytes).drop_first() =~= typing(bytes.drop_first()));
        lemma_typing_appends(n, cap, bytes.drop_first());
        assert(n.text + bytes.drop_first() =~= s.text + bytes);
    }
}

/// Typing into an empty line gives exactly the typed bytes, with the cursor
/// after them.
pub proof fn lemma_typed_line(cap: nat, bytes: Seq<u8>)
    requires
        bytes.len() <= cap,
    ensures
        apply_edits(LineState { text: Seq::empty(), cursor: 0 }, cap, typing(bytes)) == (LineState {
            text: bytes,
            cursor: bytes.len() as int,
        }),
{
    let e = LineState { text: Seq::<u8>::empty(), cursor: 0 };
    lemma_typing_appends(e, cap, bytes);
    assert(e.text + bytes =~= bytes);
}

/// An insertion keeps the bytes before the cursor, puts the new byte at the
/// cursor, and moves exactly the `length - cursor` bytes after it one place
/// right. At the end of the line nothing moves and only the byte is echoed.
pub proof fn lemma_insert_shift(s: LineState, cap: nat, b: u8)
    requires
        line_ok(s, cap),
        s.text.len() < cap,
    ensures
        ({
            let (n, e) = insert_step(s, cap, b);
            &&& n.text.len() == s.text.len() + 1
            &&& n.cursor == s.cursor + 1
            &&& n.text.subrange(0, s.cursor) == s.text.subrange(0, s.cursor)
            &&& n.text[s.cursor] == b
            &&& n.text.subrange(s.cursor + 1, n.text.len() as int) == s.text.subrange(
                s.cursor,
                s.text.len() as int,
            )
            &&& s.cursor == s.text.len() ==> e == seq![b]
        }),
{
    let n = insert_step(s, cap, b).0;
    assert(n.text.subrange(0, s.cursor) =~= s.text.subrange(0, s.cursor));
    assert(n.text.subrange(s.cursor + 1, n.text.len() as int) =~= s.text.subrange(
        s.cursor,
        s.text.len() as int,
    ));
}

/// A deletion keeps the bytes before the deleted one and moves exactly the
/// `length - cursor` bytes from the cursor on one place left. At the end of
/// the line nothing moves and only the rubout is echoed.
pub proof fn lemma_delete_shift(s: LineState)
    requires
        0 < s.cursor <= s.text.len(),
    ensures
        ({
            let (n, e) = delete_step(s);
            &&& n.text.len() == s.text.len() - 1
            &&& n.cursor == s.cursor - 1
            &&& n.text.subrange(0, s.cursor - 1) == s.text.subrange(0, s.cursor - 1)
            &&& n.text.subrange(s.cursor - 1, n.text.len() as int) == s.text.subrange(
                s.cursor,
                s.text.len() as int,
            )
            &&& s.cursor == s.text.len() ==> e == rubout()
        }),
{
    let n = delete_step(s).0;
    assert(n.text.subrange(0, s.cursor - 1) =~= s.text.subrange(0, s.cursor - 1));
    assert(n.text.subrange(s.cursor - 1, n.text.len() as int) =~= s.text.subrange(
        s.cursor,
        s.text.len() as int,
    ));
}

/// Appends `ESC [ f` to `out`.
pub fn push_csi(out: &mut Vec<u8>, f: u8)
    ensures
        final(out)@ == old(out)@ + csi(f),
{
    out.push(ESC);
    out.push(CSI);
    out.push(f);
}

/// Appends every byte of `bytes` to `out`.
pub fn push_all(out: &mut Vec<u8>, bytes: &[u8])
    ensures
        final(out)@ == old(out)@ + bytes@,
{
    let ghost start = out@;
    let mut i: usize = 0;
    while i < bytes.len()
        invariant
            0 <= i <= bytes@.len(),
            out@ == start + bytes@.subrange(0, i as int),
        decreases bytes@.len() - i,
    {
        out.push(bytes[i]);
        i = i + 1;
        proof {
            assert(bytes@.subrange(0, i as int) =~= bytes@.subrange(0, i - 1) + seq![bytes@[i - 1]]);
        }
    }
    assert(bytes@.subrange(0, bytes@.len() as int) =~= bytes@);
}

/// A line of at most `CMD_LEN` bytes and the cursor within it.
pub struct EditBuffer<const CMD_LEN: usize> {
    buf: [u8; CMD_LEN],
    len: usize,
    cursor: usize,
}

impl<const CMD_LEN: usize> View for EditBuffer<CMD_LEN> {
    type V = LineState;

    closed spec fn view(&self) -> LineState {
        LineState { text: self.buf@.subrange(0, self.len as int), cursor: self.cursor as int }
    }
}

impl<const CMD_LEN: usize> EditBuffer<CMD_LEN> {
    /// The buffer's invariant: `cursor <= length <= CMD_LEN`.
    pub closed spec fn wf(&self) -> bool {
        self.cursor <= self.len <= CMD_LEN
    }

    /// What follows from the invariant, in terms of the view.
    pub proof fn lemma_wf(&self)
        requires
            self.wf(),
        ensures
            line_ok(self@, CMD_LEN as nat),
    {
    }

    /// An empty line.
    pub fn new() -> (r: Self)
        ensures
            r.wf(),
            r@.text == Seq::<u8>::empty(),
            r@.cursor == 0,
    {
        let r = EditBuffer { buf: vstd::array::array_fill_for_copy_types(0u8), len: 0, cursor: 0 };
        assert(r@.text =~= Seq::<u8>::empty());
        r
    }

    /// The number of bytes in the line.
    pub fn len(&self) -> (r: usize)
        requires
            self.wf(),
        ensures
            r == self@.text.len(),
    {
        self.len
    }

    /// The cursor position.
    pub fn cursor(&self) -> (r: usize)
        requires
            self.wf(),
        ensures
            r == self@.cursor,
    {
        self.cursor
    }

    /// A copy of the line's bytes, up to `end` (at most the length).
    pub fn prefix(&self, end: usize) -> (r: Vec<u8>)
        requires
            self.wf(),
            end <= self@.text.len(),
        ensures
            r@ == self@.text.subrange(0, end as int),
    {
        let mut v: Vec<u8> = Vec::new();
        let mut i: usize = 0;
        while i < end
            invariant
                self.wf(),
                end <= self.len,
                i <= end,
                v@ == self.buf@.subrange(0, i as int),
            decreases end - i,
        {
            v.push(self.buf[i]);
            i = i + 1;
            proof {
                assert(self.buf@.subrange(0, i as int) =~= self.buf@.subrange(0, i - 1) + seq![
                    self.buf@[i - 1],
                ]);
            }
        }
        assert(v@ =~= self@.text.subrange(0, end as int));
        v
    }

    /// A copy of the whole line.
    pub fn text(&self) -> (r: Vec<u8>)
        requires
            self.wf(),
        ensures
            r@ == self@.text,
    {
        let r = self.prefix(self.len);
        assert(self@.text.subrange(0, self.len as int) =~= self@.text);
        r
    }

    /// Empties the line.
    pub fn reset(&mut self)
        ensures
            final(self).wf(),
            final(self)@.text == Seq::<u8>::empty(),
            final(self)@.cursor == 0,
    {
        self.len = 0;
        self.cursor = 0;
        assert(self@.text =~= Seq::<u8>::empty());
    }

    /// Inserts `b` at the cursor and echoes the change.
    pub fn insert(&mut self, b: u8, out: &mut Vec<u8>)
        requires
            old(self).wf(),
        ensures
            final(self).wf(),
            (final(self)@, final(out)@) == ({
                let (s, e) = insert_step(old(self)@, CMD_LEN as nat, b);
                (s, old(out)@ + e)
            }),
    {
        let ghost s0 = self@;
        let ghost b0 = self.buf@;
        if self.len >= CMD_LEN {
            out.push(BELL);
            return;
        }
        let c = self.cursor;
        out.push(b);
        let mut i: usize = self.len;
        while i > c
            invariant
                c <= i <= self.len < CMD_LEN,
                self.len == s0.text.len(),
                self.cursor == c,
                self.buf@.len() == CMD_LEN,
                forall|j: int| 0 <= j <= i ==> self.buf@[j] == b0[j],
                forall|j: int| i < j <= self.len ==> self.buf@[j] == b0[j - 1],
            decreases i,
        {
            let v = self.buf[i - 1];
            self.buf[i] = v;
            i = i - 1;
        }
        self.buf[c] = b;
        self.len = self.len + 1;
        self.cursor = c + 1;
        assert(self@.text =~= s0.text.insert(c as int, b));
        if c + 1 < self.len {
            push_csi(out, SAVE_CURSOR);
            push_csi(out, CLEAR_EOL);
            push_all(out, self.buf.as_slice().split_at(self.len).0.split_at(c + 1).1);
            push_csi(out, RESTORE_CURSOR);
        }
    }
    /// Deletes the byte left of the cursor and echoes the change.
    pub fn delete(&mut self, out: &mut Vec<u8>)
        requires
            old(self).wf(),
        ensures
            final(self).wf(),
            (final(self)@, final(out)@) == ({
                let (s, e) = delete_step(old(self)@);
                (s, old(out)@ + e)
            }),
    {
        let ghost s0 = self@;
        let ghost b0 = self.buf@;
        if self.cursor == 0 {
            out.push(BELL);
            return;
        }
        let c = self.cursor;
        let mut i: usize = c;
        while i < self.len
            invariant
                1 <= c <= i <= self.len <= CMD_LEN,
                self.len == s0.text.len(),
                self.cursor == c,
                self.buf@.len() == CMD_LEN,
                forall|j: int| 0 <= j < c - 1 ==> self.buf@[j] == b0[j],
                forall|j: int| c - 1 <= j < i - 1 ==> self.buf@[j] == b0[j + 1],
                forall|j: int| i <= j < self.len ==> self.buf@[j] == b0[j],
            decreases self.len - i,
        {
            let v = self.buf[i];
            self.buf[i - 1] = v;
            i = i + 1;
        }
        let at_end = c == self.len;
        self.len = self.len - 1;
        self.cursor = c - 1;
        assert(self@.text =~= s0.text.remove(c - 1));
        if at_end {
            out.push(BS);
            out.push(0x20u8);
            out.push(BS);
            assert(out@ =~= old(out)@ + rubout());
        } else {
            push_csi(out, CURSOR_LEFT);
            push_csi(out, SAVE_CURSOR);
            push_csi(out, CLEAR_EOL);
            push_all(out, self.buf.as_slice().split_at(self.len).0.split_at(c - 1).1);
            push_csi(out, RESTORE_CURSOR);
        }
    }

    /// Moves the cursor one byte left.
    pub fn move_left(&mut self, out: &mut Vec<u8>)
        requires
            old(self).wf(),
        ensures
            final(self).wf(),
            (final(self)@, final(out)@) == ({
                let (s, e) = left_step(old(self)@);
                (s, old(out)@ + e)
            }),
    {
        if self.cursor > 0 {
            self.cursor = self.cursor - 1;
            push_csi(out, CURSOR_LEFT);
        } else {
            out.push(BELL);
        }
    }

    /// Moves the cursor one byte right.
    pub fn move_right(&mut self, out: &mut Vec<u8>)
        requires
            old(self).wf(),
        ensures
            final(self).wf(),
            (final(self)@, final(out)@) == ({
                let (s, e) = right_step(old(self)@);
                (s, old(out)@ + e)
            }),
    {
        if self.cursor < self.len {
            self.cursor = self.cursor + 1;
            push_csi(out, CURSOR_RIGHT);
        } else {
            out.push(BELL);
        }
    }

    /// Replaces the line by `line` and echoes it from column 0.
    pub fn replace(&mut self, line: &[u8], out: &mut Vec<u8>)
        requires
            old(self).wf(),
            line@.len() <= CMD_LEN,
        ensures
            final(self).wf(),
            (final(self)@, final(out)@) == ({
                let (s, e) = replace_step(old(self)@, line@);
                (s, old(out)@ + e)
            }),
    {
        let ghost o0 = out@;
        let mut k: usize = 0;
        while k < self.cursor
            invariant
                k <= self.cursor,
                out@ == o0 + backspaces(k as nat),
            decreases self.cursor - k,
        {
            out.push(BS);
            k = k + 1;
            assert(out@ =~= o0 + backspaces(k as nat));
        }
        let mut i: usize = 0;
        while i < line.len()
            invariant
                i <= line@.len() <= CMD_LEN,
                self.buf@.len() == CMD_LEN,
                forall|j: int| 0 <= j < i ==> self.buf@[j] == line@[j],
            decreases line@.len() - i,
        {
            self.buf[i] = line[i];
            i = i + 1;
        }
        self.len = line.len();
        self.cursor = line.len();
        assert(self@.text =~= line@);
        push_csi(out, CLEAR_EOL);
        push_all(out, line);
    }

    /// Writes `suffix` at the cursor, dropping what followed it, and echoes
    /// it.
    pub fn append(&mut self, suffix: &[u8], out: &mut Vec<u8>)
        requires
            old(self).wf(),
        ensures
            final(self).wf(),
            (final(self)@, final(out)@) == ({
                let (s, e) = append_step(old(self)@, CMD_LEN as nat, suffix@);
                (s, old(out)@ + e)
            }),
    {
        let ghost s0 = self@;
        let ghost b0 = self.buf@;
        if suffix.len() > CMD_LEN - self.cursor {
            out.push(BELL);
            return;
        }
        let c = self.cursor;
        let mut i: usize = 0;
        while i < suffix.len()
            invariant
                c == self.cursor,
                c + suffix@.len() <= CMD_LEN,
                i <= suffix@.len(),
                self.buf@.len() == CMD_LEN,
                forall|j: int| 0 <= j < c ==> self.buf@[j] == b0[j],
                forall|j: int| 0 <= j < i ==> self.buf@[c + j] == suffix@[j],
            decreases suffix@.len() - i,
        {
            self.buf[c + i] = suffix[i];
            i = i + 1;
        }
        self.cursor = c + suffix.len();
        self.len = self.cursor;
        assert(self@.text =~= s0.text.subrange(0, c as int) + suffix@);
        push_csi(out, CLEAR_EOL);
        push_all(out, suffix);
    }
}

} // verus!
