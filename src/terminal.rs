//! A model of how a terminal shows the echo, and the proof that the echo
//! of every edit keeps the visible line equal to the buffer.
use vstd::prelude::*;

use crate::control::{is_control, BS, CSI, ESC};
use crate::editor::{
    apply_edits,
    csi,
    delete_step,
    edit_step,
    insert_step,
    line_ok,
    Edit,
    LineState,
    CLEAR_EOL,
    CURSOR_LEFT,
    CURSOR_RIGHT,
    RESTORE_CURSOR,
    SAVE_CURSOR,
};

verus! {

/// The line of a terminal as far as the echo concerns it: its cells, the
/// cursor column, the saved column, and how far into `ESC [ x` it has read
/// (0: not in a sequence, 1: after `ESC`, 2: after `ESC [`).
pub struct Screen {
    pub cells: Seq<u8>,
    pub col: int,
    pub saved: int,
    pub mode: int,
}

/// The cells after printing `b` at column `col`; a cell beyond the end pads
/// the line with blanks.
pub open spec fn write_cell(cells: Seq<u8>, col: int, b: u8) -> Seq<u8> {
    if col < cells.len() {
        cells.update(col, b)
    } else {
        cells + Seq::new((col - cells.len()) as nat, |i: int| 0x20u8) + seq![b]
    }
}

/// The terminal after receiving one byte.
pub open spec fn term_put(t: Screen, b: u8) -> Screen {
    if t.mode == 1 {
        Screen { cells: t.cells, col: t.col, saved: t.saved, mode: if b == CSI { 2 } else { 0 } }
    } else if t.mode == 2 {
        if b == CURSOR_LEFT {
            Screen { cells: t.cells, col: if t.col > 0 { t.col - 1 } else { 0 }, saved: t.saved, mode: 0 }
        } else if b == CURSOR_RIGHT {
            Screen { cells: t.cells, col: t.col + 1, saved: t.saved, mode: 0 }
        } else if b == CLEAR_EOL {
            Screen {
                cells: if t.col < t.cells.len() { t.cells.subrange(0, t.col) } else { t.cells },
                col: t.col,
                saved: t.saved,
                mode: 0,
            }
        } else if b == SAVE_CURSOR {
            Screen { cells: t.cells, col: t.col, saved: t.col, mode: 0 }
        } else if b == RESTORE_CURSOR {
            Screen { cells: t.cells, col: t.saved, saved: t.saved, mode: 0 }
        } else {
            Screen { cells: t.cells, col: t.col, saved: t.saved, mode: 0 }
        }
    } else if b == ESC {
        Screen { cells: t.cells, col: t.col, saved: t.saved, mode: 1 }
    } else if b == BS {
        Screen { cells: t.cells, col: if t.col > 0 { t.col - 1 } else { 0 }, saved: t.saved, mode: 0 }
    } else if is_control(b) {
        t
    } else {
        Screen { cells: write_cell(t.cells, t.col, b), col: t.col + 1, saved: t.saved, mode: 0 }
    }
}

/// The terminal after receiving `bytes` in order.
pub open spec fn term_run(t: Screen, bytes: Seq<u8>) -> Screen
    decreases bytes.len(),
{
    if bytes.len() == 0 {
        t
    } else {
        term_run(term_put(t, bytes[0]), bytes.drop_first())
    }
}

/// No byte of `s` is a control byte.
pub open spec fn printable_line(s: Seq<u8>) -> bool {
    forall|i: int| 0 <= i < s.len() ==> !is_control(#[trigger] s[i])
}

/// The terminal shows line `s`: the cells hold its bytes followed by
/// blanks only, and the cursor is at the line's cursor.
pub open spec fn shows(t: Screen, s: LineState) -> bool {
    &&& t.mode == 0
    &&& t.col == s.cursor
    &&& s.text.len() <= t.cells.len()
    &&& t.cells.subrange(0, s.text.len() as int) == s.text
    &&& forall|i: int| s.text.len() <= i < t.cells.len() ==> #[trigger] t.cells[i] == 0x20u8
}

/// Every cell is blank: nothing is visible.
pub open spec fn blank(cells: Seq<u8>) -> bool {
    forall|i: int| 0 <= i < cells.len() ==> #[trigger] cells[i] == 0x20u8
}

/// The echo of `edits` applied in order from `s`.
pub open spec fn echo_of(s: LineState, cap: nat, edits: Seq<Edit>) -> Seq<u8>
    decreases edits.len(),
{
    if edits.len() == 0 {
        Seq::empty()
    } else {
        edit_step(s, cap, edits[0]).1 + echo_of(edit_step(s, cap, edits[0]).0, cap, edits.drop_first())
    }
}

/// Only printable bytes are inserted.
pub open spec fn printable_edits(edits: Seq<Edit>) -> bool {
    forall|i: int| 0 <= i < edits.len() ==> match #[trigger] edits[i] {
        Edit::Insert(b) => !is_control(b),
        _ => true,
    }
}

/// Receiving `a` then `b` is receiving `a + b`.
pub proof fn lemma_run_concat(t: Screen, a: Seq<u8>, b: Seq<u8>)
    ensures
        term_run(t, a + b) == term_run(term_run(t, a), b),
    decreases a.len(),
{
    if a.len() == 0 {
        assert(a + b =~= b);
    } else {
        assert((a + b).drop_first() =~= a.drop_first() + b);
        assert((a + b)[0] == a[0]);
        lemma_run_concat(term_put(t, a[0]), a.drop_first(), b);
    }
}

/// Receiving a single byte.
pub proof fn lemma_run_one(t: Screen, b: u8)
    ensures
        term_run(t, seq![b]) == term_put(t, b),
{
    assert(seq![b].drop_first() =~= Seq::<u8>::empty());
    assert(seq![b][0] == b);
    assert(term_run(term_put(t, b), Seq::<u8>::empty()) == term_put(t, b));
}

/// Receiving `ESC [ f` outside a sequence.
pub proof fn lemma_run_csi(t: Screen, f: u8)
    requires
        t.mode == 0,
    ensures
        term_run(t, csi(f)) == term_put(term_put(term_put(t, ESC), CSI), f),
{
    let t1 = term_put(t, ESC);
    let t2 = term_put(t1, CSI);
    assert(csi(f) =~= seq![ESC] + seq![CSI] + seq![f]);
    lemma_run_one(t, ESC);
    lemma_run_one(t1, CSI);
    lemma_run_one(t2, f);
    lemma_run_concat(t, seq![ESC] + seq![CSI], seq![f]);
    lemma_run_concat(t, seq![ESC], seq![CSI]);
}

/// Printable bytes received at the end of the cells are appended.
pub proof fn lemma_run_append(t: Screen, p: Seq<u8>)
    requires
        t.mode == 0,
        t.col == t.cells.len(),
        printable_line(p),
    ensures
        term_run(t, p) == (Screen {
            cells: t.cells + p,
            col: t.col + p.len(),
            saved: t.saved,
            mode: 0,
        }),
    decreases p.len(),
{
    if p.len() == 0 {
        assert(t.cells + p =~= t.cells);
    } else {
        let t1 = term_put(t, p[0]);
        assert(t1.cells =~= t.cells.push(p[0]));
        assert(printable_line(p.drop_first()));
        lemma_run_append(t1, p.drop_first());
        assert(t.cells.push(p[0]) + p.drop_first() =~= t.cells + p);
    }
}

/// The echo of an insertion keeps the terminal showing the line.
proof fn lemma_insert_shown(t: Screen, s: LineState, cap: nat, b: u8)
    requires
        shows(t, s),
        line_ok(s, cap),
        printable_line(s.text),
        !is_control(b),
    ensures
        shows(term_run(t, insert_step(s, cap, b).1), insert_step(s, cap, b).0),
        printable_line(insert_step(s, cap, b).0.text),
{
    let n = insert_step(s, cap, b).0;
    let echo = insert_step(s, cap, b).1;
    let c = s.cursor;
    let len = s.text.len() as int;
    if len < cap {
        assert forall|i: int| 0 <= i < n.text.len() implies !is_control(#[trigger] n.text[i]) by {
            if i < c {
                assert(n.text[i] == s.text[i]);
            } else if i > c {
                assert(n.text[i] == s.text[i - 1]);
            }
        }
    }
    if len >= cap {
        lemma_run_one(t, 0x07u8);
        assert(shows(term_run(t, echo), n));
    } else if c == len {
        lemma_run_one(t, b);
        let t1 = term_put(t, b);
        assert(t1.cells.subrange(0, len + 1) =~= n.text);
        assert(shows(term_run(t, echo), n));
    } else {
        let t1 = term_put(t, b);
        let t2 = term_put(term_put(term_put(t1, ESC), CSI), SAVE_CURSOR);
        let t3 = term_put(term_put(term_put(t2, ESC), CSI), CLEAR_EOL);
        let tail = n.text.subrange(c + 1, n.text.len() as int);
        let t4 = term_run(t3, tail);
        lemma_run_one(t, b);
        lemma_run_csi(t1, SAVE_CURSOR);
        lemma_run_csi(t2, CLEAR_EOL);
        assert(t3.cells =~= n.text.subrange(0, c + 1));
        assert(printable_line(tail));
        lemma_run_append(t3, tail);
        lemma_run_csi(t4, RESTORE_CURSOR);
        assert(t4.cells =~= n.text);
        let a = seq![b];
        let x = csi(SAVE_CURSOR);
        let y = csi(CLEAR_EOL);
        let z = csi(RESTORE_CURSOR);
        lemma_run_concat(t, a + x + y + tail, z);
        lemma_run_concat(t, a + x + y, tail);
        lemma_run_concat(t, a + x, y);
        lemma_run_concat(t, a, x);
        assert(echo == a + x + y + tail + z);
        let t5 = term_put(term_put(term_put(t4, ESC), CSI), RESTORE_CURSOR);
        assert(term_run(t, a + x) == t2);
        assert(term_run(t, a + x + y) == t3);
        assert(term_run(t, a + x + y + tail) == t4);
        assert(term_run(t, echo) == t5);
        assert(t5.col == c + 1);
        assert(t5.cells.subrange(0, n.text.len() as int) =~= n.text);
        assert(shows(t5, n));
    }
}

/// The echo of a deletion keeps the terminal showing the line.
proof fn lemma_delete_shown(t: Screen, s: LineState, cap: nat)
    requires
        shows(t, s),
        line_ok(s, cap),
        printable_line(s.text),
    ensures
        shows(term_run(t, delete_step(s).1), delete_step(s).0),
        printable_line(delete_step(s).0.text),
{
    let n = delete_step(s).0;
    let echo = delete_step(s).1;
    let c = s.cursor;
    let len = s.text.len() as int;
    if c > 0 {
        assert forall|i: int| 0 <= i < n.text.len() implies !is_control(#[trigger] n.text[i]) by {
            if i < c - 1 {
                assert(n.text[i] == s.text[i]);
            } else {
                assert(n.text[i] == s.text[i + 1]);
            }
        }
    }
    if c == 0 {
        lemma_run_one(t, 0x07u8);
    } else if c == len {
        let t1 = term_put(t, BS);
        let t2 = term_put(t1, 0x20u8);
        let t3 = term_put(t2, BS);
        assert(echo =~= seq![BS] + seq![0x20u8] + seq![BS]);
        lemma_run_one(t, BS);
        lemma_run_one(t1, 0x20u8);
        lemma_run_one(t2, BS);
        lemma_run_concat(t, seq![BS] + seq![0x20u8], seq![BS]);
        lemma_run_concat(t, seq![BS], seq![0x20u8]);
        assert(term_run(t, echo) == t3);
        assert(t3.cells.subrange(0, len - 1) =~= n.text);
        assert forall|i: int| n.text.len() <= i < t3.cells.len() implies #[trigger] t3.cells[i] == 0x20u8 by {
            if i > c - 1 {
                assert(t3.cells[i] == t.cells[i]);
            }
        }
        assert(shows(t3, n));
    } else {
        let t1 = term_put(term_put(term_put(t, ESC), CSI), CURSOR_LEFT);
        let t2 = term_put(term_put(term_put(t1, ESC), CSI), SAVE_CURSOR);
        let t3 = term_put(term_put(term_put(t2, ESC), CSI), CLEAR_EOL);
        let tail = n.text.subrange(c - 1, n.text.len() as int);
        let t4 = term_run(t3, tail);
        lemma_run_csi(t, CURSOR_LEFT);
        lemma_run_csi(t1, SAVE_CURSOR);
        lemma_run_csi(t2, CLEAR_EOL);
        assert(t3.cells =~= n.text.subrange(0, c - 1));
        assert(printable_line(tail));
        lemma_run_append(t3, tail);
        lemma_run_csi(t4, RESTORE_CURSOR);
        assert(t4.cells =~= n.text);
        let a = csi(CURSOR_LEFT);
        let x = csi(SAVE_CURSOR);
        let y = csi(CLEAR_EOL);
        let z = csi(RESTORE_CURSOR);
        lemma_run_concat(t, a + x + y + tail, z);
        lemma_run_concat(t, a + x + y, tail);
        lemma_run_concat(t, a + x, y);
        lemma_run_concat(t, a, x);
        assert(echo == a + x + y + tail + z);
        let t5 = term_put(term_put(term_put(t4, ESC), CSI), RESTORE_CURSOR);
        assert(term_run(t, a + x) == t2);
        assert(term_run(t, a + x + y) == t3);
        assert(term_run(t, a + x + y + tail) == t4);
        assert(term_run(t, echo) == t5);
        assert(t5.cells.subrange(0, n.text.len() as int) =~= n.text);
        assert(shows(t5, n));
    }
}

/// The echo of one edit keeps the terminal showing the line.
pub proof fn lemma_edit_shown(t: Screen, s: LineState, cap: nat, e: Edit)
    requires
        shows(t, s),
        line_ok(s, cap),
        printable_line(s.text),
        e matches Edit::Insert(b) ==> !is_control(b),
    ensures
        shows(term_run(t, edit_step(s, cap, e).1), edit_step(s, cap, e).0),
        printable_line(edit_step(s, cap, e).0.text),
{
    match e {
        Edit::Insert(b) => lemma_insert_shown(t, s, cap, b),
        Edit::Delete => lemma_delete_shown(t, s, cap),
        Edit::Left => {
            if s.cursor == 0 {
                lemma_run_one(t, 0x07u8);
            } else {
                lemma_run_csi(t, CURSOR_LEFT);
            }
        },
        Edit::Right => {
            if s.cursor >= s.text.len() {
                lemma_run_one(t, 0x07u8);
            } else {
                lemma_run_csi(t, CURSOR_RIGHT);
            }
        },
    }
}

/// The echo of a sequence of edits keeps the terminal showing the line.
pub proof fn lemma_edits_shown(t: Screen, s: LineState, cap: nat, edits: Seq<Edit>)
    requires
        shows(t, s),
        line_ok(s, cap),
        printable_line(s.text),
        printable_edits(edits),
    ensures
        shows(term_run(t, echo_of(s, cap, edits)), apply_edits(s, cap, edits)),
    decreases edits.len(),
{
    if edits.len() > 0 {
        let (n, e) = edit_step(s, cap, edits[0]);
        lemma_edit_shown(t, s, cap, edits[0]);
        crate::editor::lemma_edit_bounds(s, cap, edits[0]);
        assert(printable_edits(edits.drop_first())) by {
            assert forall|i: int| 0 <= i < edits.drop_first().len() implies match #[trigger] edits.drop_first()[i] {
                Edit::Insert(b) => !is_control(b),
                _ => true,
            } by {
                assert(edits.drop_first()[i] == edits[i + 1]);
            }
        }
        lemma_edits_shown(term_run(t, e), n, cap, edits.drop_first());
        lemma_run_concat(t, e, echo_of(n, cap, edits.drop_first()));
    }
}

/// Starting from an empty line on a blank terminal, any edits of printable
/// bytes that bring the line back to empty leave nothing visible on the
/// terminal line, with the cursor at column 0.
pub proof fn lemma_round_trip_blank(cap: nat, edits: Seq<Edit>)
    requires
        printable_edits(edits),
        apply_edits(LineState { text: Seq::empty(), cursor: 0 }, cap, edits).text.len() == 0,
    ensures
        ({
            let t = term_run(
                Screen { cells: Seq::empty(), col: 0, saved: 0, mode: 0 },
                echo_of(LineState { text: Seq::empty(), cursor: 0 }, cap, edits),
            );
            blank(t.cells) && t.col == 0
        }),
{
    let s = LineState { text: Seq::<u8>::empty(), cursor: 0 };
    let t = Screen { cells: Seq::<u8>::empty(), col: 0, saved: 0, mode: 0 };
    assert(t.cells.subrange(0, 0) =~= s.text);
    assert(shows(t, s));
    lemma_edits_shown(t, s, cap, edits);
    crate::editor::lemma_length_bounds(s, cap, edits);
}

} // verus!
