use ashell::control::{BELL, BS};
use ashell::editor::EditBuffer;

fn typed(bytes: &[u8]) -> (EditBuffer<8>, Vec<u8>) {
    let mut e = EditBuffer::<8>::new();
    let mut out = Vec::new();
    for b in bytes {
        e.insert(*b, &mut out);
    }
    (e, out)
}

#[test]
fn typing_appends_in_order() {
    let (e, out) = typed(b"abc");
    assert_eq!(e.text(), b"abc".to_vec());
    assert_eq!(e.len(), 3);
    assert_eq!(e.cursor(), 3);
    assert_eq!(out, b"abc".to_vec());
}

#[test]
fn length_counts_inserts_minus_deletes() {
    let (mut e, mut out) = typed(b"hello");
    e.delete(&mut out);
    e.delete(&mut out);
    e.insert(b'p', &mut out);
    assert_eq!(e.len(), 5 - 2 + 1);
    assert_eq!(e.text(), b"help".to_vec());
}

#[test]
fn insert_at_end_echoes_only_byte() {
    let (mut e, _) = typed(b"ab");
    let mut out = Vec::new();
    e.insert(b'c', &mut out);
    assert_eq!(out, b"c".to_vec());
}

#[test]
fn insert_mid_line_shifts_tail() {
    let (mut e, _) = typed(b"acd");
    let mut out = Vec::new();
    e.move_left(&mut out);
    e.move_left(&mut out);
    out.clear();
    e.insert(b'b', &mut out);
    assert_eq!(e.text(), b"abcd".to_vec());
    assert_eq!(e.cursor(), 2);
    assert_eq!(out, b"b\x1b[s\x1b[Kcd\x1b[u".to_vec());
}

#[test]
fn delete_at_end_rubs_out() {
    let (mut e, _) = typed(b"ab");
    let mut out = Vec::new();
    e.delete(&mut out);
    assert_eq!(e.text(), b"a".to_vec());
    assert_eq!(out, vec![BS, b' ', BS]);
}

#[test]
fn delete_mid_line_shifts_tail() {
    let (mut e, _) = typed(b"abcd");
    let mut out = Vec::new();
    e.move_left(&mut out);
    e.move_left(&mut out);
    out.clear();
    e.delete(&mut out);
    assert_eq!(e.text(), b"acd".to_vec());
    assert_eq!(e.cursor(), 1);
    assert_eq!(out, b"\x1b[D\x1b[s\x1b[Kcd\x1b[u".to_vec());
}

#[test]
fn full_line_refuses_insert() {
    let (mut e, _) = typed(b"12345678");
    let mut out = Vec::new();
    e.insert(b'9', &mut out);
    assert_eq!(out, vec![BELL]);
    assert_eq!(e.text(), b"12345678".to_vec());
    // also in the middle of a full line
    e.move_left(&mut out);
    out.clear();
    e.insert(b'9', &mut out);
    assert_eq!(out, vec![BELL]);
    assert_eq!(e.len(), 8);
}

#[test]
fn delete_at_start_refused() {
    let mut e = EditBuffer::<8>::new();
    let mut out = Vec::new();
    e.delete(&mut out);
    assert_eq!(out, vec![BELL]);
    assert_eq!(e.len(), 0);
}

#[test]
fn cursor_moves_stop_at_ends() {
    let (mut e, _) = typed(b"a");
    let mut out = Vec::new();
    e.move_right(&mut out);
    assert_eq!(out, vec![BELL]);
    out.clear();
    e.move_left(&mut out);
    assert_eq!(out, b"\x1b[D".to_vec());
    out.clear();
    e.move_left(&mut out);
    assert_eq!(out, vec![BELL]);
    out.clear();
    e.move_right(&mut out);
    assert_eq!(out, b"\x1b[C".to_vec());
    assert_eq!(e.cursor(), 1);
}

#[test]
fn replace_walks_back_and_redraws() {
    let (mut e, _) = typed(b"abc");
    let mut out = Vec::new();
    e.replace(b"xy", &mut out);
    assert_eq!(e.text(), b"xy".to_vec());
    assert_eq!(e.cursor(), 2);
    assert_eq!(out, b"\x08\x08\x08\x1b[Kxy".to_vec());
}

#[test]
fn append_drops_tail_and_refuses_overflow() {
    let (mut e, _) = typed(b"abcd");
    let mut out = Vec::new();
    e.move_left(&mut out);
    e.move_left(&mut out);
    out.clear();
    e.append(b"XY", &mut out);
    assert_eq!(e.text(), b"abXY".to_vec());
    assert_eq!(e.cursor(), 4);
    assert_eq!(out, b"\x1b[KXY".to_vec());
    out.clear();
    e.append(b"12345", &mut out);
    assert_eq!(out, vec![BELL]);
    assert_eq!(e.text(), b"abXY".to_vec());
}

#[test]
fn prefix_and_reset() {
    let (mut e, _) = typed(b"abc");
    assert_eq!(e.prefix(2), b"ab".to_vec());
    e.reset();
    assert_eq!(e.len(), 0);
    assert_eq!(e.cursor(), 0);
}

/// A small terminal: cells of one line, a cursor, and a saved cursor.
struct Term {
    cells: Vec<u8>,
    col: usize,
    saved: usize,
}

impl Term {
    fn run(&mut self, bytes: &[u8]) {
        let mut i = 0;
        while i < bytes.len() {
            let b = bytes[i];
            if b == 0x1b && i + 2 < bytes.len() + 0 && bytes[i + 1] == b'[' {
                match bytes[i + 2] {
                    b'D' => self.col = self.col.saturating_sub(1),
                    b'C' => self.col += 1,
                    b'K' => self.cells.truncate(self.col),
                    b's' => self.saved = self.col,
                    b'u' => self.col = self.saved,
                    _ => {}
                }
                i += 3;
                continue;
            }
            if b == 0x08 {
                self.col = self.col.saturating_sub(1);
            } else if b >= 0x20 && b != 0x7f {
                while self.cells.len() < self.col {
                    self.cells.push(b' ');
                }
                if self.col < self.cells.len() {
                    self.cells[self.col] = b;
                } else {
                    self.cells.push(b);
                }
                self.col += 1;
            }
            i += 1;
        }
    }
}

#[test]
fn edits_back_to_empty_leave_blank_line() {
    let mut e = EditBuffer::<8>::new();
    let mut out = Vec::new();
    for b in b"abc" {
        e.insert(*b, &mut out);
    }
    e.move_left(&mut out);
    e.insert(b'x', &mut out);
    e.move_left(&mut out);
    e.move_left(&mut out);
    e.delete(&mut out);
    e.move_right(&mut out);
    e.move_right(&mut out);
    e.move_right(&mut out);
    e.delete(&mut out);
    e.delete(&mut out);
    e.delete(&mut out);
    assert_eq!(e.len(), 0);
    assert_eq!(e.cursor(), 0);
    let mut t = Term { cells: Vec::new(), col: 0, saved: 0 };
    t.run(&out);
    assert!(t.cells.iter().all(|c| *c == b' '));
    assert_eq!(t.col, 0);
}

#[test]
fn echo_keeps_terminal_in_step() {
    let mut e = EditBuffer::<8>::new();
    let mut out = Vec::new();
    for b in b"wxyz" {
        e.insert(*b, &mut out);
    }
    e.move_left(&mut out);
    e.move_left(&mut out);
    e.delete(&mut out);
    e.insert(b'Q', &mut out);
    let mut t = Term { cells: Vec::new(), col: 0, saved: 0 };
    t.run(&out);
    assert_eq!(&t.cells[..e.len()], e.text().as_slice());
    assert_eq!(t.col, e.cursor());
}
