//! The shell engine: a byte-driven state machine over an edit buffer, with
//! history and autocompletion as pluggable capabilities.
use vstd::prelude::*;
use vstd::string::StringSliceAdditionalSpecFns;
use vstd::utf8::{encode_utf8, valid_utf8};

use crate::autocomplete::Autocomplete;
use crate::control::{is_ascii_control, is_control, BELL, BS, CR, CSI, DEL, ESC, TAB};
use crate::editor::{
    append_step,
    delete_step,
    insert_step,
    left_step,
    replace_step,
    right_step,
    EditBuffer,
    LineState,
};
use crate::error::{Input, ShellError, ShellResult};
use crate::history::History;
use crate::line::{args_part, command_part, decode, find_space, slice_of, trim, trim_bounds};

verus! {

/// Final byte of the up-arrow sequence.
pub const KEY_UP: u8 = 0x41;

/// Final byte of the down-arrow sequence.
pub const KEY_DOWN: u8 = 0x42;

/// Final byte of the right-arrow sequence.
pub const KEY_RIGHT: u8 = 0x43;

/// Final byte of the left-arrow sequence.
pub const KEY_LEFT: u8 = 0x44;

/// The prompt written at start-up and after each submitted line: `"\r\n#>"`.
pub open spec fn prompt() -> Seq<u8> {
    seq![0x0du8, 0x0au8, 0x23u8, 0x3eu8]
}

/// Appends the prompt to `out`.
pub fn write_prompt(out: &mut Vec<u8>)
    ensures
        final(out)@ == old(out)@ + prompt(),
{
    out.push(0x0du8);
    out.push(0x0au8);
    out.push(0x23u8);
    out.push(0x3eu8);
}

/// Appends the bell to `out`.
pub fn ring_bell(out: &mut Vec<u8>)
    ensures
        final(out)@ == old(out)@ + seq![BELL],
{
    out.push(BELL);
    assert(out@ =~= old(out)@ + seq![BELL]);
}

/// How the engine reads a byte, given whether `ESC` and `ESC [` were seen.
pub enum Key {
    /// `[` right after `ESC`.
    CsiStart,
    /// `ESC`, in any state.
    Escape,
    /// The final byte of `ESC [ x`.
    CsiFinal,
    /// A byte after `ESC` that does not continue the sequence.
    Aborted,
    Tab,
    Delete,
    Submit,
    /// Another ASCII control byte, handed to the environment.
    Control,
    /// Anything else: inserted into the line.
    Printable,
}

/// The transition table, highest priority first.
pub open spec fn classify(escape: bool, control: bool, b: u8) -> Key {
    if escape && b == CSI {
        Key::CsiStart
    } else if b == ESC {
        Key::Escape
    } else if control {
        Key::CsiFinal
    } else if escape {
        Key::Aborted
    } else if b == TAB {
        Key::Tab
    } else if b == DEL || b == BS {
        Key::Delete
    } else if b == CR {
        Key::Submit
    } else if is_control(b) {
        Key::Control
    } else {
        Key::Printable
    }
}

/// The escape flags after reading `b`: (`ESC` seen, `ESC [` seen).
pub open spec fn next_flags(escape: bool, control: bool, b: u8) -> (bool, bool) {
    match classify(escape, control, b) {
        Key::CsiStart => (true, true),
        Key::Escape => (true, control),
        _ => (false, false),
    }
}

/// A command that a line is made of, as text: its name and arguments.
pub open spec fn command_of(r: Input, line: Seq<u8>) -> bool {
    match r {
        Input::Command((c, a)) => encode_utf8(c@) == command_part(line) && encode_utf8(a@)
            == args_part(line),
        _ => false,
    }
}

/// The host's side of the shell: what runs a submitted command and what
/// handles a control byte that the engine does not. An error is a code of
/// the host's own.
pub trait Environment {
    fn command(&mut self, cmd: &str, args: &str) -> Result<(), i32>;

    fn control(&mut self, code: u8) -> Result<(), i32>;
}

/// The line editor: an edit buffer of `CMD_LEN` bytes, the escape-sequence
/// parser state, an autocompletion source and a history.
pub struct AShell<A: Autocomplete, H: History<CMD_LEN>, const CMD_LEN: usize> {
    autocomplete: A,
    history: H,
    editor: EditBuffer<CMD_LEN>,
    control: bool,
    escape: bool,
    autocomplete_on: bool,
    history_on: bool,
}

impl<A: Autocomplete, H: History<CMD_LEN>, const CMD_LEN: usize> AShell<A, H, CMD_LEN> {
    /// The line being edited.
    pub closed spec fn line(&self) -> LineState {
        self.editor@
    }

    /// Whether `ESC` was the last byte of an unfinished sequence.
    pub closed spec fn escape_seen(&self) -> bool {
        self.escape
    }

    /// Whether `ESC [` was seen and a final byte is awaited.
    pub closed spec fn control_seen(&self) -> bool {
        self.control
    }

    /// Whether `TAB` completes.
    pub closed spec fn completion_on(&self) -> bool {
        self.autocomplete_on
    }

    /// Whether up and down browse the history.
    pub closed spec fn history_on(&self) -> bool {
        self.history_on
    }

    /// The autocompletion source.
    pub closed spec fn completer(&self) -> A {
        self.autocomplete
    }

    /// The history.
    pub closed spec fn hist(&self) -> H {
        self.history
    }

    /// The edit buffer's own invariant.
    pub closed spec fn buffer_ok(&self) -> bool {
        self.editor.wf()
    }

    /// The engine's invariant.
    pub open spec fn wf(&self) -> bool {
        self.buffer_ok() && self.hist().inv()
    }

    /// Up and down act only at the end of the line, with history on.
    pub open spec fn can_browse(&self) -> bool {
        self.line().cursor == self.line().text.len() && self.history_on()
    }

    /// Everything but the line and the history is as in `other`.
    pub open spec fn same_settings(&self, other: &Self) -> bool {
        self.completion_on() == other.completion_on() && self.history_on()
            == other.history_on() && self.completer() == other.completer()
    }

    /// Line, history and output are as before.
    pub open spec fn unchanged(&self, next: &Self, out0: Seq<u8>, out1: Seq<u8>) -> bool {
        next.line() == self.line() && next.hist() == self.hist() && out1 == out0
    }

    /// Only the bell was written.
    pub open spec fn rang(&self, next: &Self, out0: Seq<u8>, out1: Seq<u8>) -> bool {
        next.line() == self.line() && next.hist() == self.hist() && out1 == out0 + seq![BELL]
    }

    /// The line took the state of `step` and its echo was written; the
    /// history is as before.
    pub open spec fn edited(
        &self,
        next: &Self,
        out0: Seq<u8>,
        out1: Seq<u8>,
        step: (LineState, Seq<u8>),
    ) -> bool {
        next.line() == step.0 && out1 == out0 + step.1 && next.hist() == self.hist()
    }

    /// Up arrow: the history stepped back and its entry replaced the line,
    /// or the bell rang.
    pub open spec fn browsed_back(&self, next: &Self, out0: Seq<u8>, out1: Seq<u8>) -> bool {
        if !self.can_browse() {
            self.rang(next, out0, out1)
        } else {
            self.hist().stepped_back(&next.hist()) && match self.hist().back_entry() {
                Some(l) => next.line() == replace_step(self.line(), l).0 && out1 == out0
                    + replace_step(self.line(), l).1,
                None => next.line() == self.line() && out1 == out0 + seq![BELL],
            }
        }
    }

    /// Down arrow: the history stepped forward and its entry replaced the
    /// line, or the bell rang.
    pub open spec fn browsed_forward(&self, next: &Self, out0: Seq<u8>, out1: Seq<u8>) -> bool {
        if !self.can_browse() {
            self.rang(next, out0, out1)
        } else {
            self.hist().stepped_forward(&next.hist()) && match self.hist().forward_entry() {
                Some(l) => next.line() == replace_step(self.line(), l).0 && out1 == out0
                    + replace_step(self.line(), l).1,
                None => next.line() == self.line() && out1 == out0 + seq![BELL],
            }
        }
    }

    /// Tab with autocompletion on: the line up to the cursor must be text;
    /// its completion is written at the cursor, or the bell rings.
    pub open spec fn completed(
        &self,
        next: &Self,
        out0: Seq<u8>,
        out1: Seq<u8>,
        r: Result<Option<Input>, ShellError>,
    ) -> bool {
        let p = self.line().text.subrange(0, self.line().cursor);
        if !valid_utf8(p) {
            r matches Err(ShellError::BadInputError(_)) && self.unchanged(next, out0, out1)
        } else {
            r == Ok::<Option<Input>, ShellError>(None) && match self.completer().suggestion(p) {
                Some(sfx) => self.edited(next, out0, out1, append_step(self.line(), CMD_LEN as nat, sfx)),
                None => self.rang(next, out0, out1),
            }
        }
    }

    /// Carriage return: a blank line brings the prompt; a line whose parts
    /// are not text is an error; otherwise the trimmed line is pushed to the
    /// history, the buffer is emptied and the command is returned. The
    /// caller writes the prompt once the command has run.
    pub open spec fn submitted(
        &self,
        next: &Self,
        out0: Seq<u8>,
        out1: Seq<u8>,
        r: Result<Option<Input>, ShellError>,
    ) -> bool {
        let t = trim(self.line().text);
        if t.len() == 0 {
            r == Ok::<Option<Input>, ShellError>(None) && next.line() == self.line() && next.hist()
                == self.hist() && out1 == out0 + prompt()
        } else if !valid_utf8(command_part(t)) || !valid_utf8(args_part(t)) {
            r matches Err(ShellError::BadInputError(_)) && self.unchanged(next, out0, out1)
        } else {
            r matches Ok(Some(i)) && command_of(i, t) && self.hist().pushed(t, &next.hist())
                && next.line() == (LineState { text: Seq::<u8>::empty(), cursor: 0 }) && out1 == out0
        }
    }

    /// The effect of reading byte `b`, apart from the escape flags.
    pub open spec fn stepped(
        &self,
        next: &Self,
        out0: Seq<u8>,
        out1: Seq<u8>,
        b: u8,
        r: Result<Option<Input>, ShellError>,
    ) -> bool {
        match classify(self.escape_seen(), self.control_seen(), b) {
            Key::CsiStart | Key::Escape | Key::Aborted => r == Ok::<Option<Input>, ShellError>(None)
                && self.unchanged(next, out0, out1),
            Key::CsiFinal => r == Ok::<Option<Input>, ShellError>(None) && (if b == KEY_LEFT {
                self.edited(next, out0, out1, left_step(self.line()))
            } else if b == KEY_RIGHT {
                self.edited(next, out0, out1, right_step(self.line()))
            } else if b == KEY_UP {
                self.browsed_back(next, out0, out1)
            } else if b == KEY_DOWN {
                self.browsed_forward(next, out0, out1)
            } else {
                self.unchanged(next, out0, out1)
            }),
            Key::Tab => if self.completion_on() {
                self.completed(next, out0, out1, r)
            } else {
                r == Ok::<Option<Input>, ShellError>(None) && self.rang(next, out0, out1)
            },
            Key::Delete => r == Ok::<Option<Input>, ShellError>(None) && self.edited(
                next,
                out0,
                out1,
                delete_step(self.line()),
            ),
            Key::Submit => self.submitted(next, out0, out1, r),
            Key::Control => r == Ok::<Option<Input>, ShellError>(Some(Input::Control(b)))
                && self.unchanged(next, out0, out1),
            Key::Printable => r == Ok::<Option<Input>, ShellError>(None) && self.edited(
                next,
                out0,
                out1,
                insert_step(self.line(), CMD_LEN as nat, b),
            ),
        }
    }

    /// Up and down away from the end of the line, or with history off,
    /// only ring the bell: the line and the history stay as they are.
    pub proof fn lemma_browse_needs_line_end(&self, next: &Self, out0: Seq<u8>, out1: Seq<u8>)
        requires
            !self.can_browse(),
        ensures
            self.browsed_back(next, out0, out1) ==> self.rang(next, out0, out1),
            self.browsed_forward(next, out0, out1) ==> self.rang(next, out0, out1),
    {
    }

    /// A new engine with an empty line; writes the prompt.
    pub fn new(autocomplete: A, history: H, out: &mut Vec<u8>) -> (r: Self)
        requires
            history.inv(),
        ensures
            r.wf(),
            r.line().text == Seq::<u8>::empty(),
            r.line().cursor == 0,
            !r.escape_seen() && !r.control_seen(),
            r.completion_on() && r.history_on(),
            r.completer() == autocomplete,
            r.hist() == history,
            final(out)@ == old(out)@ + prompt(),
    {
        write_prompt(out);
        AShell {
            autocomplete,
            history,
            editor: EditBuffer::new(),
            control: false,
            escape: false,
            autocomplete_on: true,
            history_on: true,
        }
    }
    /// Writes the bell.
    pub fn bell(&self, out: &mut Vec<u8>) -> (r: ShellResult)
        ensures
            final(out)@ == old(out)@ + seq![BELL],
            r is Ok,
    {
        ring_bell(out);
        Ok(())
    }

    /// Turns autocompletion on or off.
    pub fn autocomplete(&mut self, autocomplete_on: bool)
        ensures
            final(self).completion_on() == autocomplete_on,
            final(self).history_on() == old(self).history_on(),
            final(self).completer() == old(self).completer(),
            final(self).hist() == old(self).hist(),
            final(self).line() == old(self).line(),
            final(self).buffer_ok() == old(self).buffer_ok(),
            final(self).escape_seen() == old(self).escape_seen(),
            final(self).control_seen() == old(self).control_seen(),
    {
        self.autocomplete_on = autocomplete_on;
    }

    /// Turns history browsing on or off.
    pub fn history(&mut self, history_on: bool)
        ensures
            final(self).history_on() == history_on,
            final(self).completion_on() == old(self).completion_on(),
            final(self).completer() == old(self).completer(),
            final(self).hist() == old(self).hist(),
            final(self).line() == old(self).line(),
            final(self).buffer_ok() == old(self).buffer_ok(),
            final(self).escape_seen() == old(self).escape_seen(),
            final(self).control_seen() == old(self).control_seen(),
    {
        self.history_on = history_on;
    }

    /// The autocompletion source, to change it in place.
    pub fn get_autocomplete_mut(&mut self) -> (r: &mut A)
        ensures
            *r == old(self).completer(),
            final(self).completer() == *final(r),
            final(self).hist() == old(self).hist(),
            final(self).line() == old(self).line(),
            final(self).buffer_ok() == old(self).buffer_ok(),
            final(self).escape_seen() == old(self).escape_seen(),
            final(self).control_seen() == old(self).control_seen(),
            final(self).completion_on() == old(self).completion_on(),
            final(self).history_on() == old(self).history_on(),
    {
        &mut self.autocomplete
    }

    /// The history, to change it in place.
    pub fn get_history_mut(&mut self) -> (r: &mut H)
        ensures
            *r == old(self).hist(),
            final(self).hist() == *final(r),
            final(self).completer() == old(self).completer(),
            final(self).line() == old(self).line(),
            final(self).buffer_ok() == old(self).buffer_ok(),
            final(self).escape_seen() == old(self).escape_seen(),
            final(self).control_seen() == old(self).control_seen(),
            final(self).completion_on() == old(self).completion_on(),
            final(self).history_on() == old(self).history_on(),
    {
        &mut self.history
    }

    /// The line's bytes.
    pub fn line_bytes(&self) -> (r: Vec<u8>)
        requires
            self.buffer_ok(),
        ensures
            r@ == self.line().text,
    {
        self.editor.text()
    }

    /// The cursor position.
    pub fn cursor(&self) -> (r: usize)
        requires
            self.buffer_ok(),
        ensures
            r == self.line().cursor,
    {
        self.editor.cursor()
    }

    /// Back to a known state: empty line, no pending escape sequence.
    /// History and autocompletion are kept.
    pub fn reset(&mut self)
        requires
            old(self).wf(),
        ensures
            final(self).wf(),
            final(self).line() == (LineState { text: Seq::<u8>::empty(), cursor: 0 }),
            !final(self).escape_seen() && !final(self).control_seen(),
            final(self).same_settings(&*old(self)),
            final(self).hist() == old(self).hist(),
    {
        self.control = false;
        self.escape = false;
        self.editor.reset();
    }

    /// Empties the line and clears the screen.
    pub fn clear(&mut self, out: &mut Vec<u8>) -> (r: ShellResult)
        requires
            old(self).wf(),
        ensures
            final(self).wf(),
            final(self).line() == (LineState { text: Seq::<u8>::empty(), cursor: 0 }),
            final(self).escape_seen() == old(self).escape_seen(),
            final(self).control_seen() == old(self).control_seen(),
            final(self).same_settings(&*old(self)),
            final(self).hist() == old(self).hist(),
            final(out)@ == old(out)@ + crate::editor::csi(0x48u8) + seq![ESC, CSI, 0x32u8, 0x4au8],
            r is Ok,
    {
        self.editor.reset();
        crate::editor::push_csi(out, 0x48u8);
        out.push(ESC);
        out.push(CSI);
        out.push(0x32u8);
        out.push(0x4au8);
        Ok(())
    }

    /// Records `line` in the history.
    pub fn push_history(&mut self, line: &[u8]) -> (r: ShellResult)
        requires
            old(self).wf(),
        ensures
            final(self).wf(),
            final(self).line() == old(self).line(),
            final(self).escape_seen() == old(self).escape_seen(),
            final(self).control_seen() == old(self).control_seen(),
            final(self).same_settings(&*old(self)),
            r is Ok <==> line@.len() <= CMD_LEN,
            r is Ok ==> old(self).hist().pushed(line@, &final(self).hist()),
            r is Err ==> r == Err::<(), ShellError>(ShellError::HistoryError) && final(self).hist()
                == old(self).hist(),
    {
        match self.history.push(line) {
            Ok(()) => Ok(()),
            Err(_) => Err(ShellError::HistoryError),
        }
    }

    /// Up arrow: the previous history entry replaces the line.
    fn dpad_up(&mut self, out: &mut Vec<u8>)
        requires
            old(self).wf(),
        ensures
            final(self).wf(),
            final(self).escape_seen() == old(self).escape_seen(),
            final(self).control_seen() == old(self).control_seen(),
            final(self).same_settings(&*old(self)),
            old(self).browsed_back(&*final(self), old(out)@, final(out)@),
    {
        if self.editor.cursor() != self.editor.len() || !self.history_on {
            ring_bell(out);
            return;
        }
        match self.history.go_back() {
            None => ring_bell(out),
            Some(l) => self.editor.replace(l.as_slice(), out),
        }
    }

    /// Down arrow: the next newer history entry replaces the line.
    fn dpad_down(&mut self, out: &mut Vec<u8>)
        requires
            old(self).wf(),
        ensures
            final(self).wf(),
            final(self).escape_seen() == old(self).escape_seen(),
            final(self).control_seen() == old(self).control_seen(),
            final(self).same_settings(&*old(self)),
            old(self).browsed_forward(&*final(self), old(out)@, final(out)@),
    {
        if self.editor.cursor() != self.editor.len() || !self.history_on {
            ring_bell(out);
            return;
        }
        match self.history.go_forward() {
            None => ring_bell(out),
            Some(l) => self.editor.replace(l.as_slice(), out),
        }
    }

    /// Tab: the completion of the line up to the cursor is written there.
    fn suggest(&mut self, out: &mut Vec<u8>) -> (r: Result<Option<Input>, ShellError>)
        requires
            old(self).wf(),
        ensures
            final(self).wf(),
            final(self).escape_seen() == old(self).escape_seen(),
            final(self).control_seen() == old(self).control_seen(),
            final(self).same_settings(&*old(self)),
            old(self).completed(&*final(self), old(out)@, final(out)@, r),
    {
        proof {
            self.editor.lemma_wf();
        }
        let head = self.editor.prefix(self.editor.cursor());
        let prefix = match decode(head.as_slice()) {
            Ok(p) => p,
            Err(e) => return Err(ShellError::BadInputError(e)),
        };
        proof {
            assert(prefix.spec_bytes() == encode_utf8(prefix@));
        }
        match self.autocomplete.suggest(prefix) {
            None => ring_bell(out),
            Some(suffix) => self.editor.append(suffix.as_slice(), out),
        }
        Ok(None)
    }

    /// Carriage return: a non-blank line is recorded in the history, the
    /// buffer is emptied, and the line comes back as a command. A blank line
    /// only brings a new prompt.
    fn submit(&mut self, out: &mut Vec<u8>) -> (r: Result<Option<Input>, ShellError>)
        requires
            old(self).wf(),
        ensures
            final(self).wf(),
            final(self).escape_seen() == old(self).escape_seen(),
            final(self).control_seen() == old(self).control_seen(),
            final(self).same_settings(&*old(self)),
            old(self).submitted(&*final(self), old(out)@, final(out)@, r),
    {
        proof {
            self.editor.lemma_wf();
        }
        let text = self.editor.text();
        let (start, end) = trim_bounds(text.as_slice());
        if start == end {
            write_prompt(out);
            return Ok(None);
        }
        let line = slice_of(text.as_slice(), start, end);
        let k = find_space(line);
        let cmd_bytes = slice_of(line, 0, k);
        let args_bytes = if k < line.len() {
            slice_of(line, k + 1, line.len())
        } else {
            slice_of(line, 0, 0)
        };
        assert(args_bytes@ == args_part(line@));
        let cmd = match decode(cmd_bytes) {
            Ok(c) => c,
            Err(e) => return Err(ShellError::BadInputError(e)),
        };
        let args = match decode(args_bytes) {
            Ok(a) => a,
            Err(e) => return Err(ShellError::BadInputError(e)),
        };
        let cmd = cmd.to_owned();
        let args = args.to_owned();
        match self.history.push(line) {
            Ok(()) => {},
            Err(_) => return Err(ShellError::HistoryError),
        }
        self.editor.reset();
        Ok(Some(Input::Command((cmd, args))))
    }
    /// A printable byte goes in at the cursor.
    fn write_at_cursor(&mut self, byte: u8, out: &mut Vec<u8>)
        requires
            old(self).wf(),
        ensures
            final(self).wf(),
            final(self).escape_seen() == old(self).escape_seen(),
            final(self).control_seen() == old(self).control_seen(),
            final(self).same_settings(&*old(self)),
            old(self).edited(
                &*final(self),
                old(out)@,
                final(out)@,
                insert_step(old(self).line(), CMD_LEN as nat, byte),
            ),
    {
        self.editor.insert(byte, out);
    }

    /// Backspace: the byte left of the cursor goes.
    fn delete_at_cursor(&mut self, out: &mut Vec<u8>)
        requires
            old(self).wf(),
        ensures
            final(self).wf(),
            final(self).escape_seen() == old(self).escape_seen(),
            final(self).control_seen() == old(self).control_seen(),
            final(self).same_settings(&*old(self)),
            old(self).edited(&*final(self), old(out)@, final(out)@, delete_step(old(self).line())),
    {
        self.editor.delete(out);
    }

    /// Reads one byte: updates the line, writes its echo to `out`, and says
    /// what, if anything, the environment must do. On a returned command the
    /// caller runs it and then writes the prompt.
    pub fn process(&mut self, out: &mut Vec<u8>, byte: u8) -> (r: Result<Option<Input>, ShellError>)
        requires
            old(self).wf(),
        ensures
            final(self).wf(),
            final(self).same_settings(&*old(self)),
            (final(self).escape_seen(), final(self).control_seen()) == next_flags(
                old(self).escape_seen(),
                old(self).control_seen(),
                byte,
            ),
            old(self).stepped(&*final(self), old(out)@, final(out)@, byte, r),
    {
        if self.escape && byte == CSI {
            self.control = true;
            return Ok(None);
        }
        if byte == ESC {
            self.escape = true;
            return Ok(None);
        }
        if self.control {
            self.escape = false;
            self.control = false;
            if byte == KEY_LEFT {
                self.editor.move_left(out);
            } else if byte == KEY_RIGHT {
                self.editor.move_right(out);
            } else if byte == KEY_UP {
                self.dpad_up(out);
            } else if byte == KEY_DOWN {
                self.dpad_down(out);
            }
            return Ok(None);
        }
        if self.escape {
            self.escape = false;
            self.control = false;
            return Ok(None);
        }
        if byte == TAB {
            if self.autocomplete_on {
                self.suggest(out)
            } else {
                ring_bell(out);
                Ok(None)
            }
        } else if byte == DEL || byte == BS {
            self.delete_at_cursor(out);
            Ok(None)
        } else if byte == CR {
            self.submit(out)
        } else if is_ascii_control(byte) {
            Ok(Some(Input::Control(byte)))
        } else {
            self.write_at_cursor(byte, out);
            Ok(None)
        }
    }
    /// Reads one byte as [`AShell::process`] does, then hands a control
    /// byte or a command to `env`. After a command the prompt is written,
    /// whatever the command returned; its error code comes back as
    /// `ExecuteError`.
    pub fn feed<E: Environment>(&mut self, env: &mut E, out: &mut Vec<u8>, byte: u8) -> (r: ShellResult)
        requires
            old(self).wf(),
        ensures
            final(self).wf(),
            final(self).same_settings(&*old(self)),
            (final(self).escape_seen(), final(self).control_seen()) == next_flags(
                old(self).escape_seen(),
                old(self).control_seen(),
                byte,
            ),
            exists|step: Result<Option<Input>, ShellError>, echo: Seq<u8>|
                old(self).stepped(&*final(self), old(out)@, echo, byte, step) && match step {
                    Err(e) => r == Err::<(), ShellError>(e) && final(out)@ == echo,
                    Ok(None) => r is Ok && final(out)@ == echo,
                    Ok(Some(Input::Control(_))) => final(out)@ == echo && (r is Ok || r matches Err(
                        ShellError::ExecuteError(_),
                    )),
                    Ok(Some(Input::Command(_))) => final(out)@ == echo + prompt() && (r is Ok
                        || r matches Err(ShellError::ExecuteError(_))),
                },
    {
        let step = self.process(out, byte);
        let ghost echo = out@;
        match step {
            Err(e) => Err(e),
            Ok(None) => Ok(()),
            Ok(Some(Input::Control(code))) => match env.control(code) {
                Ok(()) => Ok(()),
                Err(code) => Err(ShellError::ExecuteError(code)),
            },
            Ok(Some(Input::Command((cmd, args)))) => {
                let done = env.command(cmd.as_str(), args.as_str());
                write_prompt(out);
                match done {
                    Ok(()) => Ok(()),
                    Err(code) => Err(ShellError::ExecuteError(code)),
                }
            },
        }
    }
}

} // verus!
