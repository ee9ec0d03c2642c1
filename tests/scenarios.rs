use ashell::autocomplete::StaticAutocomplete;
use ashell::control::{BELL, CR, DEL, ESC};
use ashell::history::{History, LRUHistory};
use ashell::{AShell, Environment, Input, ShellError};

const PROMPT: &[u8] = b"\r\n#>";

#[derive(Default)]
struct Recorder {
    commands: Vec<(String, String)>,
    controls: Vec<u8>,
    fail_with: Option<i32>,
}

impl Environment for Recorder {
    fn command(&mut self, cmd: &str, args: &str) -> Result<(), i32> {
        self.commands.push((cmd.to_string(), args.to_string()));
        match self.fail_with {
            Some(code) => Err(code),
            None => Ok(()),
        }
    }

    fn control(&mut self, code: u8) -> Result<(), i32> {
        self.controls.push(code);
        Ok(())
    }
}

type Shell = AShell<StaticAutocomplete<2>, LRUHistory<64>, 64>;

fn shell(out: &mut Vec<u8>) -> Shell {
    AShell::new(StaticAutocomplete(["help", "pwmin"]), LRUHistory::new(), out)
}

fn feed_all(sh: &mut Shell, env: &mut Recorder, out: &mut Vec<u8>, bytes: &[u8]) {
    for b in bytes {
        assert!(sh.feed(env, out, *b).is_ok());
    }
}

#[test]
fn new_writes_prompt() {
    let mut out = Vec::new();
    let sh = shell(&mut out);
    assert_eq!(out, PROMPT);
    assert_eq!(sh.line_bytes(), Vec::<u8>::new());
    assert_eq!(sh.cursor(), 0);
}

#[test]
fn scenario_help_command() {
    let mut out = Vec::new();
    let mut sh = shell(&mut out);
    let mut env = Recorder::default();
    out.clear();
    feed_all(&mut sh, &mut env, &mut out, &[b'h', b'e', b'l', b'p', CR]);
    assert_eq!(env.commands, vec![("help".to_string(), String::new())]);
    assert!(out.ends_with(PROMPT));
    assert_eq!(out, [b"help".as_slice(), PROMPT].concat());
    assert_eq!(sh.line_bytes(), Vec::<u8>::new());
    assert_eq!(sh.cursor(), 0);
}

#[test]
fn scenario_command_with_args() {
    let mut out = Vec::new();
    let mut sh = shell(&mut out);
    let mut env = Recorder::default();
    feed_all(&mut sh, &mut env, &mut out, b"pwmin 0\r");
    assert_eq!(env.commands, vec![("pwmin".to_string(), "0".to_string())]);
}

#[test]
fn scenario_delete_mid_line() {
    let mut out = Vec::new();
    let mut sh = shell(&mut out);
    let mut env = Recorder::default();
    feed_all(&mut sh, &mut env, &mut out, b"abc");
    feed_all(&mut sh, &mut env, &mut out, &[ESC, b'[', b'D', ESC, b'[', b'D']);
    assert_eq!(sh.cursor(), 1);
    out.clear();
    feed_all(&mut sh, &mut env, &mut out, &[DEL]);
    assert_eq!(sh.line_bytes(), b"bc".to_vec());
    assert_eq!(sh.cursor(), 0);
    assert!(env.commands.is_empty());
    // the tail is redrawn in place; the deletion itself is not refused
    assert_eq!(out, b"\x1b[D\x1b[s\x1b[Kbc\x1b[u".to_vec());
    // at column 0 a further deletion is refused with the bell
    out.clear();
    feed_all(&mut sh, &mut env, &mut out, &[DEL]);
    assert_eq!(out, vec![BELL]);
    assert_eq!(sh.line_bytes(), b"bc".to_vec());
}

#[test]
fn scenario_history_up_arrow() {
    let mut out = Vec::new();
    let mut sh = shell(&mut out);
    let mut env = Recorder::default();
    assert!(sh.push_history(b"ls -l").is_ok());
    out.clear();
    feed_all(&mut sh, &mut env, &mut out, &[ESC, b'[', b'A']);
    assert_eq!(sh.line_bytes(), b"ls -l".to_vec());
    assert_eq!(sh.cursor(), 5);
    assert_eq!(out, b"\x1b[Kls -l".to_vec());
}

#[test]
fn up_arrow_walks_back_over_the_line() {
    let mut out = Vec::new();
    let mut sh = shell(&mut out);
    let mut env = Recorder::default();
    feed_all(&mut sh, &mut env, &mut out, b"one\rtwo\r");
    feed_all(&mut sh, &mut env, &mut out, b"xy");
    out.clear();
    feed_all(&mut sh, &mut env, &mut out, &[ESC, b'[', b'A']);
    assert_eq!(out, b"\x08\x08\x1b[Ktwo".to_vec());
    feed_all(&mut sh, &mut env, &mut out, &[ESC, b'[', b'A']);
    assert_eq!(sh.line_bytes(), b"one".to_vec());
    feed_all(&mut sh, &mut env, &mut out, &[ESC, b'[', b'B']);
    assert_eq!(sh.line_bytes(), b"two".to_vec());
}

#[test]
fn arrows_away_from_line_end_ring_bell() {
    let mut out = Vec::new();
    let mut sh = shell(&mut out);
    let mut env = Recorder::default();
    assert!(sh.push_history(b"ls").is_ok());
    feed_all(&mut sh, &mut env, &mut out, &[b'a', b'b', ESC, b'[', b'D']);
    out.clear();
    feed_all(&mut sh, &mut env, &mut out, &[ESC, b'[', b'A']);
    assert_eq!(out, vec![BELL]);
    feed_all(&mut sh, &mut env, &mut out, &[ESC, b'[', b'B']);
    assert_eq!(out, vec![BELL, BELL]);
    assert_eq!(sh.line_bytes(), b"ab".to_vec());
    assert_eq!(sh.cursor(), 1);
}

#[test]
fn arrows_with_history_off_ring_bell() {
    let mut out = Vec::new();
    let mut sh = shell(&mut out);
    let mut env = Recorder::default();
    assert!(sh.push_history(b"ls").is_ok());
    sh.history(false);
    out.clear();
    feed_all(&mut sh, &mut env, &mut out, &[ESC, b'[', b'A']);
    assert_eq!(out, vec![BELL]);
    assert_eq!(sh.line_bytes(), Vec::<u8>::new());
}

#[test]
fn blank_line_only_prompts() {
    let mut out = Vec::new();
    let mut sh = shell(&mut out);
    let mut env = Recorder::default();
    out.clear();
    feed_all(&mut sh, &mut env, &mut out, b"  \r");
    assert!(env.commands.is_empty());
    assert!(out.ends_with(PROMPT));
}

#[test]
fn submitted_line_is_trimmed() {
    let mut out = Vec::new();
    let mut sh = shell(&mut out);
    let mut env = Recorder::default();
    feed_all(&mut sh, &mut env, &mut out, b"  ls  -a  \r");
    assert_eq!(env.commands, vec![("ls".to_string(), " -a".to_string())]);
    assert_eq!(sh.get_history_mut().go_back(), Some(b"ls  -a".to_vec()));
}

#[test]
fn control_byte_goes_to_environment() {
    let mut out = Vec::new();
    let mut sh = shell(&mut out);
    let mut env = Recorder::default();
    feed_all(&mut sh, &mut env, &mut out, &[0x03]);
    assert_eq!(env.controls, vec![0x03]);
    let r = sh.process(&mut out, 0x04);
    assert!(matches!(r, Ok(Some(Input::Control(0x04)))));
}

#[test]
fn process_returns_command() {
    let mut out = Vec::new();
    let mut sh = shell(&mut out);
    for b in b"ls -l" {
        assert!(matches!(sh.process(&mut out, *b), Ok(None)));
    }
    match sh.process(&mut out, CR) {
        Ok(Some(Input::Command((c, a)))) => {
            assert_eq!(c, "ls");
            assert_eq!(a, "-l");
        }
        _ => panic!("expected a command"),
    }
}

#[test]
fn command_error_is_execute_error() {
    let mut out = Vec::new();
    let mut sh = shell(&mut out);
    let mut env = Recorder { fail_with: Some(7), ..Recorder::default() };
    for b in b"x" {
        assert!(sh.feed(&mut env, &mut out, *b).is_ok());
    }
    out.clear();
    let r = sh.feed(&mut env, &mut out, CR);
    assert!(matches!(r, Err(ShellError::ExecuteError(7))));
    assert_eq!(out, PROMPT.to_vec());
}

#[test]
fn invalid_utf8_line_is_bad_input() {
    let mut out = Vec::new();
    let mut sh = shell(&mut out);
    let mut env = Recorder::default();
    feed_all(&mut sh, &mut env, &mut out, &[b'a', 0xff]);
    let r = sh.feed(&mut env, &mut out, CR);
    assert!(matches!(r, Err(ShellError::BadInputError(_))));
    assert!(env.commands.is_empty());
    assert_eq!(sh.line_bytes(), vec![b'a', 0xff]);
}

#[test]
fn tab_completes_command_name() {
    let mut out = Vec::new();
    let mut sh = shell(&mut out);
    let mut env = Recorder::default();
    feed_all(&mut sh, &mut env, &mut out, b"pw");
    out.clear();
    feed_all(&mut sh, &mut env, &mut out, b"\t");
    assert_eq!(sh.line_bytes(), b"pwmin".to_vec());
    assert_eq!(sh.cursor(), 5);
    assert_eq!(out, b"\x1b[Kmin".to_vec());
}

#[test]
fn tab_without_match_rings_bell() {
    let mut out = Vec::new();
    let mut sh = shell(&mut out);
    let mut env = Recorder::default();
    feed_all(&mut sh, &mut env, &mut out, b"zz");
    out.clear();
    feed_all(&mut sh, &mut env, &mut out, b"\t");
    assert_eq!(out, vec![BELL]);
    assert_eq!(sh.line_bytes(), b"zz".to_vec());
}

#[test]
fn tab_with_autocomplete_off_rings_bell() {
    let mut out = Vec::new();
    let mut sh = shell(&mut out);
    let mut env = Recorder::default();
    sh.autocomplete(false);
    feed_all(&mut sh, &mut env, &mut out, b"he");
    out.clear();
    feed_all(&mut sh, &mut env, &mut out, b"\t");
    assert_eq!(out, vec![BELL]);
    assert_eq!(sh.line_bytes(), b"he".to_vec());
}

#[test]
fn tab_on_invalid_utf8_prefix_is_bad_input() {
    let mut out = Vec::new();
    let mut sh = shell(&mut out);
    let mut env = Recorder::default();
    feed_all(&mut sh, &mut env, &mut out, &[0xc3]);
    let r = sh.feed(&mut env, &mut out, b'\t');
    assert!(matches!(r, Err(ShellError::BadInputError(_))));
}

#[test]
fn aborted_escape_discards_byte() {
    let mut out = Vec::new();
    let mut sh = shell(&mut out);
    let mut env = Recorder::default();
    out.clear();
    feed_all(&mut sh, &mut env, &mut out, &[ESC, b'x', b'y']);
    assert_eq!(sh.line_bytes(), b"y".to_vec());
    assert_eq!(out, b"y".to_vec());
}

#[test]
fn unknown_csi_final_is_ignored() {
    let mut out = Vec::new();
    let mut sh = shell(&mut out);
    let mut env = Recorder::default();
    out.clear();
    feed_all(&mut sh, &mut env, &mut out, &[ESC, b'[', b'Z', b'q']);
    assert_eq!(sh.line_bytes(), b"q".to_vec());
    assert_eq!(out, b"q".to_vec());
}

#[test]
fn reset_empties_line_and_keeps_history() {
    let mut out = Vec::new();
    let mut sh = shell(&mut out);
    let mut env = Recorder::default();
    assert!(sh.push_history(b"ls").is_ok());
    feed_all(&mut sh, &mut env, &mut out, &[b'a', b'b', ESC]);
    sh.reset();
    assert_eq!(sh.line_bytes(), Vec::<u8>::new());
    assert_eq!(sh.cursor(), 0);
    // the pending escape is gone: '[' is an ordinary byte again
    feed_all(&mut sh, &mut env, &mut out, b"[");
    assert_eq!(sh.line_bytes(), b"[".to_vec());
    assert_eq!(sh.get_history_mut().go_back(), Some(b"ls".to_vec()));
}

#[test]
fn clear_empties_line_and_screen() {
    let mut out = Vec::new();
    let mut sh = shell(&mut out);
    let mut env = Recorder::default();
    feed_all(&mut sh, &mut env, &mut out, b"abc");
    out.clear();
    assert!(sh.clear(&mut out).is_ok());
    assert_eq!(out, b"\x1b[H\x1b[2J".to_vec());
    assert_eq!(sh.line_bytes(), Vec::<u8>::new());
}

#[test]
fn bell_writes_bell_byte() {
    let mut out = Vec::new();
    let sh = shell(&mut out);
    out.clear();
    assert!(sh.bell(&mut out).is_ok());
    assert_eq!(out, vec![BELL]);
}

#[test]
fn push_history_rejects_long_line() {
    let mut out = Vec::new();
    let mut sh = shell(&mut out);
    let long = vec![b'a'; 65];
    assert!(matches!(sh.push_history(&long), Err(ShellError::HistoryError)));
    assert!(sh.push_history(&long[..64]).is_ok());
}

#[test]
fn execute_error_from_code() {
    assert!(matches!(ShellError::from(-3), ShellError::ExecuteError(-3)));
}

#[test]
fn bad_input_and_format_errors_from_std() {
    let err = std::str::from_utf8(&[0xff]).unwrap_err();
    assert!(matches!(ShellError::from(err), ShellError::BadInputError(_)));
    assert!(matches!(ShellError::from(std::fmt::Error), ShellError::FormatError(_)));
}
