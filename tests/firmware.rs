use ashell::control::LF;
use ashell::pwmin::{
    parse_index_bytes, pwmin_cmd, pwmin_register_cmd, split_words, PwmInCommand, PwmInError,
    PwmInShellEnv, PwmInfo, SM_CLK,
};
use ashell::registry::SevenShellEnv;
use ashell::{MyLogger, ShellError};

#[test]
fn pwm_info_default() {
    let p = PwmInfo::default();
    assert_eq!(p.pin, 0);
    assert_eq!(p.clk, SM_CLK);
    assert_eq!(p.high_period, 0);
    assert_eq!(p.low_period, 0);
}

#[test]
fn pwmin_start_and_stop() {
    let mut env = PwmInShellEnv::new();
    let r = pwmin_cmd(&mut env, "start 0 3 9").ok().unwrap();
    assert_eq!(r, vec![(0, PwmInCommand::Start(0)), (3, PwmInCommand::Start(3))]);
    let r = pwmin_cmd(&mut env, "stop 1  7").ok().unwrap();
    assert_eq!(r, vec![(1, PwmInCommand::Stop)]);
    assert!(!env.pin_in_use(1));
}

#[test]
fn pwmin_bad_input() {
    let mut env = PwmInShellEnv::new();
    assert!(matches!(pwmin_cmd(&mut env, "go 1"), Err(ShellError::ExecuteError(-1))));
    assert!(matches!(pwmin_cmd(&mut env, "start x"), Err(ShellError::ExecuteError(-1))));
    assert!(matches!(pwmin_cmd(&mut env, ""), Err(ShellError::ExecuteError(-1))));
    assert_eq!(pwmin_cmd(&mut env, "start").ok().unwrap(), vec![]);
}

#[test]
fn pwmin_start_checks() {
    let env = PwmInShellEnv::new();
    assert_eq!(env.start(2), Ok(PwmInCommand::Start(2)));
    assert_eq!(env.start(5), Err(PwmInError::PinError));
}

#[test]
fn parse_channel_numbers() {
    assert_eq!(parse_index_bytes(b"42"), Some(42));
    assert_eq!(parse_index_bytes(b"+7"), Some(7));
    assert_eq!(parse_index_bytes(b""), None);
    assert_eq!(parse_index_bytes(b"+"), None);
    assert_eq!(parse_index_bytes(b"1a"), None);
    assert_eq!(parse_index_bytes(b"18446744073709551615"), Some(usize::MAX));
    assert_eq!(parse_index_bytes(b"18446744073709551616"), None);
}

#[test]
fn words_split_at_whitespace() {
    assert_eq!(
        split_words(b"  a bc\t d "),
        vec![b"a".to_vec(), b"bc".to_vec(), b"d".to_vec()]
    );
    assert!(split_words(b"   ").is_empty());
}

#[test]
fn pwmin_registers() {
    let mut r = SevenShellEnv::new();
    assert!(pwmin_register_cmd(&mut r, 3));
    assert_eq!(r.handler_of("pwmin"), Some(3));
}

#[test]
fn logger_frames_records() {
    let l = MyLogger::new();
    assert_eq!(l.frame("hi"), vec![b'h', b'i', LF]);
}

#[test]
fn pwm_info_update_decodes_and_filters() {
    let mut p = PwmInfo::default();
    // the first word has no top bits set: it is the high phase
    assert!(p.update(100, 0xF000_0032));
    assert_eq!(p.high_period, 200);
    assert_eq!(p.low_period, 0xF000_0032u32.wrapping_mul(2));
    // top bits set on the first word: it is the low phase
    let mut q = PwmInfo::default();
    assert!(q.update(0xF000_0005, 7));
    assert_eq!(q.high_period, 14);
    assert_eq!(q.low_period, 0xF000_0005u32.wrapping_mul(2));
    // a change within the same ten-tick bucket is not kept
    let mut r = PwmInfo::default();
    assert!(r.update(10, 20));
    assert_eq!((r.high_period, r.low_period), (20, 40));
    assert!(!r.update(11, 21));
    assert_eq!((r.high_period, r.low_period), (20, 40));
    assert_eq!(r.clk, SM_CLK);
}
