use ashell::autocomplete::{Autocomplete, StaticAutocomplete};
use ashell::history::{History, LRUHistory, HISTORY_LEN};
use ashell::line::{find_space, trim_bounds};
use ashell::registry::{SevenShellEnv, TOTAL_CMDS};

#[test]
fn static_suggest_empty_prefix_is_none() {
    let a = StaticAutocomplete(["help", "pwmin"]);
    assert_eq!(a.suggest(""), None);
}

#[test]
fn static_suggest_unique_match_gives_suffix() {
    let a = StaticAutocomplete(["help", "pwmin"]);
    assert_eq!(a.suggest("he"), Some(b"lp".to_vec()));
    assert_eq!(a.suggest("pwmin"), Some(Vec::new()));
    assert_eq!(a.suggest("x"), None);
    assert_eq!(a.suggest("helpme"), None);
}

#[test]
fn static_suggest_first_match_wins() {
    let a = StaticAutocomplete(["stop", "start"]);
    assert_eq!(a.suggest("st"), Some(b"op".to_vec()));
    assert_eq!(a.suggest("sta"), Some(b"rt".to_vec()));
}

#[test]
fn history_walks_newest_to_oldest() {
    let mut h = LRUHistory::<16>::new();
    for l in [&b"one"[..], b"two", b"three"] {
        assert!(h.push(l).is_ok());
    }
    assert_eq!(h.go_back(), Some(b"three".to_vec()));
    assert_eq!(h.go_back(), Some(b"two".to_vec()));
    assert_eq!(h.go_back(), Some(b"one".to_vec()));
    assert_eq!(h.go_back(), None);
}

#[test]
fn history_forward_after_back() {
    let mut h = LRUHistory::<16>::new();
    for l in [&b"one"[..], b"two", b"three"] {
        assert!(h.push(l).is_ok());
    }
    assert_eq!(h.go_forward(), None);
    assert_eq!(h.go_back(), Some(b"three".to_vec()));
    assert_eq!(h.go_back(), Some(b"two".to_vec()));
    assert_eq!(h.go_forward(), Some(b"three".to_vec()));
    assert_eq!(h.go_forward(), None);
}

#[test]
fn history_evicts_oldest() {
    let mut h = LRUHistory::<16>::new();
    let lines: Vec<Vec<u8>> = (0..=HISTORY_LEN).map(|i| format!("cmd{}", i).into_bytes()).collect();
    for l in &lines {
        assert!(h.push(l).is_ok());
    }
    for k in 0..HISTORY_LEN {
        assert_eq!(h.get(k), Some(lines[HISTORY_LEN - k].clone()));
    }
    assert_eq!(h.get(HISTORY_LEN), None);
    for k in 0..HISTORY_LEN {
        assert_eq!(h.go_back(), Some(lines[HISTORY_LEN - k].clone()));
    }
    assert_eq!(h.go_back(), None);
}

#[test]
fn history_push_promotes_duplicate() {
    let mut h = LRUHistory::<16>::new();
    for l in [&b"a"[..], b"b", b"a"] {
        assert!(h.push(l).is_ok());
    }
    assert_eq!(h.get(0), Some(b"a".to_vec()));
    assert_eq!(h.get(1), Some(b"b".to_vec()));
    assert_eq!(h.get(2), None);
}

#[test]
fn history_push_resets_navigation() {
    let mut h = LRUHistory::<16>::new();
    assert!(h.push(b"a").is_ok());
    assert!(h.push(b"b").is_ok());
    assert_eq!(h.go_back(), Some(b"b".to_vec()));
    assert_eq!(h.go_back(), Some(b"a".to_vec()));
    assert!(h.push(b"c").is_ok());
    assert_eq!(h.go_back(), Some(b"c".to_vec()));
}

#[test]
fn history_rejects_long_line() {
    let mut h = LRUHistory::<4>::new();
    assert!(h.push(b"12345").is_err());
    assert!(h.push(b"1234").is_ok());
    assert_eq!(h.get(0), Some(b"1234".to_vec()));
    assert_eq!(h.get(1), None);
}

#[test]
fn trim_cuts_ascii_whitespace() {
    let s = b" \t ls -l \r\n";
    let (a, b) = trim_bounds(s);
    assert_eq!(&s[a..b], b"ls -l");
    assert_eq!(trim_bounds(b"   "), (3, 3));
}

#[test]
fn first_space_found() {
    assert_eq!(find_space(b"pwmin 0"), 5);
    assert_eq!(find_space(b"help"), 4);
}

#[test]
fn registry_register_and_lookup() {
    let mut r = SevenShellEnv::new();
    assert!(r.register_cmd("help", 0));
    assert!(r.register_cmd("pwmin", 1));
    assert_eq!(r.handler_of("help"), Some(0));
    assert_eq!(r.handler_of("pwmin"), Some(1));
    assert_eq!(r.handler_of("nope"), None);
    assert!(r.register_cmd("help", 5));
    assert_eq!(r.handler_of("help"), Some(5));
}

#[test]
fn registry_unregister() {
    let mut r = SevenShellEnv::new();
    assert!(r.register_cmd("a", 0));
    assert!(r.register_cmd("b", 1));
    assert!(r.register_cmd("c", 2));
    r.unregister_cmd("a");
    assert_eq!(r.handler_of("a"), None);
    assert_eq!(r.handler_of("b"), Some(1));
    assert_eq!(r.handler_of("c"), Some(2));
    r.unregister_cmd("zzz");
    assert_eq!(r.handler_of("c"), Some(2));
}

#[test]
fn registry_full() {
    let mut r = SevenShellEnv::new();
    const NAMES: [&str; 17] = [
        "c0", "c1", "c2", "c3", "c4", "c5", "c6", "c7", "c8", "c9", "c10", "c11", "c12", "c13",
        "c14", "c15", "c16",
    ];
    for (i, n) in NAMES.iter().take(TOTAL_CMDS).enumerate() {
        assert!(r.register_cmd(n, i));
    }
    assert!(!r.register_cmd(NAMES[16], 16));
    assert_eq!(r.handler_of("c16"), None);
    assert!(r.register_cmd("c3", 99));
    assert_eq!(r.handler_of("c3"), Some(99));
}

#[test]
fn registry_completes_names() {
    let mut r = SevenShellEnv::new();
    assert!(r.register_cmd("help", 0));
    assert!(r.register_cmd("pwmin", 1));
    assert_eq!(r.complete("pw"), Some(b"min".to_vec()));
    assert_eq!(r.suggest("h"), Some(b"elp".to_vec()));
    assert_eq!(r.complete(""), None);
    assert_eq!(r.complete("q"), None);
}
