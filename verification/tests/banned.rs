use tarpit::banned::Banned;

#[test]
fn ctx_len_is_longest_banned_string() {
    let b = Banned::new(vec!["SSH-".to_string(), "ab".to_string()]);
    assert_eq!(b.ctx_len(), 4);

    let empty = Banned::new(vec![]);
    assert_eq!(empty.ctx_len(), 0);
}

#[test]
fn is_banned_checks_suffixes_only() {
    let b = Banned::new(vec!["SSH-".to_string()]);
    assert!(b.is_banned("SSH-"));
    assert!(b.is_banned("xyzSSH-"));
    assert!(!b.is_banned("SSH"));
    assert!(!b.is_banned("SSH-x"));
    assert!(!b.is_banned(""));
    assert!(!b.is_banned("SS"));
}

#[test]
fn is_banned_considers_every_entry() {
    let b = Banned::new(vec!["abc".to_string(), "q".to_string()]);
    assert!(b.is_banned("xabc"));
    assert!(b.is_banned("q"));
    assert!(!b.is_banned("ab"));
}

#[test]
fn all_nonempty_flags_empty_entries() {
    assert!(Banned::new(vec![]).all_nonempty());
    assert!(Banned::new(vec!["a".to_string()]).all_nonempty());
    assert!(!Banned::new(vec!["a".to_string(), String::new()]).all_nonempty());
}
