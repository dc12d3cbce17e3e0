use tarpit::banned::Banned;
use tarpit::generator::{ascii_string_list, RandStringSpitter};

#[test]
fn alphabet_is_printable_ascii_plus_crlf() {
    let list = ascii_string_list();
    assert_eq!(list.len(), 95);
    assert_eq!(list[0], " ");
    assert_eq!(list[51], "S");
    assert_eq!(list[93], "}");
    assert_eq!(list[94], "\r\n");
}

#[test]
fn substring_safety_over_many_emissions() {
    let mut g = RandStringSpitter::new_ssh_identifier();
    let mut all = String::new();
    for _ in 0..10000 {
        let f = g.spit().expect("the printable alphabet always offers a safe fragment");
        all.push_str(&f);
    }
    assert!(!all.contains("SSH-"));
}

#[test]
fn suffix_window_matches_emitted_history() {
    let mut g = RandStringSpitter::new_ssh_identifier();
    let mut all = String::new();
    for _ in 0..500 {
        let f = g.spit().expect("the printable alphabet always offers a safe fragment");
        all.push_str(&f);
        let chars: Vec<char> = all.chars().collect();
        let keep = chars.len().min(3);
        let expect: String = chars[chars.len() - keep..].iter().collect();
        assert_eq!(g.window_buffer().as_str(), expect);
    }
}

#[test]
fn empty_banned_set_accepts_every_symbol_first_try() {
    let mut g = RandStringSpitter::with_banned(Banned::new(vec![]))
        .expect("an empty banned set is not pathological");
    let n = g.alphabet_len();
    for idx in 0..n {
        assert!(g.try_fragment(idx).is_some());
    }
}

#[test]
fn empty_banned_string_is_rejected_at_construction() {
    let banned = Banned::new(vec![String::new()]);
    assert!(RandStringSpitter::with_banned(banned).is_none());
}

#[test]
fn banning_every_symbol_exhausts_sampling() {
    let mut list: Vec<String> = ascii_string_list();
    list.push("\r".to_string());
    list.push("\n".to_string());
    let mut g = RandStringSpitter::with_banned(Banned::new(list))
        .expect("no banned string is empty");
    assert!(g.spit().is_none());
    assert_eq!(g.window_buffer().as_str(), "");
}

#[test]
fn forced_ssh_prefix_rejects_completing_dash() {
    // indices into the printable alphabet: fragment k is the character
    // with code 32 + k
    let s_idx = ('S' as usize) - 32;
    let h_idx = ('H' as usize) - 32;
    let dash_idx = ('-' as usize) - 32;
    let a_idx = ('A' as usize) - 32;

    let mut g = RandStringSpitter::new_ssh_identifier();
    assert_eq!(g.try_fragment(s_idx).unwrap(), "S");
    assert_eq!(g.try_fragment(s_idx).unwrap(), "S");
    assert_eq!(g.try_fragment(h_idx).unwrap(), "H");
    assert_eq!(g.window_buffer().as_str(), "SSH");

    // '-' would complete the banned banner: it must be rejected and the
    // generator left untouched
    assert!(g.try_fragment(dash_idx).is_none());
    assert_eq!(g.window_buffer().as_str(), "SSH");

    // any candidate that does not complete "SSH-" is accepted
    assert_eq!(g.try_fragment(a_idx).unwrap(), "A");
    assert_eq!(g.window_buffer().as_str(), "SHA");

    // the final emitted sequence holds no banned banner
    let emitted = "SSHA";
    assert!(!emitted.contains("SSH-"));
}

#[test]
fn window_stays_short_of_longest_banned_string() {
    let mut g = RandStringSpitter::new_ssh_identifier();
    for _ in 0..50 {
        g.spit().expect("the printable alphabet always offers a safe fragment");
        assert!(g.window_buffer().chars().count() <= 3);
    }
}
