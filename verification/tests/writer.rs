use tarpit::writer::BroadcastWriter;

#[test]
fn accepted_connections_get_fresh_ids_in_order() {
    let mut w = BroadcastWriter::new_ssh_tarpit();
    let mut ids = Vec::new();
    for _ in 0..5 {
        ids.push(w.on_accept().expect("identifier space is fresh"));
    }
    assert_eq!(w.live_ids().as_slice(), ids.as_slice());
    for i in 0..ids.len() {
        for j in 0..i {
            assert_ne!(ids[i], ids[j]);
        }
    }
}

#[test]
fn pruning_drops_failed_connection_and_keeps_order() {
    let mut w = BroadcastWriter::new_ssh_tarpit();
    for _ in 0..5 {
        w.on_accept().expect("identifier space is fresh");
    }
    let ids = w.live_ids().clone();
    // connection #3 (index 2) times out; the rest succeed
    let failed = vec![false, false, true, false, false];
    w.prune(&failed);
    assert_eq!(
        w.live_ids().as_slice(),
        [ids[0], ids[1], ids[3], ids[4]].as_slice()
    );
}

#[test]
fn pruning_everything_empties_the_live_set() {
    let mut w = BroadcastWriter::new_ssh_tarpit();
    for _ in 0..3 {
        w.on_accept().expect("identifier space is fresh");
    }
    w.prune(&vec![true, true, true]);
    assert!(w.live_ids().is_empty());
}

#[test]
fn one_tick_broadcasts_identical_bytes_to_all_live_connections() {
    let mut w = BroadcastWriter::new_ssh_tarpit();
    for _ in 0..4 {
        w.on_accept().expect("identifier space is fresh");
    }
    let ids = w.live_ids().clone();
    let plan = w.tick_plan().expect("the printable alphabet always offers a safe fragment");
    assert_eq!(plan.cmds.len(), 4);
    for (i, cmd) in plan.cmds.iter().enumerate() {
        assert_eq!(cmd.conn, ids[i]);
        assert_eq!(cmd.payload.as_bytes(), plan.fragment.as_bytes());
    }
    // the live set itself is untouched by a tick
    assert_eq!(w.live_ids().as_slice(), ids.as_slice());
}

#[test]
fn ticks_never_emit_the_banned_banner() {
    let mut w = BroadcastWriter::new_ssh_tarpit();
    w.on_accept().expect("identifier space is fresh");
    let mut all = String::new();
    for _ in 0..200 {
        let plan = w.tick_plan().expect("the printable alphabet always offers a safe fragment");
        all.push_str(&plan.fragment);
    }
    assert!(!all.contains("SSH-"));
}

#[test]
fn tick_with_no_connections_still_advances_the_stream() {
    let mut w = BroadcastWriter::new_ssh_tarpit();
    let plan = w.tick_plan().expect("the printable alphabet always offers a safe fragment");
    assert!(plan.cmds.is_empty());
    assert!(!plan.fragment.is_empty());
}
