use codrop::cli::{child_args, parse, parse_net, Command, NetCommand};
use codrop::daemon::{
    broadcast_notice, detach_report, file_event, on_gone, on_written, scan_step, snapshot_status,
    status_report, stop_message, stop_plan, FileEvent, PathKind, PeerStatus, Reaction, ScanStep,
    Status, StopPlan,
};
use codrop::engine::Found;
use codrop::trust::{
    admits, device_endpoint_id, endpoint_id, load_trusted, pair, peers_file, stored_key, to_dial,
    trust_peer, Pairing,
};
use codrop::watcher::{is_manifest, observe_notice, watch_event, WatchEvent};
use codrop::{Engine, FileRecord, Observation, VClock};

fn line(words: &[&str]) -> Vec<String> {
    words.iter().map(|w| w.to_string()).collect()
}

fn file(bytes: &[u8]) -> Found {
    Found::File { bytes: bytes.to_vec(), size: bytes.len() as u64, mode: 0o644 }
}

fn run(dir: &str, peer: Option<&str>) -> Command {
    Command::Run { dir: dir.into(), peer: peer.map(String::from) }
}

fn detach(dir: &str) -> Command {
    Command::Detach { dir: dir.into() }
}

#[test]
fn commands_take_an_optional_directory() {
    assert_eq!(parse(&line(&["codrop", "run"])), run(".", None));
    assert_eq!(parse(&line(&["codrop", "run", "~/code"])), run("~/code", None));
    assert_eq!(parse(&line(&["codrop", "run", "--peer", "id"])), run(".", Some("id")));
    assert_eq!(
        parse(&line(&["codrop", "run", "d", "--peer", "id", "--detach"])),
        detach("d")
    );
    assert_eq!(parse(&line(&["codrop", "run", "d", "--peer", "id"])), run("d", Some("id")));
    assert_eq!(parse(&line(&["codrop", "run", "-d", "d"])), detach("d"));
    assert_eq!(parse(&line(&["codrop", "run", "-d"])), detach("."));
    // Going to the background comes first: it is the child that misses the id.
    assert_eq!(parse(&line(&["codrop", "run", "d", "--detach", "--peer"])), detach("d"));
    assert_eq!(parse(&line(&["codrop", "run", "d", "--peer", "--detach"])), detach("d"));
    assert_eq!(
        parse(&line(&["codrop", "run", "--peer"])),
        Command::Misused { usage: "--peer needs an endpoint id".into() }
    );
    let pair = |dir: &str, id: &str| Command::Pair { dir: dir.into(), id: id.into() };
    assert_eq!(parse(&line(&["codrop", "pair", "id"])), pair(".", "id"));
    assert_eq!(parse(&line(&["codrop", "pair", "d", "id"])), pair("d", "id"));
    assert_eq!(parse(&line(&["codrop", "trust", "d", "id"])), pair("d", "id"));
    assert_eq!(
        parse(&line(&["codrop", "pair"])),
        Command::Misused { usage: "usage: codrop pair [<dir>] <endpoint-id>".into() }
    );
    assert_eq!(
        parse(&line(&["codrop", "ignore", ".env"])),
        Command::Ignore { dir: ".".into(), pattern: ".env".into() }
    );
    assert_eq!(
        parse(&line(&["codrop", "ignore", "~/code", "*.log"])),
        Command::Ignore { dir: "~/code".into(), pattern: "*.log".into() }
    );
    assert_eq!(
        parse(&line(&["codrop", "ignore"])),
        Command::Misused { usage: "usage: codrop ignore [<dir>] <file|subdir|glob>".into() }
    );
    assert_eq!(parse(&line(&["codrop", "id"])), Command::Id { dir: ".".into() });
    assert_eq!(parse(&line(&["codrop", "status", "d"])), Command::Status { dir: "d".into() });
    assert_eq!(parse(&line(&["codrop", "stop"])), Command::Stop { dir: ".".into() });
}

#[test]
fn help_version_and_unknown_commands() {
    for help in [&["codrop"][..], &["codrop", "--help"], &["codrop", "-h"], &["codrop", "help"]] {
        assert_eq!(parse(&line(help)), Command::Help);
    }
    assert_eq!(parse(&line(&["codrop", "--version"])), Command::Version);
    assert_eq!(parse(&line(&["codrop", "-V"])), Command::Version);
    assert_eq!(parse(&line(&["codrop", "x"])), Command::Unknown { word: "x".into() });
}

#[test]
fn the_background_process_runs_the_same() {
    let args = line(&["codrop", "run", "d", "--detach", "--peer", "id", "-d"]);
    let child = child_args(&args);
    assert_eq!(child, line(&["run", "d", "--peer", "id"]));
    assert_eq!(child_args(&line(&[])), line(&[]));
    let mut full = line(&["codrop"]);
    full.extend(child);
    assert_eq!(parse(&full), run("d", Some("id")));
    let child = child_args(&line(&["codrop", "run", "d", "--detach", "--peer"]));
    let mut full = line(&["codrop"]);
    full.extend(child);
    assert_eq!(
        parse(&full),
        Command::Misused { usage: "--peer needs an endpoint id".into() }
    );
}

#[test]
fn one_shot_commands() {
    let misused = |usage: &str| NetCommand::Misused { usage: usage.into() };
    assert_eq!(parse_net(&line(&["n", "serve"])), NetCommand::Serve { dir: ".".into() });
    assert_eq!(parse_net(&line(&["n", "serve", "d"])), NetCommand::Serve { dir: "d".into() });
    assert_eq!(
        parse_net(&line(&["n", "pull", "d", "id"])),
        NetCommand::Pull { dir: "d".into(), id: "id".into() }
    );
    assert_eq!(parse_net(&line(&["n", "pull", "d"])), misused("usage: pull <root> <id>"));
    assert_eq!(parse_net(&line(&["n"])), misused("usage: codrop-net <serve|pull> ..."));
    assert_eq!(parse_net(&line(&["n", "x"])), misused("usage: codrop-net <serve|pull> ..."));
}

#[test]
fn status_lists_each_peer_once() {
    let mut engine = Engine::open("/r", "/r/.codrop", &Vec::new(), None, "d".into());
    engine.try_observe("/r/a", &file(b"1"), 1).unwrap();
    engine.try_observe("/r/b", &file(b"2"), 1).unwrap();
    engine.observe_delete("/r/b", 2).unwrap();
    let s = snapshot_status(7, "me", &engine, &line(&["x", "y", "x"]), 99);
    assert_eq!(s.pid, 7);
    assert_eq!(s.endpoint_id, "me");
    assert_eq!(s.files, 1);
    assert_eq!(s.updated_ms, 99);
    let peer = |id: &str| PeerStatus { id: id.into(), connected: true };
    assert_eq!(s.peers, vec![peer("x"), peer("y")]);
}

#[test]
fn status_reports() {
    let mut s = Status {
        pid: 21063,
        endpoint_id: "me".into(),
        files: 42,
        peers: vec![PeerStatus { id: "e18373aabf1e".into(), connected: true }],
        updated_ms: 5_000,
    };
    assert_eq!(
        status_report("d", Some(&s), true, 6_999),
        line(&[
            "codrop: running (pid 21063)",
            "  endpoint id: me",
            "  tracking:    42 files",
            "  status:      live (1s ago)",
            "  peers:       1 connected",
            "    \u{25cf} e18373aabf1e",
        ])
    );
    s.peers[0].connected = false;
    assert_eq!(status_report("d", Some(&s), true, 0)[3], "  status:      live (0s ago)");
    assert_eq!(status_report("d", Some(&s), true, 0)[5], "    \u{25cb} e18373aabf1e");
    s.peers.clear();
    assert_eq!(status_report("d", Some(&s), true, 0)[4], "  peers:       none connected");
    assert_eq!(
        status_report("d", Some(&s), false, 0),
        line(&["codrop: not running (d \u{2014} last pid 21063 is gone)"])
    );
    assert_eq!(
        status_report("d", None, false, 0),
        line(&["codrop: not running for d (no daemon)"])
    );
}

#[test]
fn stopping() {
    let s = Status {
        pid: 5,
        endpoint_id: "me".into(),
        files: 0,
        peers: Vec::new(),
        updated_ms: 0,
    };
    assert_eq!(stop_plan(None, true), StopPlan::NotRunning);
    assert_eq!(stop_plan(Some(&s), false), StopPlan::Gone { pid: 5 });
    assert_eq!(stop_plan(Some(&s), true), StopPlan::Terminate { pid: 5 });
    assert_eq!(
        stop_message("d", StopPlan::NotRunning),
        "codrop: not running for d (no daemon)"
    );
    assert_eq!(
        stop_message("d", StopPlan::Gone { pid: 5 }),
        "codrop: not running (pid 5 already gone)"
    );
    assert_eq!(stop_message("d", StopPlan::Terminate { pid: 5 }), "codrop: stopped (pid 5)");
}

#[test]
fn file_events() {
    assert_eq!(file_event(true, PathKind::File), FileEvent::Ignored);
    assert_eq!(file_event(false, PathKind::File), FileEvent::Written);
    assert_eq!(file_event(false, PathKind::Link), FileEvent::Written);
    assert_eq!(file_event(false, PathKind::Missing), FileEvent::Gone);
    assert_eq!(file_event(false, PathKind::Dir), FileEvent::Other);
    assert_eq!(file_event(false, PathKind::Other), FileEvent::Other);
    assert_eq!(scan_step(true, PathKind::Dir), ScanStep::Skip);
    assert_eq!(scan_step(false, PathKind::Dir), ScanStep::Descend);
    assert_eq!(scan_step(false, PathKind::File), ScanStep::Observe);
    // A link is recorded, not descended into.
    assert_eq!(scan_step(false, PathKind::Link), ScanStep::Observe);
    assert_eq!(scan_step(false, PathKind::Other), ScanStep::Skip);
    assert_eq!(scan_step(false, PathKind::Missing), ScanStep::Skip);
}

#[test]
fn notices() {
    let mut obs = Observation {
        path: "a/b".into(),
        hash: "0123456789abcdef".repeat(4),
        size: 12,
        changed: true,
    };
    assert_eq!(observe_notice(&obs), "indexed:   a/b hash=0123456789abcdef size=12");
    obs.changed = false;
    assert_eq!(observe_notice(&obs), "unchanged: a/b (0123456789abcdef)");
    obs.hash = "abc".into();
    assert_eq!(observe_notice(&obs), "unchanged: a/b (abc)");
    assert_eq!(broadcast_notice(0), None);
    assert_eq!(broadcast_notice(3).unwrap(), "  -> pushed to 3 peer(s)");
}

#[test]
fn changes_and_deletes_are_announced() {
    let mut engine = Engine::open("/r", "/r/.codrop", &Vec::new(), None, "d".into());
    let abc = "6437b3ac38465133ffb63b75273a8db548c558465d79db03fd359c6cd5bd9d85";
    match on_written(&mut engine, "/r/x/a", &file(b"abc"), 5) {
        Reaction::Announce { line, record } => {
            assert_eq!(line, "changed: x/a (6437b3ac3846)");
            assert_eq!(record.hash, abc);
            assert_eq!(record.size, 3);
            assert_eq!(record.updated_ms, 5);
            assert_eq!(record.vclock.get("d"), 1);
        }
        other => panic!("{other:?}"),
    }
    // The same content again, such as a push that was just applied: nobody is told.
    assert_eq!(on_written(&mut engine, "/r/x/a", &file(b"abc"), 6), Reaction::Quiet);
    // A bare change of the permission bits is a change.
    let executable = Found::File { bytes: b"abc".to_vec(), size: 3, mode: 0o755 };
    match on_written(&mut engine, "/r/x/a", &executable, 6) {
        Reaction::Announce { line, record } => {
            assert_eq!(line, "changed: x/a (6437b3ac3846)");
            assert_eq!(record.hash, abc);
            assert_eq!(record.mode, 0o755);
            assert_eq!(record.vclock.get("d"), 2);
        }
        other => panic!("{other:?}"),
    }
    match on_gone(&mut engine, "/r/x/a", 7) {
        Reaction::Announce { line, record } => {
            assert_eq!(line, "deleted: x/a");
            assert!(record.deleted);
            assert_eq!(record.vclock.get("d"), 3);
        }
        other => panic!("{other:?}"),
    }
    assert_eq!(on_gone(&mut engine, "/r/x/a", 8), Reaction::Quiet);
    assert_eq!(on_gone(&mut engine, "/r/never", 8), Reaction::Quiet);

    let full = FileRecord {
        path: "f".into(),
        hash: "00".into(),
        size: 0,
        mode: 0o644,
        link: false,
        vclock: VClock::from_entries(&vec![("d".to_string(), u64::MAX)]),
        updated_ms: 0,
        deleted: false,
    };
    let mut engine = Engine::open("/r", "/s", &vec![full], None, "d".into());
    assert_eq!(on_written(&mut engine, "/r/f", &file(b"abc"), 5), Reaction::Exhausted);
    assert_eq!(on_gone(&mut engine, "/r/f", 5), Reaction::Exhausted);
}

#[test]
fn going_to_the_background_is_reported() {
    assert_eq!(
        detach_report(21063, "/r/.codrop/daemon.log", "/r"),
        line(&[
            "codrop: running detached (pid 21063)",
            "  logs:  /r/.codrop/daemon.log",
            "  id:    codrop id /r",
            "  stop:  kill 21063",
        ])
    );
}

#[test]
fn watch_events() {
    assert_eq!(watch_event("/r/node_modules/yarn.lock", PathKind::File), WatchEvent::Ignored);
    assert_eq!(watch_event("/r/yarn.lock", PathKind::File), WatchEvent::Lockfile);
    assert_eq!(watch_event("/r/src", PathKind::Dir), WatchEvent::NotAFile);
    assert_eq!(watch_event("/r/src/l", PathKind::Link), WatchEvent::Observe);
    assert_eq!(watch_event("/r/src/a.rs", PathKind::Missing), WatchEvent::NotAFile);
    assert_eq!(watch_event("/r/src/a.rs", PathKind::File), WatchEvent::Observe);
    for name in [
        "package-lock.json",
        "pnpm-lock.yaml",
        "yarn.lock",
        "Cargo.lock",
        "poetry.lock",
        "requirements.txt",
    ] {
        assert!(is_manifest(&format!("/r/sub/{name}")));
    }
    assert!(!is_manifest("/r/package.json"));
    assert!(!is_manifest("/r/yarn.lock/.."));
}

#[test]
fn keys_and_ids() {
    let key = vec![7u8; 32];
    let id = device_endpoint_id(&key);
    let secret = iroh::SecretKey::from_bytes(&[7u8; 32]);
    assert_eq!(id, secret.public().to_string());
    assert_eq!(id.len(), 64);
    assert_eq!(endpoint_id(&id), Some(id.clone()));
    assert_eq!(endpoint_id("nonsense"), None);
    assert_eq!(endpoint_id(&id.to_uppercase()), None);
    assert_eq!(stored_key(Some(key.clone())), Some(key));
    assert_eq!(stored_key(Some(vec![1, 2, 3])), None);
    assert_eq!(stored_key(None), None);
}

#[test]
fn pairings_persist() {
    let a = device_endpoint_id(&vec![1u8; 32]);
    let b = device_endpoint_id(&vec![2u8; 32]);
    assert_eq!(load_trusted(""), Vec::<String>::new());
    let one = trust_peer("", &a).unwrap();
    assert_eq!(one, format!("{a}\n"));
    let two = trust_peer(&one, &b).unwrap();
    assert_eq!(load_trusted(&two), vec![a.clone(), b.clone()]);
    assert_eq!(trust_peer(&two, &a), None);
    // Garbage lines are passed over, and dropped when the file is next written.
    let messy = format!("# peers\n  {a}  \n\nnonsense\n");
    assert_eq!(load_trusted(&messy), vec![a.clone()]);
    assert_eq!(trust_peer(&messy, &b).unwrap(), format!("{a}\n{b}\n"));
    assert!(admits(&load_trusted(&two), &b));
    assert!(!admits(&load_trusted(&one), &b));
    assert_eq!(peers_file("/r"), "/r/.codrop/peers");
}

#[test]
fn pairing() {
    let a = device_endpoint_id(&vec![1u8; 32]);
    let b = device_endpoint_id(&vec![2u8; 32]);
    assert_eq!(pair("", "nonsense"), Pairing::Invalid);
    let text = format!("{a}\n");
    assert_eq!(pair("junk\n", &a), Pairing::Added { id: a.clone(), text: text.clone() });
    assert_eq!(pair(&text, &a), Pairing::Known { id: a.clone() });
    let both = format!("{a}\n{b}\n");
    assert_eq!(pair(&text, &b), Pairing::Added { id: b, text: both });
}

#[test]
fn every_paired_peer_without_a_link_is_dialed() {
    let paired = line(&["a", "b", "c"]);
    assert_eq!(to_dial(&paired, &line(&["b"])), line(&["a", "c"]));
    assert_eq!(to_dial(&paired, &line(&[])), paired);
    assert_eq!(to_dial(&line(&[]), &paired), line(&[]));
}
