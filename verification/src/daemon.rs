//! The decisions of the live-sync daemon: what a file event means, who is connected, what the
//! status report says, and whether there is a daemon to stop.

use crate::digest::is_digest;
use crate::engine::{
    clock_at, found_content, found_version, is_change, is_live, observed, relative, tombstone,
    Engine, Found, Observation, State,
};
use crate::index::FileRecord;
use crate::store::stored;
use crate::vclock::{bumped, count};
use crate::text::{any_same, chars_of, decimal, text_of, texts, texts_push, to_decimal};
use vstd::prelude::*;

verus! {

/// `a`, then `b`, then `c`.
pub(crate) fn three(a: &str, b: &str, c: &str) -> (r: String)
    ensures
        r@ == a@ + b@ + c@,
{
    let mut s = a.to_owned();
    vstd::string::StringExecFns::append(&mut s, b);
    vstd::string::StringExecFns::append(&mut s, c);
    s
}

// ---- status --------------------------------------------------------------------------------
/// A peer in a status snapshot.
#[derive(Debug, PartialEq, Eq)]
pub struct PeerStatus {
    pub id: String,
    pub connected: bool,
}

/// Snapshot that the daemon writes to `<dir>/.codrop/status.json` for `status` and `stop` to
/// read.
#[derive(Debug, PartialEq, Eq)]
pub struct Status {
    pub pid: u32,
    pub endpoint_id: String,
    pub files: usize,
    pub peers: Vec<PeerStatus>,
    pub updated_ms: i64,
}

/// What a [`Status`] says; of each peer its id, and whether it is connected.
pub struct Snapshot {
    pub pid: u32,
    pub endpoint_id: Seq<char>,
    pub files: usize,
    pub peers: Seq<(Seq<char>, bool)>,
    pub updated_ms: i64,
}

/// What each of a list of peers is.
pub open spec fn peers_of(v: Seq<PeerStatus>) -> Seq<(Seq<char>, bool)> {
    Seq::new(v.len(), |i: int| (v[i].id@, v[i].connected))
}

impl View for Status {
    type V = Snapshot;

    open spec fn view(&self) -> Snapshot {
        Snapshot {
            pid: self.pid,
            endpoint_id: self.endpoint_id@,
            files: self.files,
            peers: peers_of(self.peers@),
            updated_ms: self.updated_ms,
        }
    }
}

/// Each entry of the list once, where it first stands.
pub open spec fn firsts(list: Seq<Seq<char>>) -> Seq<Seq<char>>
    decreases list.len(),
{
    if list.len() == 0 {
        Seq::empty()
    } else {
        let earlier = firsts(list.drop_last());
        if earlier.contains(list.last()) {
            earlier
        } else {
            earlier.push(list.last())
        }
    }
}

/// The ids as connected peers.
pub open spec fn all_connected(ids: Seq<Seq<char>>) -> Seq<(Seq<char>, bool)> {
    Seq::new(ids.len(), |i: int| (ids[i], true))
}

/// Each id once (there may be a connection either way to the same peer), where it first stands.
fn unique(list: &Vec<String>) -> (out: Vec<String>)
    ensures
        texts(out@) == firsts(texts(list@)),
{
    let ghost ids = texts(list@);
    let mut out: Vec<String> = Vec::new();
    let mut i: usize = 0;
    proof {
        assert(texts(out@) =~= firsts(ids.take(0)));
    }
    while i < list.len()
        invariant
            i <= list@.len(),
            ids == texts(list@),
            texts(out@) == firsts(ids.take(i as int)),
        decreases list@.len() - i,
    {
        proof {
            assert(ids.take(i + 1).drop_last() =~= ids.take(i as int));
            assert(ids.take(i + 1).last() == list@[i as int]@);
        }
        if !any_same(&out, list[i].as_str()) {
            let id = list[i].clone();
            proof {
                texts_push(out@, id);
            }
            out.push(id);
        }
        i += 1;
    }
    proof {
        assert(ids.take(list@.len() as int) =~= ids);
    }
    out
}

/// The daemon's status: `live` are the ids of the connections that are open.
pub fn snapshot_status(
    pid: u32,
    endpoint_id: &str,
    engine: &Engine,
    live: &Vec<String>,
    now: i64,
) -> (r: Status)
    ensures
        r.pid == pid,
        r@.endpoint_id == endpoint_id@,
        r.files == crate::index::live_paths(engine@.rows).len(),
        r@.peers == all_connected(firsts(texts(live@))),
        forall|i: int| 0 <= i < r.peers@.len() ==> (#[trigger] r.peers@[i]).connected,
        forall|i: int|
            0 <= i < r.peers@.len() ==> texts(live@).contains((#[trigger] r.peers@[i]).id@),
        forall|i: int, j: int|
            0 <= i < j < r.peers@.len() ==> (#[trigger] r.peers@[i]).id@ != (
            #[trigger] r.peers@[j]).id@,
        forall|id: Seq<char>| #[trigger]
            texts(live@).contains(id) ==> exists|i: int|
                0 <= i < r.peers@.len() && (#[trigger] r.peers@[i]).id@ == id,
        r.updated_ms == now,
{
    let ids = unique(live);
    let mut peers: Vec<PeerStatus> = Vec::new();
    let mut i: usize = 0;
    while i < ids.len()
        invariant
            i <= ids@.len(),
            peers@.len() == i,
            forall|j: int|
                0 <= j < i ==> (#[trigger] peers@[j]).id@ == ids@[j]@ && peers@[j].connected,
        decreases ids@.len() - i,
    {
        peers.push(PeerStatus { id: ids[i].clone(), connected: true });
        i += 1;
    }
    proof {
        assert(peers_of(peers@) =~= all_connected(texts(ids@)));
        let all = texts(live@);
        let once = firsts(all);
        peers_are_listed_once(all);
        assert forall|i: int| 0 <= i < peers@.len() implies (#[trigger] peers@[i]).id@
            == once[i] by {
            assert(texts(ids@)[i] == ids@[i]@);
        }
        assert forall|i: int| 0 <= i < peers@.len() implies all.contains(
            (#[trigger] peers@[i]).id@,
        ) by {
            assert(once.contains(once[i]));
        }
        assert forall|i: int, j: int| 0 <= i < j < peers@.len() implies (#[trigger] peers@[i]).id@
            != (#[trigger] peers@[j]).id@ by {
            assert(once[i] != once[j]);
        }
        assert forall|id: Seq<char>| #[trigger] all.contains(id) implies exists|i: int|
            0 <= i < peers@.len() && (#[trigger] peers@[i]).id@ == id by {
            assert(once.contains(id));
            let k = once.index_of(id);
            assert(peers@[k].id@ == id);
        }
    }
    Status {
        pid,
        endpoint_id: endpoint_id.to_owned(),
        files: engine.file_count(),
        peers,
        updated_ms: now,
    }
}

/// Whole seconds from one time to a later one, in milliseconds; none if it is not later.
pub open spec fn seconds(from: i64, to: i64) -> nat {
    if to > from {
        ((to - from) / 1000) as nat
    } else {
        0
    }
}

/// How a peer is marked in the report.
pub open spec fn mark(connected: bool) -> Seq<char> {
    if connected {
        "    \u{25cf} "@
    } else {
        "    \u{25cb} "@
    }
}

/// The lines of the report of a daemon that runs.
pub open spec fn running_lines(s: Snapshot, now: i64) -> Seq<Seq<char>> {
    let first = seq![
        "codrop: running (pid "@ + decimal(s.pid as nat) + ")"@,
        "  endpoint id: "@ + s.endpoint_id + ""@,
        "  tracking:    "@ + decimal(s.files as nat) + " files"@,
        "  status:      live ("@ + decimal(seconds(s.updated_ms, now)) + "s ago)"@,
    ];
    if s.peers.len() == 0 {
        first.push("  peers:       none connected"@)
    } else {
        first.push("  peers:       "@ + decimal(s.peers.len()) + " connected"@) + Seq::new(
            s.peers.len(),
            |i: int| mark(s.peers[i].1) + s.peers[i].0 + ""@,
        )
    }
}

/// The lines of the status report for a directory.
pub open spec fn report(dir: Seq<char>, s: Option<Snapshot>, alive: bool, now: i64) -> Seq<
    Seq<char>,
> {
    match s {
        None => seq!["codrop: not running for "@ + dir + " (no daemon)"@],
        Some(s) => if !alive {
            seq![
                ("codrop: not running ("@ + dir + " \u{2014} last pid "@) + decimal(s.pid as nat)
                    + " is gone)"@,
            ]
        } else {
            running_lines(s, now)
        },
    }
}

fn number(n: usize) -> (r: String)
    ensures
        r@ == decimal(n as nat),
{
    to_decimal(n as u128)
}

/// The status report for a directory: `status` is what its daemon published, if there is
/// anything, and `alive` says whether the process that did still exists.
pub fn status_report(dir: &str, status: Option<&Status>, alive: bool, now: i64) -> (out: Vec<String>)
    requires
        status matches Some(s) ==> now - s.updated_ms <= i64::MAX,
    ensures
        texts(out@) == report(
            dir@,
            match status {
                Some(s) => Some(s@),
                None => None,
            },
            alive,
            now,
        ),
{
    let mut out: Vec<String> = Vec::new();
    let s = match status {
        None => {
            out.push(three("codrop: not running for ", dir, " (no daemon)"));
            proof {
                assert(texts(out@) =~= report(dir@, None, alive, now));
            }
            return out;
        },
        Some(s) => s,
    };
    let pid = to_decimal(s.pid as u128);
    if !alive {
        let head = three("codrop: not running (", dir, " \u{2014} last pid ");
        out.push(three(head.as_str(), pid.as_str(), " is gone)"));
        proof {
            assert(texts(out@) =~= report(dir@, Some(s@), alive, now));
        }
        return out;
    }
    let age: i64 = if now > s.updated_ms {
        (now - s.updated_ms) / 1000
    } else {
        0
    };
    let age = to_decimal(age as u128);
    let files = number(s.files);
    out.push(three("codrop: running (pid ", pid.as_str(), ")"));
    out.push(three("  endpoint id: ", s.endpoint_id.as_str(), ""));
    out.push(three("  tracking:    ", files.as_str(), " files"));
    out.push(three("  status:      live (", age.as_str(), "s ago)"));
    if s.peers.len() == 0 {
        out.push("  peers:       none connected".to_owned());
        proof {
            assert(texts(out@) =~= report(dir@, Some(s@), alive, now));
        }
        return out;
    }
    let count = number(s.peers.len());
    out.push(three("  peers:       ", count.as_str(), " connected"));
    let ghost lines = running_lines(s@, now);
    let mut i: usize = 0;
    proof {
        assert(texts(out@) =~= lines.take(5));
    }
    while i < s.peers.len()
        invariant
            i <= s.peers@.len(),
            lines == running_lines(s@, now),
            lines.len() == 5 + s.peers@.len(),
            texts(out@) == lines.take(5 + i),
        decreases s.peers@.len() - i,
    {
        let p = &s.peers[i];
        let m = if p.connected {
            "    \u{25cf} "
        } else {
            "    \u{25cb} "
        };
        let line = three(m, p.id.as_str(), "");
        proof {
            texts_push(out@, line);
            assert(lines[5 + i] == line@);
            assert(lines.take(5 + i).push(lines[5 + i]) =~= lines.take(6 + i));
        }
        out.push(line);
        i += 1;
    }
    proof {
        assert(lines.take(lines.len() as int) =~= lines);
    }
    out
}

/// What there is to do to stop a daemon.
#[derive(Debug, PartialEq, Eq, Clone, Copy, Structural)]
pub enum StopPlan {
    /// There is none.
    NotRunning,
    /// Its process is gone; only the status file is to be removed.
    Gone { pid: u32 },
    /// Its process is to be terminated, and the status file removed.
    Terminate { pid: u32 },
}

/// What there is to do to stop the daemon that published `status`.
pub fn stop_plan(status: Option<&Status>, alive: bool) -> (r: StopPlan)
    ensures
        r == match status {
            None => StopPlan::NotRunning,
            Some(s) => if alive {
                StopPlan::Terminate { pid: s.pid }
            } else {
                StopPlan::Gone { pid: s.pid }
            },
        },
{
    match status {
        None => StopPlan::NotRunning,
        Some(s) => if alive {
            StopPlan::Terminate { pid: s.pid }
        } else {
            StopPlan::Gone { pid: s.pid }
        },
    }
}

/// What is said once that is done.
pub fn stop_message(dir: &str, plan: StopPlan) -> (r: String)
    ensures
        r@ == match plan {
            StopPlan::NotRunning => "codrop: not running for "@ + dir@ + " (no daemon)"@,
            StopPlan::Gone { pid } => "codrop: not running (pid "@ + decimal(pid as nat)
                + " already gone)"@,
            StopPlan::Terminate { pid } => "codrop: stopped (pid "@ + decimal(pid as nat) + ")"@,
        },
{
    match plan {
        StopPlan::NotRunning => three("codrop: not running for ", dir, " (no daemon)"),
        StopPlan::Gone { pid } => {
            let n = to_decimal(pid as u128);
            three("codrop: not running (pid ", n.as_str(), " already gone)")
        },
        StopPlan::Terminate { pid } => {
            let n = to_decimal(pid as u128);
            three("codrop: stopped (pid ", n.as_str(), ")")
        },
    }
}

// ---- file events ---------------------------------------------------------------------------
/// What stands at a path, a symbolic link being a link whatever it leads to.
#[derive(Debug, PartialEq, Eq, Clone, Copy, Structural)]
pub enum PathKind {
    /// Nothing at all.
    Missing,
    /// A regular file.
    File,
    /// A symbolic link.
    Link,
    /// A directory.
    Dir,
    /// Something that is not synced.
    Other,
}

/// What a file event means.
#[derive(Debug, PartialEq, Eq, Clone, Copy, Structural)]
pub enum FileEvent {
    /// The path is never synced.
    Ignored,
    /// The file or link was created or modified: observe it, and tell the peers if it changed.
    Written,
    /// The path is gone: if it was a tracked file, record the delete and tell the peers.
    Gone,
    /// A directory, or something else that is not synced.
    Other,
}

/// What an event on a path means, by whether it is ignored and by what stands there.
pub fn file_event(ignored: bool, kind: PathKind) -> (r: FileEvent)
    ensures
        r == if ignored {
            FileEvent::Ignored
        } else if kind == PathKind::File || kind == PathKind::Link {
            FileEvent::Written
        } else if kind == PathKind::Missing {
            FileEvent::Gone
        } else {
            FileEvent::Other
        },
{
    if ignored {
        return FileEvent::Ignored;
    }
    match kind {
        PathKind::File | PathKind::Link => FileEvent::Written,
        PathKind::Missing => FileEvent::Gone,
        PathKind::Dir | PathKind::Other => FileEvent::Other,
    }
}

/// What is said of a file that was observed; nothing of one whose content is unchanged (a
/// just-applied push included), which is told to nobody.
fn change_notice(obs: &Observation) -> (r: Option<String>)
    requires
        is_digest(obs.hash@),
    ensures
        match r {
            Some(line) => obs.changed && line@ == "changed: "@ + obs.path@ + (" ("@
                + obs.hash@.take(12) + ")"@),
            None => !obs.changed,
        },
{
    if !obs.changed {
        return None;
    }
    let v = chars_of(obs.hash.as_str());
    let short = text_of(&v, 0, 12);
    proof {
        assert(short@ =~= obs.hash@.take(12));
    }
    let tail = three(" (", short.as_str(), ")");
    Some(three("changed: ", obs.path.as_str(), tail.as_str()))
}

/// What comes of a file event.
#[derive(Debug, PartialEq, Eq)]
pub enum Reaction {
    /// Nothing changed; nobody is told.
    Quiet,
    /// Say the line, and push the record to every live peer.
    Announce { line: String, record: FileRecord },
    /// This device's counter for the path has no room for another change; nothing was recorded.
    Exhausted,
}

/// A file or link was created or modified: record what was found.
pub fn on_written(engine: &mut Engine, abs_path: &str, found: &Found, now: i64) -> (r: Reaction)
    ensures
        ({
            let st = old(engine)@;
            let path = relative(st.root, abs_path@);
            let v = found_version(*found);
            let rows = observed(st.rows, st.device_id, path, v, now);
            let changed = is_change(st.rows, path, v);
            if changed && count(clock_at(st.rows, path), st.device_id) == u64::MAX {
                r is Exhausted && final(engine)@ == st
            } else {
                &&& final(engine)@ == (State {
                    rows,
                    shelves: stored(st.shelves, found_content(*found)),
                    ..st
                })
                &&& if changed {
                    r matches Reaction::Announce { line, record } && record@ == rows[path] && line@
                        == "changed: "@ + path + (" ("@ + v.hash.take(12) + ")"@)
                } else {
                    r is Quiet
                }
            }
        }),
{
    let obs = match engine.try_observe(abs_path, found, now) {
        Some(obs) => obs,
        None => {
            return Reaction::Exhausted;
        },
    };
    match change_notice(&obs) {
        None => Reaction::Quiet,
        Some(line) => match engine.index().get(obs.path.as_str()) {
            Some(record) => Reaction::Announce { line, record },
            None => Reaction::Quiet,
        },
    }
}

/// A path is gone: if it was a tracked file, record the delete.
pub fn on_gone(engine: &mut Engine, abs_path: &str, now: i64) -> (r: Reaction)
    ensures
        ({
            let st = old(engine)@;
            let path = relative(st.root, abs_path@);
            if !is_live(st.rows, path) {
                r is Quiet && final(engine)@ == st
            } else if count(st.rows[path].vclock, st.device_id) == u64::MAX {
                r is Exhausted && final(engine)@ == st
            } else {
                let tomb = tombstone(path, bumped(st.rows[path].vclock, st.device_id), now);
                &&& final(engine)@ == (State { rows: st.rows.insert(path, tomb), ..st })
                &&& r matches Reaction::Announce { line, record } && record@ == tomb && line@
                    == "deleted: "@ + path + ""@
            }
        }),
{
    let path = engine.rel(abs_path);
    match engine.index().get(path.as_str()) {
        Some(prev) => if !prev.deleted && prev.vclock.get(engine.device_id()) == u64::MAX {
            return Reaction::Exhausted;
        },
        None => {},
    }
    match engine.observe_delete(abs_path, now) {
        Some(record) => {
            let line = three("deleted: ", path.as_str(), "");
            Reaction::Announce { line, record }
        },
        None => Reaction::Quiet,
    }
}

/// What a directory entry is to a scan of the tree.
#[derive(Debug, PartialEq, Eq, Clone, Copy, Structural)]
pub enum ScanStep {
    /// It is passed over, with everything beneath it.
    Skip,
    /// It is a directory to go into.
    Descend,
    /// It is a file or a link to observe.
    Observe,
}

/// What a directory entry is to a scan of the tree. Links are observed, never followed.
pub fn scan_step(ignored: bool, kind: PathKind) -> (r: ScanStep)
    ensures
        r == if !ignored && kind == PathKind::Dir {
            ScanStep::Descend
        } else if !ignored && (kind == PathKind::File || kind == PathKind::Link) {
            ScanStep::Observe
        } else {
            ScanStep::Skip
        },
{
    if ignored {
        return ScanStep::Skip;
    }
    match kind {
        PathKind::Dir => ScanStep::Descend,
        PathKind::File | PathKind::Link => ScanStep::Observe,
        PathKind::Missing | PathKind::Other => ScanStep::Skip,
    }
}

/// What is said of a broadcast that `pushed` peers took; nothing if none did.
pub fn broadcast_notice(pushed: usize) -> (r: Option<String>)
    ensures
        match r {
            Some(line) => pushed > 0 && line@ == "  -> pushed to "@ + decimal(pushed as nat)
                + " peer(s)"@,
            None => pushed == 0,
        },
{
    if pushed == 0 {
        return None;
    }
    let n = number(pushed);
    Some(three("  -> pushed to ", n.as_str(), " peer(s)"))
}

/// What is said when the daemon went to the background.
pub fn detach_report(pid: u32, log: &str, dir: &str) -> (out: Vec<String>)
    ensures
        texts(out@) == seq![
            "codrop: running detached (pid "@ + decimal(pid as nat) + ")"@,
            "  logs:  "@ + log@ + ""@,
            "  id:    codrop id "@ + dir@ + ""@,
            "  stop:  kill "@ + decimal(pid as nat) + ""@,
        ],
{
    let n = to_decimal(pid as u128);
    let mut out: Vec<String> = Vec::new();
    out.push(three("codrop: running detached (pid ", n.as_str(), ")"));
    out.push(three("  logs:  ", log, ""));
    out.push(three("  id:    codrop id ", dir, ""));
    out.push(three("  stop:  kill ", n.as_str(), ""));
    proof {
        assert(texts(out@) =~= seq![
            "codrop: running detached (pid "@ + decimal(pid as nat) + ")"@,
            "  logs:  "@ + log@ + ""@,
            "  id:    codrop id "@ + dir@ + ""@,
            "  stop:  kill "@ + decimal(pid as nat) + ""@,
        ]);
    }
    out
}

// ---- laws ----------------------------------------------------------------------------------
/// A peer is listed once, however many connections there are to it, and every peer is.
pub proof fn peers_are_listed_once(ids: Seq<Seq<char>>)
    ensures
        firsts(ids).no_duplicates(),
        forall|id: Seq<char>| #[trigger] firsts(ids).contains(id) <==> ids.contains(id),
    decreases ids.len(),
{
    if ids.len() > 0 {
        let d = ids.drop_last();
        peers_are_listed_once(d);
        let f = firsts(ids);
        assert forall|id: Seq<char>| #[trigger] f.contains(id) == ids.contains(id) by {
            assert(firsts(d).contains(id) == d.contains(id));
            if d.contains(id) {
                let i = d.index_of(id);
                assert(ids[i] == id);
                let j = firsts(d).index_of(id);
                assert(f[j] == id);
            }
            if ids.contains(id) && !d.contains(id) {
                let i = ids.index_of(id);
                if i < d.len() {
                    assert(d[i] == id);
                }
                assert(id == ids.last());
                if !firsts(d).contains(id) {
                    assert(f[f.len() - 1] == id);
                }
            }
            if f.contains(id) && !firsts(d).contains(id) {
                let j = f.index_of(id);
                if j < firsts(d).len() {
                    assert(firsts(d)[j] == id);
                }
                assert(id == ids.last());
                assert(ids[ids.len() - 1] == id);
            }
        }
        if !firsts(d).contains(ids.last()) {
            assert forall|i: int, j: int|
                0 <= i < f.len() && 0 <= j < f.len() && i != j implies f[i] != f[j] by {
                if i < firsts(d).len() && j < firsts(d).len() {
                    assert(firsts(d)[i] != firsts(d)[j]);
                } else if i < firsts(d).len() {
                    assert(firsts(d).contains(firsts(d)[i]));
                } else if j < firsts(d).len() {
                    assert(firsts(d).contains(firsts(d)[j]));
                }
            }
        }
    }
}

/// Ids are listed in the order in which they first stand.
pub proof fn peers_keep_their_order(ids: Seq<Seq<char>>, id: Seq<char>)
    ensures
        firsts(Seq::<Seq<char>>::empty()).len() == 0,
        ids.contains(id) ==> firsts(ids.push(id)) == firsts(ids),
        !ids.contains(id) ==> firsts(ids.push(id)) == firsts(ids).push(id),
{
    peers_are_listed_once(ids);
    assert(ids.push(id).drop_last() =~= ids);
    assert(firsts(ids).contains(id) <==> ids.contains(id));
}

/// The report on a directory without a daemon, and on one whose daemon is gone, is one line that
/// says so.
pub proof fn absence_is_reported(dir: Seq<char>, s: Snapshot, now: i64, alive: bool)
    ensures
        report(dir, None, alive, now).len() == 1,
        report(dir, None, alive, now)[0] == "codrop: not running for "@ + dir + " (no daemon)"@,
        report(dir, Some(s), false, now).len() == 1,
        report(dir, Some(s), false, now)[0] == "codrop: not running ("@ + dir
            + " \u{2014} last pid "@ + decimal(s.pid as nat) + " is gone)"@,
{
}

/// The report on a daemon that runs gives its process, its endpoint id, how many files it tracks,
/// how many whole seconds ago it said so, how many peers are connected, and each peer on a line of
/// its own behind a mark that says whether it is.
pub proof fn running_daemon_is_reported(dir: Seq<char>, s: Snapshot, now: i64, i: int)
    ensures
        ({
            let r = report(dir, Some(s), true, now);
            let ago = now - s.updated_ms;
            &&& r.len() == 5 + s.peers.len()
            &&& r[0] == "codrop: running (pid "@ + decimal(s.pid as nat) + ")"@
            &&& r[1] == "  endpoint id: "@ + s.endpoint_id
            &&& r[2] == "  tracking:    "@ + decimal(s.files as nat) + " files"@
            &&& ago >= 0 ==> r[3] == "  status:      live ("@ + decimal((ago / 1000) as nat)
                + "s ago)"@
            &&& ago < 0 ==> r[3] == "  status:      live ("@ + decimal(0) + "s ago)"@
            &&& s.peers.len() == 0 ==> r[4] == "  peers:       none connected"@
            &&& s.peers.len() > 0 ==> r[4] == "  peers:       "@ + decimal(s.peers.len())
                + " connected"@
            &&& 0 <= i < s.peers.len() && s.peers[i].1 ==> r[5 + i] == "    \u{25cf} "@
                + s.peers[i].0
            &&& 0 <= i < s.peers.len() && !s.peers[i].1 ==> r[5 + i] == "    \u{25cb} "@
                + s.peers[i].0
        }),
{
    reveal_strlit("");
    let r = report(dir, Some(s), true, now);
    assert("  endpoint id: "@ + s.endpoint_id + ""@ =~= "  endpoint id: "@ + s.endpoint_id);
    if 0 <= i < s.peers.len() {
        let line = mark(s.peers[i].1) + s.peers[i].0;
        assert(r[5 + i] == line + ""@);
        assert(line + ""@ =~= line);
    }
}

/// What a daemon publishes says what its fields say.
pub proof fn status_says_its_fields(s: Status, i: int)
    ensures
        s@.pid == s.pid,
        s@.endpoint_id == s.endpoint_id@,
        s@.files == s.files,
        s@.updated_ms == s.updated_ms,
        s@.peers.len() == s.peers@.len(),
        0 <= i < s.peers@.len() ==> s@.peers[i].0 == s.peers@[i].id@ && s@.peers[i].1
            == s.peers@[i].connected,
{
}

} // verus!
