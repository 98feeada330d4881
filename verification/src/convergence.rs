//! What syncing promises: replaying a change does nothing, two devices that exchange their
//! versions end up with the same one, no edit is lost, and no peer reaches out of the tree.

use crate::engine::{
    action, both_clocks, clock_at, found_content, found_version, incoming, is_admitted, is_below,
    is_change, is_live, loser, observed, relative, rows_after, rows_after_one, same_version,
    state_after, tombstone, winner, written, Act, Found, Outcome, State, SyncAction, Version,
};
use crate::index::{is_behind_link, is_live_link, Record, Rows};
use crate::paths::{inside, is_beneath, is_safe, joined, safe_path_stays_inside, strip_undoes_join};
use crate::store::{content, holds, Shelves};
use crate::text::{before, before_irreflexive, before_total, before_transitive, replaced};
use crate::vclock::{
    bumped, causality, compare_mirrors, count, increment_is_after, independent_edits_are_concurrent,
    merge_commutes, merge_dominates, within, Causality, Counters,
};
use vstd::prelude::*;

verus! {

/// Each row stands under its own path.
pub open spec fn keyed(rows: Rows) -> bool {
    forall|p: Seq<char>| #[trigger] rows.contains_key(p) ==> rows[p].path == p
}

/// A record as an engine makes it: a tombstone has no content, anything else has.
pub open spec fn is_regular(r: Record) -> bool {
    &&& r.deleted <==> r.hash.len() == 0
    &&& r.deleted ==> r.size == 0 && r.mode == 0 && !r.link
}

/// The two clocks count the same.
pub open spec fn same_counts(a: Counters, b: Counters) -> bool {
    within(a, b) && within(b, a)
}

/// A file: its content and permission bits or, for a link, its target.
pub struct Image {
    pub bytes: Seq<u8>,
    pub mode: u32,
    pub link: bool,
}

/// The files of the synced tree and beside it, by path.
pub type Tree = Map<Seq<char>, Image>;

/// The file that a step writes.
pub open spec fn image_of(shelves: Shelves, a: Act) -> Image {
    Image {
        bytes: content(shelves, a->Materialize_hash)->Some_0,
        mode: a->Materialize_mode,
        link: a->Materialize_link,
    }
}

/// The file is the version that a record names.
pub open spec fn shows(shelves: Shelves, r: Record, image: Image) -> bool {
    content(shelves, r.hash) == Some(image.bytes) && image.mode == r.mode && image.link == r.link
}

/// The files after the steps.
pub open spec fn tree_after(tree: Tree, shelves: Shelves, acts: Seq<Act>) -> Tree
    decreases acts.len(),
{
    if acts.len() == 0 {
        tree
    } else {
        let earlier = tree_after(tree, shelves, acts.drop_last());
        match acts.last() {
            Act::Materialize { hash: _, dest, mode: _, link: _ } => earlier.insert(
                dest,
                image_of(shelves, acts.last()),
            ),
            Act::Remove { path } => earlier.remove(path),
            Act::Upsert(_) => earlier,
        }
    }
}

/// The file of a path is the version that its row names; there is none where there is no
/// live row.
pub open spec fn mirrors(st: State, tree: Tree, path: Seq<char>) -> bool {
    let abs = joined(st.root, path);
    if is_live(st.rows, path) {
        tree.contains_key(abs) && shows(st.shelves, st.rows[path], tree[abs])
    } else {
        !tree.contains_key(abs)
    }
}

// ---- lemmas --------------------------------------------------------------------------------
/// The row that a record leaves, if it changes the index.
pub open spec fn settled_row(st: State, remote: Record, now: i64) -> Option<Record> {
    let d = incoming(st, remote, now);
    if d.acts.len() == 0 {
        None
    } else if d.acts.len() == 1 {
        Some(d.acts[0]->Upsert_0)
    } else {
        Some(d.acts[1]->Upsert_0)
    }
}

/// How the index changes.
pub(crate) proof fn rows_settle(st: State, remote: Record, now: i64)
    requires
        keyed(st.rows),
    ensures
        ({
            let rows = rows_after(st.rows, incoming(st, remote, now).acts);
            match settled_row(st, remote, now) {
                Some(row) => {
                    &&& row.path == remote.path
                    &&& rows == st.rows.insert(remote.path, row)
                    &&& within(clock_at(st.rows, remote.path), row.vclock)
                    &&& within(remote.vclock, row.vclock)
                    &&& row.vclock == both_clocks(st.rows, remote)
                    &&& is_safe(remote.path)
                    &&& remote.deleted || is_admitted(st.rows, remote.path)
                    &&& is_live_link(rows, remote.path) ==> is_live_link(st.rows, remote.path) || (
                    remote.link && !remote.deleted)
                },
                None => rows == st.rows,
            }
        }),
{
    let d = incoming(st, remote, now);
    if st.rows.contains_key(remote.path) {
        merge_dominates(remote.vclock, st.rows[remote.path].vclock);
    } else {
        let none = Map::<Seq<char>, u64>::empty();
        assert forall|k: Seq<char>| #[trigger] count(none, k) <= count(remote.vclock, k) by {}
        assert forall|k: Seq<char>| #[trigger]
            count(remote.vclock, k) <= count(remote.vclock, k) by {}
    }
    if d.acts.len() == 1 {
        assert(d.acts =~= seq![d.acts[0]]);
        rows_after_one(st.rows, d.acts[0]);
    } else if d.acts.len() > 1 {
        let two = seq![d.acts[0], d.acts[1]];
        assert(two.drop_last() =~= seq![d.acts[0]]);
        rows_after_one(st.rows, d.acts[0]);
        assert(two.last() == d.acts[1]);
        assert(rows_after(st.rows, two) == st.rows.insert(
            remote.path,
            d.acts[1]->Upsert_0,
        ));
        if d.acts.len() == 2 {
            assert(d.acts =~= two);
        } else {
            assert(d.acts.drop_last() =~= two);
            assert(d.acts.last() is Materialize);
        }
    }
}

/// The files after the steps, spelled out.
proof fn tree_settles(st: State, tree: Tree, remote: Record, now: i64)
    ensures
        ({
            let acts = incoming(st, remote, now).acts;
            let t = tree_after(tree, st.shelves, acts);
            if acts.len() <= 1 {
                t == tree
            } else if acts.len() == 2 {
                t == tree_after(tree, st.shelves, seq![acts[0]])
            } else {
                t == tree_after(tree, st.shelves, seq![acts[0]]).insert(
                    acts[2]->Materialize_dest,
                    image_of(st.shelves, acts[2]),
                )
            }
        }),
        forall|a: Act|
            #[trigger] tree_after(tree, st.shelves, seq![a]) == match a {
                Act::Materialize { hash: _, dest, mode: _, link: _ } => tree.insert(
                    dest,
                    image_of(st.shelves, a),
                ),
                Act::Remove { path } => tree.remove(path),
                Act::Upsert(_) => tree,
            },
{
    let acts = incoming(st, remote, now).acts;
    assert forall|a: Act|
        #[trigger] tree_after(tree, st.shelves, seq![a]) == match a {
            Act::Materialize { hash: _, dest, mode: _, link: _ } => tree.insert(
                    dest,
                    image_of(st.shelves, a),
                ),
            Act::Remove { path } => tree.remove(path),
            Act::Upsert(_) => tree,
        } by {
        assert(seq![a].drop_last().len() == 0);
        assert(tree_after(tree, st.shelves, seq![a].drop_last()) == tree);
    }
    if acts.len() == 1 {
        assert(acts =~= seq![acts[0]]);
        assert(acts[0] is Upsert);
        assert(tree_after(tree, st.shelves, seq![acts[0]]) == tree);
    } else if acts.len() > 1 {
        let two = seq![acts[0], acts[1]];
        assert(two.drop_last() =~= seq![acts[0]]);
        assert(two.last() == acts[1]);
        assert(acts[1] is Upsert);
        assert(tree_after(tree, st.shelves, two) == tree_after(
            tree,
            st.shelves,
            seq![acts[0]],
        ));
        if acts.len() == 2 {
            assert(acts =~= two);
        } else {
            assert(acts.drop_last() =~= two);
            assert(acts.last() == acts[2]);
            assert(acts[2] is Materialize);
        }
    }
}

/// A path's own row does not decide whether the path is admitted.
pub(crate) proof fn own_row_admits(rows: Rows, path: Seq<char>, row: Record)
    ensures
        is_behind_link(rows.insert(path, row), path) == is_behind_link(rows, path),
{
    let more = rows.insert(path, row);
    if is_behind_link(more, path) {
        let p = choose|p: Seq<char>| #[trigger] is_live_link(more, p) && is_beneath(path, p);
        assert(is_live_link(rows, p));
    }
    if is_behind_link(rows, path) {
        let p = choose|p: Seq<char>| #[trigger] is_live_link(rows, p) && is_beneath(path, p);
        assert(is_live_link(more, p));
    }
}

/// Of two different versions one is below the other, and only one.
proof fn one_is_below(a: Record, b: Record)
    requires
        !same_version(a, b),
    ensures
        is_below(a, b) <==> !is_below(b, a),
{
    if a.hash != b.hash {
        one_is_before(a.hash, b.hash);
    } else {
        before_irreflexive(a.hash);
    }
}

/// Of two different texts one is before the other, and only one.
proof fn one_is_before(a: Seq<char>, b: Seq<char>)
    requires
        a != b,
    ensures
        before(a, b) <==> !before(b, a),
{
    before_total(a, b);
    if before(a, b) && before(b, a) {
        before_transitive(a, b, a);
        before_irreflexive(a);
    }
}

// ---- the index -----------------------------------------------------------------------------
/// A record changes no row but its own path's, and no row ever goes away.
pub proof fn record_touches_one_row(st: State, remote: Record, now: i64, path: Seq<char>)
    requires
        keyed(st.rows),
    ensures
        ({
            let after = state_after(st, incoming(st, remote, now).acts);
            &&& keyed(after.rows)
            &&& st.rows.contains_key(path) ==> after.rows.contains_key(path)
            &&& path != remote.path ==> after.rows.contains_key(path) == st.rows.contains_key(path)
            &&& path != remote.path ==> after.rows[path] == st.rows[path]
        }),
{
    rows_settle(st, remote, now);
}

/// The rows that an engine lists stand under their own paths.
pub proof fn listed_rows_are_keyed(rows: Rows, list: Seq<Record>)
    requires
        crate::index::lists(rows, list),
    ensures
        keyed(rows),
{
    assert forall|p: Seq<char>| #[trigger] rows.contains_key(p) implies rows[p].path == p by {
        let paths = crate::index::paths_of(list);
        assert(paths.contains(p));
        let i = paths.index_of(p);
        assert(list[i].path == p);
    }
}

/// Every row is one as an engine makes it.
pub open spec fn all_regular(rows: Rows) -> bool {
    forall|p: Seq<char>| #[trigger] rows.contains_key(p) ==> is_regular(rows[p])
}

/// Regular records leave regular rows: a tombstone never has content, a live row always has.
pub proof fn rows_stay_regular(
    st: State,
    remote: Record,
    path: Seq<char>,
    v: Version,
    now: i64,
)
    requires
        keyed(st.rows),
        all_regular(st.rows),
        is_regular(remote),
        v.hash.len() > 0,
    ensures
        all_regular(state_after(st, incoming(st, remote, now).acts).rows),
        all_regular(observed(st.rows, st.device_id, path, v, now)),
        keyed(observed(st.rows, st.device_id, path, v, now)),
        all_regular(st.rows.insert(path, tombstone(path, clock_at(st.rows, path), now))),
{
    rows_settle(st, remote, now);
    let after = state_after(st, incoming(st, remote, now).acts);
    assert forall|p: Seq<char>| #[trigger] after.rows.contains_key(p) implies is_regular(
        after.rows[p],
    ) by {
        if st.rows.contains_key(p) {
            assert(is_regular(st.rows[p]));
        }
        if st.rows.contains_key(remote.path) {
            assert(is_regular(st.rows[remote.path]));
        }
    }
}

/// No clock ever goes back, whatever a peer sends.
pub proof fn clocks_never_go_back(st: State, remote: Record, now: i64, path: Seq<char>)
    requires
        keyed(st.rows),
    ensures
        within(
            clock_at(st.rows, path),
            clock_at(state_after(st, incoming(st, remote, now).acts).rows, path),
        ),
{
    rows_settle(st, remote, now);
}

/// A file that was seen moves its path's clock forward if its version changed, and leaves every
/// row alone if it did not.
pub proof fn observing_moves_the_clock_once(
    rows: Rows,
    device: Seq<char>,
    path: Seq<char>,
    v: Version,
    now: i64,
    later: i64,
)
    requires
        count(clock_at(rows, path), device) < u64::MAX,
    ensures
        ({
            let once = observed(rows, device, path, v, now);
            &&& is_change(rows, path, v) ==> causality(
                clock_at(once, path),
                clock_at(rows, path),
            ) == Causality::After
            &&& !is_change(rows, path, v) ==> once == rows
            &&& !is_change(once, path, v)
            &&& observed(once, device, path, v, later) == once
        }),
{
    increment_is_after(clock_at(rows, path), device);
}

/// A change reaches every peer that had the version it was made on: the peer fetches it.
pub proof fn change_is_fetched_by_peers(
    rows: Rows,
    peer: Rows,
    device: Seq<char>,
    path: Seq<char>,
    v: Version,
    now: i64,
)
    requires
        is_change(rows, path, v),
        count(clock_at(rows, path), device) < u64::MAX,
        peer.contains_key(path) == rows.contains_key(path),
        rows.contains_key(path) ==> peer[path] == rows[path],
    ensures
        action(peer, observed(rows, device, path, v, now)[path]) == SyncAction::Fetch,
{
    increment_is_after(clock_at(rows, path), device);
}

/// A bare change of the permission bits is a change: the device's counter goes up by one, and a
/// peer that had the old version writes the file out with the new bits.
pub proof fn bare_chmod_propagates(
    rows: Rows,
    peer: State,
    device: Seq<char>,
    path: Seq<char>,
    mode: u32,
    made: i64,
    now: i64,
)
    requires
        is_live(rows, path),
        rows[path].mode != mode,
        count(rows[path].vclock, device) < u64::MAX,
        keyed(peer.rows),
        peer.rows.contains_key(path),
        peer.rows[path] == rows[path],
        is_admitted(peer.rows, path),
        holds(peer.shelves, rows[path].hash),
    ensures
        ({
            let was = rows[path];
            let v = Version { hash: was.hash, size: was.size, mode, link: was.link };
            let row = observed(rows, device, path, v, made)[path];
            let d = incoming(peer, row, now);
            &&& is_change(rows, path, v)
            &&& row.mode == mode
            &&& count(row.vclock, device) == count(was.vclock, device) + 1
            &&& d.result == Ok::<Outcome, crate::engine::Fault>(Outcome::Applied)
            &&& d.acts[0] == written(row, joined(peer.root, path))
            &&& state_after(peer, d.acts).rows[path].mode == mode
        }),
{
    let was = rows[path];
    let v = Version { hash: was.hash, size: was.size, mode, link: was.link };
    increment_is_after(was.vclock, device);
    rows_settle(peer, observed(rows, device, path, v, made)[path], now);
}

/// A link is recorded by its target alone: seeing it again with the same target is no change,
/// whatever the target leads to, and a regular file of the same bytes is another version.
pub proof fn links_are_recorded_by_target(
    rows: Rows,
    device: Seq<char>,
    path: Seq<char>,
    link: Found,
    again: Found,
    now: i64,
)
    requires
        link is Link,
        found_content(again) == found_content(link),
    ensures
        is_change(
            observed(rows, device, path, found_version(link), now),
            path,
            found_version(again),
        ) == (again is File),
{
}

/// A delete reaches every peer that had the deleted version: the peer deletes the file.
pub proof fn delete_reaches_peers(
    st: State,
    vclock: Counters,
    device: Seq<char>,
    path: Seq<char>,
    made: i64,
    now: i64,
)
    requires
        is_admitted(st.rows, path),
        is_live(st.rows, path),
        is_regular(st.rows[path]),
        keyed(st.rows),
        st.rows[path].vclock == vclock,
        count(vclock, device) < u64::MAX,
    ensures
        ({
            let d = incoming(st, tombstone(path, bumped(vclock, device), made), now);
            &&& d.result == Ok::<Outcome, crate::engine::Fault>(Outcome::Applied)
            &&& d.acts.len() == 2
            &&& d.acts[0] == (Act::Remove { path: joined(st.root, path) })
            &&& !is_live(state_after(st, d.acts).rows, path)
        }),
{
    increment_is_after(vclock, device);
    rows_settle(st, tombstone(path, bumped(vclock, device), made), now);
}

/// Two devices that change the same version independently are in conflict, unless they changed
/// it to the same version: a newer edit is told from a concurrent one.
pub proof fn independent_changes_conflict(
    rows: Rows,
    one: Seq<char>,
    two: Seq<char>,
    path: Seq<char>,
    mine: Version,
    theirs: Version,
    now: i64,
)
    requires
        one != two,
        mine.hash != theirs.hash || mine.mode != theirs.mode || mine.link != theirs.link,
        is_change(rows, path, mine),
        is_change(rows, path, theirs),
        count(clock_at(rows, path), one) < u64::MAX,
        count(clock_at(rows, path), two) < u64::MAX,
    ensures
        action(
            observed(rows, one, path, mine, now),
            observed(rows, two, path, theirs, now)[path],
        ) == SyncAction::Conflict,
{
    independent_edits_are_concurrent(clock_at(rows, path), two, one);
}

// ---- applying ------------------------------------------------------------------------------
/// Applying a record again does nothing.
pub proof fn applying_again_does_nothing(st: State, remote: Record, now: i64, later: i64)
    requires
        keyed(st.rows),
        incoming(st, remote, now).result is Ok,
    ensures
        ({
            let after = state_after(st, incoming(st, remote, now).acts);
            let again = incoming(after, remote, later);
            &&& again.acts.len() == 0
            &&& again.result == Ok::<Outcome, crate::engine::Fault>(Outcome::Skipped)
        }),
{
    rows_settle(st, remote, now);
    if let Some(row) = settled_row(st, remote, now) {
        own_row_admits(st.rows, remote.path, row);
    }
}

/// The watcher sees a file that was just materialized, and that changes nothing: sync does not
/// echo. The path is one as the watcher would name it.
pub proof fn echo_is_suppressed(st: State, remote: Record, now: i64, v: Version, later: i64)
    requires
        keyed(st.rows),
        st.root.len() > 0,
        incoming(st, remote, now).result is Ok,
        incoming(st, remote, now).acts.len() > 0,
        remote.path == replaced(
            crate::paths::trim_right(crate::paths::trim_left(remote.path), 0),
            '\\',
            '/',
        ),
        incoming(st, remote, now).acts[0] is Materialize,
        v.hash == incoming(st, remote, now).acts[0]->Materialize_hash,
        v.mode == incoming(st, remote, now).acts[0]->Materialize_mode,
        v.link == incoming(st, remote, now).acts[0]->Materialize_link,
    ensures
        ({
            let acts = incoming(st, remote, now).acts;
            let rows = rows_after(st.rows, acts);
            let abs = joined(st.root, remote.path);
            &&& acts[0]->Materialize_dest == abs
            &&& observed(
                rows,
                st.device_id,
                relative(st.root, abs),
                v,
                later,
            ) == rows
        }),
{
    rows_settle(st, remote, now);
    assert(remote.path[0] != '/') by {
        if remote.path[0] == '/' {
            assert(crate::paths::parts(remote.path)[0] == crate::paths::Part::Root);
        }
    }
    strip_undoes_join(st.root, remote.path);
}

/// Every step that writes a file has its content in the store.
pub proof fn written_content_is_there(st: State, remote: Record, now: i64, i: int)
    requires
        0 <= i < incoming(st, remote, now).acts.len(),
        incoming(st, remote, now).acts[i] is Materialize,
    ensures
        holds(st.shelves, incoming(st, remote, now).acts[i]->Materialize_hash),
{
}

/// A peer's record is refused, with no step, if its path leads out of the tree, or if it names
/// content and its path leads through a link that is on record. Every file that a step touches is
/// inside the synced tree or the directory for conflict copies, and behind no such link.
pub proof fn peers_stay_inside(st: State, remote: Record, now: i64, i: int)
    ensures
        !is_safe(remote.path) || (!remote.deleted && is_behind_link(st.rows, remote.path))
            ==> incoming(st, remote, now).result is Err && incoming(st, remote, now).acts.len()
            == 0,
        0 <= i < incoming(st, remote, now).acts.len() ==> match incoming(st, remote, now).acts[i] {
            Act::Materialize { hash: _, dest, mode: _, link: _ } => is_admitted(
                st.rows,
                remote.path,
            ) && (inside(st.root, dest) || inside(st.conflicts_dir, dest)),
            Act::Remove { path } => is_admitted(st.rows, remote.path) && inside(st.root, path),
            Act::Upsert(row) => is_safe(remote.path),
        },
{
    if is_safe(remote.path) {
        safe_path_stays_inside(st.root, remote.path);
        safe_path_stays_inside(st.conflicts_dir, remote.path);
    }
}

/// If the file of a path was what its row says, it is so after any record for it was applied. The
/// path is behind no link that is on record, or there is no file on record at it.
pub proof fn files_follow_the_index(st: State, tree: Tree, remote: Record, now: i64)
    requires
        keyed(st.rows),
        mirrors(st, tree, remote.path),
        is_behind_link(st.rows, remote.path) ==> !is_live(st.rows, remote.path),
        joined(st.conflicts_dir, remote.path) != joined(st.root, remote.path),
        incoming(st, remote, now).result is Ok,
    ensures
        ({
            let acts = incoming(st, remote, now).acts;
            mirrors(state_after(st, acts), tree_after(tree, st.shelves, acts), remote.path)
        }),
{
    rows_settle(st, remote, now);
    tree_settles(st, tree, remote, now);
    let acts = incoming(st, remote, now).acts;
    if acts.len() > 1 {
        assert(tree_after(tree, st.shelves, seq![acts[0]]) == match acts[0] {
            Act::Materialize { hash: _, dest, mode: _, link: _ } => tree.insert(
                    dest,
                    image_of(st.shelves, acts[0]),
                ),
            Act::Remove { path } => tree.remove(path),
            Act::Upsert(_) => tree,
        });
    }
}

/// Two concurrent edits are both kept: one at the path, the other in the directory for conflict
/// copies under the same path, and only the first is indexed.
pub proof fn concurrent_edits_keep_both(st: State, tree: Tree, remote: Record, now: i64)
    requires
        keyed(st.rows),
        is_admitted(st.rows, remote.path),
        is_live(st.rows, remote.path),
        !remote.deleted,
        !same_version(st.rows[remote.path], remote),
        causality(remote.vclock, st.rows[remote.path].vclock) == Causality::Concurrent,
        holds(st.shelves, remote.hash),
        holds(st.shelves, st.rows[remote.path].hash),
        joined(st.conflicts_dir, remote.path) != joined(st.root, remote.path),
    ensures
        ({
            let local = st.rows[remote.path];
            let d = incoming(st, remote, now);
            let after = tree_after(tree, st.shelves, d.acts);
            let abs = joined(st.root, remote.path);
            let copy = joined(st.conflicts_dir, remote.path);
            let won = winner(local, remote);
            let lost = loser(local, remote);
            &&& d.result == Ok::<Outcome, crate::engine::Fault>(Outcome::Conflicted { copy })
            &&& (won == local && lost == remote) || (won == remote && lost == local)
            &&& shows(st.shelves, won, after[abs])
            &&& shows(st.shelves, lost, after[copy])
            &&& after.contains_key(abs) && after.contains_key(copy)
            &&& state_after(st, d.acts).rows.dom() == st.rows.dom()
            &&& same_version(state_after(st, d.acts).rows[remote.path], won)
        }),
{
    rows_settle(st, remote, now);
    tree_settles(st, tree, remote, now);
    let d = incoming(st, remote, now);
    assert(d.acts.len() == 3);
    assert(tree_after(tree, st.shelves, seq![d.acts[0]]) == tree.insert(
        d.acts[0]->Materialize_dest,
        image_of(st.shelves, d.acts[0]),
    ));
    assert(state_after(st, d.acts).rows.dom() =~= st.rows.dom());
}

/// An edit survives a concurrent delete: no file is touched and the row stays live.
pub proof fn edit_survives_concurrent_delete(st: State, remote: Record, now: i64)
    requires
        keyed(st.rows),
        is_admitted(st.rows, remote.path),
        is_live(st.rows, remote.path),
        remote.deleted,
        !same_version(st.rows[remote.path], remote),
        causality(remote.vclock, st.rows[remote.path].vclock) == Causality::Concurrent,
    ensures
        ({
            let d = incoming(st, remote, now);
            let after = state_after(st, d.acts);
            &&& d.result == Ok::<Outcome, crate::engine::Fault>(Outcome::ConflictKeptLocal)
            &&& forall|i: int| 0 <= i < d.acts.len() ==> #[trigger] d.acts[i] is Upsert
            &&& is_live(after.rows, remote.path)
            &&& same_version(after.rows[remote.path], st.rows[remote.path])
        }),
{
    rows_settle(st, remote, now);
}

/// A concurrent edit brings a deleted file back.
pub proof fn edit_revives_deleted_file(st: State, remote: Record, now: i64)
    requires
        keyed(st.rows),
        is_admitted(st.rows, remote.path),
        st.rows.contains_key(remote.path),
        st.rows[remote.path].deleted,
        !remote.deleted,
        !same_version(st.rows[remote.path], remote),
        causality(remote.vclock, st.rows[remote.path].vclock) == Causality::Concurrent,
        holds(st.shelves, remote.hash),
    ensures
        ({
            let d = incoming(st, remote, now);
            let after = state_after(st, d.acts);
            &&& d.result == Ok::<Outcome, crate::engine::Fault>(Outcome::Applied)
            &&& d.acts[0] == written(remote, joined(st.root, remote.path))
            &&& is_live(after.rows, remote.path)
            &&& same_version(after.rows[remote.path], remote)
        }),
{
    rows_settle(st, remote, now);
}

// ---- two devices ---------------------------------------------------------------------------
/// The device can write out what the record names.
pub open spec fn can_take(st: State, r: Record) -> bool {
    r.deleted || holds(st.shelves, r.hash)
}

/// Two devices that have a path and exchange their records for it end up with the same version:
/// the same content or both without it and, where they had different content, the same clock.
/// Neither side needs to know what the other decided.
///
/// Left out are two versions with equal clocks and different content: of such a pair each device
/// keeps its own.
pub proof fn exchange_converges(
    a: State,
    b: State,
    path: Seq<char>,
    now_a: i64,
    now_b: i64,
)
    requires
        is_admitted(a.rows, path),
        is_admitted(b.rows, path),
        keyed(a.rows),
        keyed(b.rows),
        a.rows.contains_key(path),
        b.rows.contains_key(path),
        is_regular(a.rows[path]),
        is_regular(b.rows[path]),
        can_take(a, a.rows[path]),
        can_take(a, b.rows[path]),
        can_take(b, a.rows[path]),
        can_take(b, b.rows[path]),
        !same_version(a.rows[path], b.rows[path]) ==> causality(
            a.rows[path].vclock,
            b.rows[path].vclock,
        ) != Causality::Equal,
    ensures
        ({
            let da = incoming(a, b.rows[path], now_a);
            let db = incoming(b, a.rows[path], now_b);
            let ra = state_after(a, da.acts).rows[path];
            let rb = state_after(b, db.acts).rows[path];
            &&& da.result is Ok && db.result is Ok
            &&& same_version(ra, rb)
            &&& ra.deleted == rb.deleted
            &&& !same_version(a.rows[path], b.rows[path]) ==> ra.size == rb.size && same_counts(
                ra.vclock,
                rb.vclock,
            )
        }),
{
    let la = a.rows[path];
    let lb = b.rows[path];
    rows_settle(a, lb, now_a);
    rows_settle(b, la, now_b);
    compare_mirrors(la.vclock, lb.vclock);
    merge_commutes(la.vclock, lb.vclock);
    merge_dominates(la.vclock, lb.vclock);
    if la.deleted {
        assert(la.hash =~= Seq::<char>::empty());
    }
    if lb.deleted {
        assert(lb.hash =~= Seq::<char>::empty());
    }
    if !same_version(la, lb) {
        one_is_below(la, lb);
        if causality(lb.vclock, la.vclock) == Causality::After {
            crate::vclock::merge_is_least(la.vclock, lb.vclock, lb.vclock);
        } else if causality(lb.vclock, la.vclock) == Causality::Before {
            crate::vclock::merge_is_least(la.vclock, lb.vclock, la.vclock);
        }
    } else {
        if la.deleted {
            assert(lb.hash.len() == 0);
        }
    }
}

/// A device that has never seen a path takes it over as it is.
pub proof fn new_path_is_taken_over(st: State, remote: Record, now: i64)
    requires
        keyed(st.rows),
        is_admitted(st.rows, remote.path),
        !st.rows.contains_key(remote.path),
        is_regular(remote),
        can_take(st, remote),
    ensures
        ({
            let d = incoming(st, remote, now);
            &&& d.result == Ok::<Outcome, crate::engine::Fault>(Outcome::Applied)
            &&& state_after(st, d.acts).rows[remote.path] == (Record {
                updated_ms: now,
                ..remote
            })
        }),
{
    rows_settle(st, remote, now);
    if remote.deleted {
        assert(remote.hash =~= Seq::<char>::empty());
    }
}

// ---- what comes of a record ----------------------------------------------------------------
/// A file that a peer has and this device has not, or has in an earlier version, is written out
/// under its path as the record names it, and put on record with the clocks of both. Its content
/// has to be in the store.
pub proof fn later_file_is_written(st: State, r: Record, now: i64)
    requires
        is_safe(r.path),
        !is_behind_link(st.rows, r.path),
        !r.deleted,
        !st.rows.contains_key(r.path) || (causality(r.vclock, st.rows[r.path].vclock)
            == Causality::After && (st.rows[r.path].hash != r.hash || st.rows[r.path].mode != r.mode
            || st.rows[r.path].link != r.link)),
    ensures
        holds(st.shelves, r.hash) ==> {
            let d = incoming(st, r, now);
            &&& d.result == Ok::<Outcome, crate::engine::Fault>(Outcome::Applied)
            &&& d.acts.len() == 2
            &&& d.acts[0] == (Act::Materialize {
                hash: r.hash,
                dest: joined(st.root, r.path),
                mode: r.mode,
                link: r.link,
            })
            &&& d.acts[1] == Act::Upsert(
                Record {
                    path: r.path,
                    hash: r.hash,
                    size: r.size,
                    mode: r.mode,
                    link: r.link,
                    vclock: if st.rows.contains_key(r.path) {
                        crate::vclock::joined(r.vclock, st.rows[r.path].vclock)
                    } else {
                        r.vclock
                    },
                    updated_ms: now,
                    deleted: false,
                },
            )
        },
        !holds(st.shelves, r.hash) ==> {
            let d = incoming(st, r, now);
            &&& d.acts.len() == 0
            &&& d.result == Err::<Outcome, crate::engine::Fault>(
                crate::engine::Fault::ContentMissing { path: r.path, hash: r.hash },
            )
        },
{
    assert(is_safe(r.path) ==> r.path.len() > 0);
}

/// A delete that is later removes the file and leaves a tombstone with the clocks of both. Where
/// the path leads through a link, there is no file to remove.
pub proof fn later_delete_removes(st: State, r: Record, now: i64)
    requires
        is_safe(r.path),
        r.deleted,
        !st.rows.contains_key(r.path) || (causality(r.vclock, st.rows[r.path].vclock)
            == Causality::After && (st.rows[r.path].hash != r.hash || st.rows[r.path].mode != r.mode
            || st.rows[r.path].link != r.link)),
    ensures
        ({
            let d = incoming(st, r, now);
            let row = Record {
                path: r.path,
                hash: Seq::empty(),
                size: 0,
                mode: 0,
                link: false,
                vclock: if st.rows.contains_key(r.path) {
                    crate::vclock::joined(r.vclock, st.rows[r.path].vclock)
                } else {
                    r.vclock
                },
                updated_ms: now,
                deleted: true,
            };
            &&& d.result == Ok::<Outcome, crate::engine::Fault>(Outcome::Applied)
            &&& !is_behind_link(st.rows, r.path) ==> d.acts == seq![
                Act::Remove { path: joined(st.root, r.path) },
                Act::Upsert(row),
            ]
            &&& is_behind_link(st.rows, r.path) ==> d.acts == seq![Act::Upsert(row)]
        }),
{
}

/// A record that names the version on record, or is not later than it, does nothing.
pub proof fn known_record_does_nothing(st: State, r: Record, now: i64)
    requires
        is_safe(r.path),
        r.deleted || !is_behind_link(st.rows, r.path),
        st.rows.contains_key(r.path),
        (st.rows[r.path].hash == r.hash && st.rows[r.path].mode == r.mode && st.rows[r.path].link
            == r.link) || causality(r.vclock, st.rows[r.path].vclock) == Causality::Before
            || causality(r.vclock, st.rows[r.path].vclock) == Causality::Equal,
    ensures
        incoming(st, r, now).acts.len() == 0,
        incoming(st, r, now).result == Ok::<Outcome, crate::engine::Fault>(Outcome::Skipped),
{
}

/// Of two concurrent edits the greater version takes the path: the one with the greater digest or,
/// of the same content, the link rather than the file, then the greater permission bits. The other
/// is written beside the tree under the same path, and the row has the clocks of both.
pub proof fn greater_edit_takes_the_path(st: State, r: Record, now: i64)
    requires
        is_safe(r.path),
        !is_behind_link(st.rows, r.path),
        !r.deleted,
        st.rows.contains_key(r.path),
        !st.rows[r.path].deleted,
        st.rows[r.path].hash != r.hash || st.rows[r.path].mode != r.mode || st.rows[r.path].link
            != r.link,
        causality(r.vclock, st.rows[r.path].vclock) == Causality::Concurrent,
        holds(st.shelves, r.hash),
        holds(st.shelves, st.rows[r.path].hash),
    ensures
        ({
            let d = incoming(st, r, now);
            let local = st.rows[r.path];
            let theirs = if local.hash != r.hash {
                before(local.hash, r.hash)
            } else if local.link != r.link {
                r.link
            } else {
                local.mode < r.mode
            };
            let won = if theirs {
                r
            } else {
                local
            };
            let lost = if theirs {
                local
            } else {
                r
            };
            let copy = joined(st.conflicts_dir, r.path);
            &&& d.result == Ok::<Outcome, crate::engine::Fault>(Outcome::Conflicted { copy })
            &&& d.acts.len() == 3
            &&& d.acts[0] == (Act::Materialize {
                hash: won.hash,
                dest: joined(st.root, r.path),
                mode: won.mode,
                link: won.link,
            })
            &&& d.acts[1] == Act::Upsert(
                Record {
                    path: r.path,
                    hash: won.hash,
                    size: won.size,
                    mode: won.mode,
                    link: won.link,
                    vclock: crate::vclock::joined(r.vclock, local.vclock),
                    updated_ms: now,
                    deleted: false,
                },
            )
            &&& d.acts[2] == (Act::Materialize {
                hash: lost.hash,
                dest: copy,
                mode: lost.mode,
                link: lost.link,
            })
        }),
{
    before_irreflexive(r.hash);
}

/// Of an edit and a concurrent delete the edit stays: the peer's edit is written out where this
/// device deleted, and where the peer deleted only the clock of this device's file moves.
pub proof fn edit_outlives_a_concurrent_delete(st: State, r: Record, now: i64)
    requires
        is_safe(r.path),
        !is_behind_link(st.rows, r.path),
        st.rows.contains_key(r.path),
        st.rows[r.path].hash != r.hash || st.rows[r.path].mode != r.mode || st.rows[r.path].link
            != r.link,
        causality(r.vclock, st.rows[r.path].vclock) == Causality::Concurrent,
    ensures
        ({
            let d = incoming(st, r, now);
            let local = st.rows[r.path];
            let both = crate::vclock::joined(r.vclock, local.vclock);
            &&& local.deleted && !r.deleted && holds(st.shelves, r.hash) ==> {
                &&& d.result == Ok::<Outcome, crate::engine::Fault>(Outcome::Applied)
                &&& d.acts.len() == 2
                &&& d.acts[0] == (Act::Materialize {
                    hash: r.hash,
                    dest: joined(st.root, r.path),
                    mode: r.mode,
                    link: r.link,
                })
                &&& d.acts[1] == Act::Upsert(Record { vclock: both, updated_ms: now, ..r })
            }
            &&& r.deleted ==> {
                &&& d.acts.len() == 1
                &&& d.acts[0] == Act::Upsert(Record { vclock: both, updated_ms: now, ..local })
                &&& local.deleted ==> d.result == Ok::<Outcome, crate::engine::Fault>(
                    Outcome::Skipped,
                )
                &&& !local.deleted ==> d.result == Ok::<Outcome, crate::engine::Fault>(
                    Outcome::ConflictKeptLocal,
                )
            }
        }),
{
}

/// A record is refused for its path, or for the link that it leads through, with no step.
pub proof fn refused_record_does_nothing(st: State, r: Record, now: i64)
    ensures
        r.path.len() == 0 ==> incoming(st, r, now).result == Err::<Outcome, crate::engine::Fault>(
            crate::engine::Fault::EmptyPath,
        ),
        r.path.len() > 0 && !is_safe(r.path) ==> incoming(st, r, now).result == Err::<
            Outcome,
            crate::engine::Fault,
        >(crate::engine::Fault::UnsafePath { path: r.path }),
        is_safe(r.path) && !r.deleted && is_behind_link(st.rows, r.path) ==> incoming(
            st,
            r,
            now,
        ).result == Err::<Outcome, crate::engine::Fault>(
            crate::engine::Fault::BehindLink { path: r.path },
        ),
        incoming(st, r, now).result matches Err(f) && (f is EmptyPath || f is UnsafePath
            || f is BehindLink) ==> incoming(st, r, now).acts.len() == 0,
{
}

/// A path lies behind a link exactly if a path above it is on record as a link that was not
/// deleted.
pub proof fn links_are_on_record(rows: Rows, above: Seq<char>, name: Seq<char>)
    requires
        name.len() > 0,
        !name.contains('/'),
        name != seq!['.'],
    ensures
        rows.contains_key(above) && rows[above].link && !rows[above].deleted ==> is_behind_link(
            rows,
            above + seq!['/'] + name,
        ),
        is_behind_link(rows, name) ==> exists|p: Seq<char>|
            #![trigger rows.contains_key(p)]
            rows.contains_key(p) && rows[p].link && !rows[p].deleted && is_beneath(name, p),
        (forall|p: Seq<char>| #[trigger]
            rows.contains_key(p) ==> !rows[p].link || rows[p].deleted) ==> !is_behind_link(
            rows,
            above,
        ),
{
    let path = above + seq!['/'] + name;
    crate::paths::beneath_is_behind_a_slash(above, name, path);
    if rows.contains_key(above) && rows[above].link && !rows[above].deleted {
        assert(is_live_link(rows, above) && is_beneath(path, above));
    }
    if is_behind_link(rows, name) {
        let p = choose|p: Seq<char>| #[trigger] is_live_link(rows, p) && is_beneath(name, p);
        assert(rows.contains_key(p));
    }
    if is_behind_link(rows, above) {
        let p = choose|p: Seq<char>| #[trigger] is_live_link(rows, p) && is_beneath(above, p);
        assert(rows.contains_key(p));
    }
}

} // verus!
