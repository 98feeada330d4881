//! The decisions of the stand-alone file watcher, which only keeps the local index.

use crate::daemon::{three, PathKind};
use crate::engine::Observation;
use crate::ignores::{in_built_in, is_ignored};
use crate::paths::{file_name, name_of};
use crate::text::{chars_of, decimal, same, text_of, to_decimal};
use vstd::prelude::*;

verus! {

/// Lockfiles whose change should drive a (future, sandboxed) install. Lockfiles rather than
/// package manifests, so that installs run against a fully-resolved dependency set.
pub const MANIFESTS: [&'static str; 6] = [
    "package-lock.json",
    "pnpm-lock.yaml",
    "yarn.lock",
    "Cargo.lock",
    "poetry.lock",
    "requirements.txt",
];

/// The names of the lockfiles.
pub open spec fn lockfiles() -> Seq<Seq<char>> {
    Seq::new(MANIFESTS@.len(), |i: int| MANIFESTS@[i]@)
}

/// The path ends in the name of a lockfile.
pub open spec fn is_lockfile(path: Seq<char>) -> bool {
    name_of(path) matches Some(n) && lockfiles().contains(n)
}

/// Whether the path ends in the name of a lockfile.
pub fn is_manifest(path: &str) -> (r: bool)
    ensures
        r == is_lockfile(path@),
{
    let name = match file_name(path) {
        Some(n) => n,
        None => {
            return false;
        },
    };
    let names = MANIFESTS;
    let mut i: usize = 0;
    while i < names.len()
        invariant
            i <= names@.len(),
            names@.len() == lockfiles().len(),
            forall|j: int| 0 <= j < names@.len() ==> (#[trigger] names@[j])@ == lockfiles()[j],
            forall|j: int| 0 <= j < i ==> #[trigger] lockfiles()[j] != name@,
            name_of(path@) == Some(name@),
        decreases names@.len() - i,
    {
        if same(names[i], name.as_str()) {
            proof {
                assert(lockfiles()[i as int] == name@);
            }
            return true;
        }
        i += 1;
    }
    false
}

/// What a watch event means.
#[derive(Debug, PartialEq, Eq, Clone, Copy, Structural)]
pub enum WatchEvent {
    /// The path is never synced.
    Ignored,
    /// A lockfile changed: an install would be scheduled (never run from here).
    Lockfile,
    /// Deleted, or neither a regular file nor a link.
    NotAFile,
    /// The file or link is to be observed.
    Observe,
}

/// What an event on a path means.
pub fn watch_event(path: &str, kind: PathKind) -> (r: WatchEvent)
    ensures
        r == if in_built_in(path@) {
            WatchEvent::Ignored
        } else if is_lockfile(path@) {
            WatchEvent::Lockfile
        } else if kind == PathKind::File || kind == PathKind::Link {
            WatchEvent::Observe
        } else {
            WatchEvent::NotAFile
        },
{
    if is_ignored(path) {
        WatchEvent::Ignored
    } else if is_manifest(path) {
        WatchEvent::Lockfile
    } else {
        match kind {
            PathKind::File | PathKind::Link => WatchEvent::Observe,
            _ => WatchEvent::NotAFile,
        }
    }
}

/// The first 16 characters of a hash, or all of it.
pub open spec fn shortened(hash: Seq<char>) -> Seq<char> {
    if hash.len() > 16 {
        hash.take(16)
    } else {
        hash
    }
}

/// What is said of a file that was observed.
pub fn observe_notice(obs: &Observation) -> (r: String)
    ensures
        r@ == if obs.changed {
            "indexed:   "@ + obs.path@ + (" hash="@ + shortened(obs.hash@) + (" size="@ + decimal(
                obs.size as nat,
            ) + ""@))
        } else {
            "unchanged: "@ + obs.path@ + (" ("@ + shortened(obs.hash@) + ")"@)
        },
{
    let v = chars_of(obs.hash.as_str());
    let n: usize = if v.len() > 16 {
        16
    } else {
        v.len()
    };
    let short = text_of(&v, 0, n);
    proof {
        assert(short@ =~= shortened(obs.hash@));
    }
    if obs.changed {
        let size = to_decimal(obs.size as u128);
        let size = three(" size=", size.as_str(), "");
        let tail = three(" hash=", short.as_str(), size.as_str());
        three("indexed:   ", obs.path.as_str(), tail.as_str())
    } else {
        let tail = three(" (", short.as_str(), ")");
        three("unchanged: ", obs.path.as_str(), tail.as_str())
    }
}

// ---- laws ----------------------------------------------------------------------------------
/// The lockfiles that a change of would drive an install.
pub proof fn lockfiles_are()
    ensures
        lockfiles() == seq![
            "package-lock.json"@,
            "pnpm-lock.yaml"@,
            "yarn.lock"@,
            "Cargo.lock"@,
            "poetry.lock"@,
            "requirements.txt"@,
        ],
{
    assert(lockfiles() =~= seq![
        "package-lock.json"@,
        "pnpm-lock.yaml"@,
        "yarn.lock"@,
        "Cargo.lock"@,
        "poetry.lock"@,
        "requirements.txt"@,
    ]);
}

/// A path is a lockfile's exactly if the name behind its last slash is a lockfile's.
pub proof fn lockfiles_go_by_name(dir: Seq<char>, name: Seq<char>)
    requires
        name.len() > 0,
        !name.contains('/'),
        name != seq!['.'],
        name != seq!['.', '.'],
    ensures
        is_lockfile(name) <==> lockfiles().contains(name),
        is_lockfile(dir + seq!['/'] + name) <==> lockfiles().contains(name),
{
    crate::paths::name_is_behind_the_last_slash(dir, name);
}

/// Of a hash the first 16 characters are shown, or all of it if it has no more.
pub proof fn hashes_are_shortened(hash: Seq<char>, i: int)
    ensures
        hash.len() <= 16 ==> shortened(hash) == hash,
        hash.len() > 16 ==> shortened(hash).len() == 16,
        0 <= i < 16 && i < hash.len() ==> shortened(hash)[i] == hash[i],
{
}

} // verus!
