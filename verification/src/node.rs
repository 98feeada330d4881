//! The sync protocol between two nodes, as a state machine: one side asks, the other answers.
//!
//! A pull asks for the peer's index and takes over what supersedes the local state. A push names
//! one record, and the receiver takes it over in the same way, fetching the chunks that it lacks
//! from the sender. Whoever runs a [`Pull`] sends each request that it asks for, hands back the
//! response, performs the steps that it gives out, and tells it when they are done.

use crate::convergence::keyed;
use crate::engine::{
    action, incoming, is_admitted, is_blocked, is_live, same_version, state_after, written, Act,
    ApplyOutcome, Engine, EngineError, Fault, Outcome, State, Step, SyncAction,
};
use crate::fetch::{
    agree, asks, begun, came_over, can_receive, fed, genuine_content_stays, honest_peer_delivers,
    keeps, offers, served, talked, Blame, Fetch, FetchError, Fetched, Move, Progress, Turn,
};
use crate::index::{
    is_behind_link, is_live_link, lists, paths_of, records_of, FileRecord, Record, Rows,
};
use crate::paths::{is_beneath, is_safe};
use crate::proto::{Ask, Reply, Req, Resp};
use crate::store::{chunks_of, content, holds, is_genuine, well_named, Shelves};
use crate::text::before;
use vstd::prelude::*;

verus! {

// ---- statistics ----------------------------------------------------------------------------
/// What a pull did, for logging and tests.
#[derive(Debug, PartialEq, Eq, Clone, Copy, Structural)]
pub struct SyncStats {
    pub total: usize,
    pub fetched: usize,
    pub skipped: usize,
    pub conflicts: usize,
}

impl Default for SyncStats {
    fn default() -> (r: SyncStats)
        ensures
            r == (SyncStats { total: 0, fetched: 0, skipped: 0, conflicts: 0 }),
    {
        SyncStats { total: 0, fetched: 0, skipped: 0, conflicts: 0 }
    }
}

/// How many records a pull has accounted for.
pub open spec fn accounted(s: SyncStats) -> int {
    s.fetched + s.skipped + s.conflicts
}

/// The counter that an outcome goes to.
pub open spec fn counter(s: SyncStats, outcome: Outcome) -> usize {
    match outcome {
        Outcome::Skipped => s.skipped,
        Outcome::Applied => s.fetched,
        _ => s.conflicts,
    }
}

/// The statistics with an outcome counted in.
pub open spec fn tallied(s: SyncStats, outcome: Outcome) -> SyncStats {
    match outcome {
        Outcome::Skipped => SyncStats { skipped: (s.skipped + 1) as usize, ..s },
        Outcome::Applied => SyncStats { fetched: (s.fetched + 1) as usize, ..s },
        _ => SyncStats { conflicts: (s.conflicts + 1) as usize, ..s },
    }
}

/// Fold an apply outcome into the running sync stats.
pub fn tally(stats: &mut SyncStats, outcome: &ApplyOutcome)
    requires
        counter(*old(stats), outcome@) < usize::MAX,
    ensures
        *final(stats) == tallied(*old(stats), outcome@),
        final(stats).total == old(stats).total,
        final(stats).skipped == old(stats).skipped + (if outcome is Skipped {
            1int
        } else {
            0
        }),
        final(stats).fetched == old(stats).fetched + (if outcome is Applied {
            1int
        } else {
            0
        }),
        final(stats).conflicts == old(stats).conflicts + (if outcome is ConflictKeptLocal
            || outcome is Conflicted {
            1int
        } else {
            0
        }),
        accounted(*final(stats)) == accounted(*old(stats)) + 1,
{
    match outcome {
        ApplyOutcome::Skipped => {
            stats.skipped = stats.skipped + 1;
        },
        ApplyOutcome::Applied => {
            stats.fetched = stats.fetched + 1;
        },
        ApplyOutcome::ConflictKeptLocal => {
            stats.conflicts = stats.conflicts + 1;
        },
        ApplyOutcome::Conflicted { copy: _ } => {
            stats.conflicts = stats.conflicts + 1;
        },
    }
}

// ---- serving -------------------------------------------------------------------------------
/// What a request leads to.
#[derive(Debug)]
pub enum Served {
    /// The response to send.
    Answer(Resp),
    /// The record that the peer pushed; it is taken over by [`Pull::of_push`].
    Take(FileRecord),
}

/// Deal with a peer's request. Only what is in the index and the store is told.
pub fn respond(engine: &Engine, req: Req) -> (r: Served)
    ensures
        match req@ {
            Ask::Index => r matches Served::Answer(resp) && (resp@ matches Reply::Index { records }
                && lists(engine@.rows, records)),
            Ask::Push { record } => r matches Served::Take(rec) && rec@ == record,
            ask => r matches Served::Answer(resp) && resp@ == served(
                engine@.shelves,
                ask,
            ),
        },
        req@ matches Ask::Manifest { hash } ==> (r matches Served::Answer(resp) && (
        if engine@.shelves.manifests.contains_key(hash) {
            resp@ == (Reply::Manifest { chunks: chunks_of(engine@.shelves, hash) })
        } else {
            resp@ is NotFound
        })),
        req@ matches Ask::Chunk { hash } ==> (r matches Served::Answer(resp) && (
        if engine@.shelves.objects.contains_key(hash) {
            resp@ == (Reply::Chunk { bytes: engine@.shelves.objects[hash] })
        } else {
            resp@ is NotFound
        })),
{
    match req {
        Req::Index => Served::Answer(Resp::Index { records: engine.local_records() }),
        Req::Manifest { hash } => match engine.store().get_manifest(hash.as_str()) {
            Some(chunks) => Served::Answer(Resp::Manifest { chunks }),
            None => Served::Answer(Resp::NotFound),
        },
        Req::Chunk { hash } => match engine.store().read_chunk(hash.as_str()) {
            Some(bytes) => Served::Answer(Resp::Chunk { bytes }),
            None => Served::Answer(Resp::NotFound),
        },
        Req::Push { record } => Served::Take(record),
    }
}

// ---- pulling: model ------------------------------------------------------------------------
/// Where a pull stands.
pub enum Stage {
    /// The peer's index was asked for.
    Index,
    /// The content of the record at hand is being fetched.
    Content(Seq<char>, Progress),
    /// The steps for the record at hand are being performed.
    Files(Outcome),
    /// It is over.
    Over,
}

/// Why a pull ended early.
pub enum Trouble {
    /// The peer's answer to the request for its index was something else.
    NotAnIndex,
    /// The peer sent content that is not what it was asked for.
    Fetch(Blame),
    /// The record was refused, or its content is not there.
    Apply(Fault),
    /// What was handed in is not what the pull was waiting for.
    OutOfTurn,
}

/// What is to happen next.
pub enum Next {
    Ask(Ask),
    Perform(Seq<Act>),
    Done,
    Failed { acts: Seq<Act>, trouble: Trouble },
}

/// What a pull holds.
pub struct Course {
    pub stage: Stage,
    pub records: Seq<Record>,
    pub at: int,
    pub stats: SyncStats,
}

/// A turn of a pull: what it holds, what the engine holds, and what is to happen next.
pub struct Taken {
    pub course: Course,
    pub engine: State,
    pub next: Next,
}

/// The record has something new and can be taken over. One whose path leads through a link that
/// is on record is passed over, so that it does not keep the others back.
pub open spec fn is_wanted(rows: Rows, r: Record) -> bool {
    action(rows, r) != SyncAction::Skip && !is_blocked(rows, r)
}

/// How many records, from `from` up to `to`, have nothing new.
pub open spec fn skips(rows: Rows, records: Seq<Record>, from: int, to: int) -> int
    decreases to - from,
{
    if from >= to {
        0
    } else if action(rows, records[to - 1]) == SyncAction::Skip {
        skips(rows, records, from, to - 1) + 1
    } else {
        skips(rows, records, from, to - 1)
    }
}

/// The first record, from `from` on, that is wanted.
pub open spec fn first_wanted(rows: Rows, records: Seq<Record>, from: int) -> int
    decreases records.len() - from,
{
    if from >= records.len() {
        records.len() as int
    } else if is_wanted(rows, records[from]) {
        from
    } else {
        first_wanted(rows, records, from + 1)
    }
}

/// The record at hand is applied, now that its content is there.
pub open spec fn applied(c: Course, st: State, now: i64) -> Taken {
    let dealt = incoming(st, c.records[c.at], now);
    let engine = state_after(st, dealt.acts);
    match dealt.result {
        Ok(outcome) => Taken {
            course: Course { stage: Stage::Files(outcome), ..c },
            engine,
            next: Next::Perform(dealt.acts),
        },
        Err(fault) => Taken {
            course: Course { stage: Stage::Over, ..c },
            engine,
            next: Next::Failed { acts: dealt.acts, trouble: Trouble::Apply(fault) },
        },
    }
}

/// The pull at the next wanted record; what is there already is counted as skipped.
pub open spec fn at_wanted(c: Course, st: State) -> Course {
    let at = first_wanted(st.rows, c.records, c.at);
    let more = skips(st.rows, c.records, c.at, at);
    Course {
        at,
        stats: SyncStats { skipped: (c.stats.skipped + more) as usize, ..c.stats },
        ..c
    }
}

/// On with the records: the content of the next wanted one is got.
pub open spec fn advanced(c: Course, st: State, now: i64) -> Taken {
    let c = at_wanted(c, st);
    let at = c.at;
    if at >= c.records.len() {
        Taken { course: Course { stage: Stage::Over, ..c }, engine: st, next: Next::Done }
    } else {
        let rec = c.records[at];
        let f = begun(st.shelves, rec);
        got(c, State { shelves: f.shelves, ..st }, rec.hash, f, now)
    }
}

/// On with the record at hand, after a turn of getting its content.
pub open spec fn got(c: Course, st: State, hash: Seq<char>, f: Fetched, now: i64) -> Taken {
    match f.next {
        Move::Ask(ask) => Taken {
            course: Course { stage: Stage::Content(hash, f.progress), ..c },
            engine: st,
            next: Next::Ask(ask),
        },
        Move::Refused(blame) => Taken {
            course: Course { stage: Stage::Over, ..c },
            engine: st,
            next: Next::Failed { acts: Seq::empty(), trouble: Trouble::Fetch(blame) },
        },
        _ => applied(c, st, now),
    }
}

/// What a peer's response leads to.
pub open spec fn answered(c: Course, st: State, reply: Reply, now: i64) -> Taken {
    match (c.stage, reply) {
        (Stage::Index, Reply::Index { records }) => advanced(
            Course {
                stage: Stage::Over,
                records,
                at: 0,
                stats: SyncStats {
                    total: records.len() as usize,
                    fetched: 0,
                    skipped: 0,
                    conflicts: 0,
                },
            },
            st,
            now,
        ),
        (Stage::Index, _) => Taken {
            course: Course { stage: Stage::Over, ..c },
            engine: st,
            next: Next::Failed { acts: Seq::empty(), trouble: Trouble::NotAnIndex },
        },
        (Stage::Content(hash, progress), _) => {
            let f = fed(st.shelves, hash, progress, reply);
            let after = State { shelves: f.shelves, ..st };
            if f.next is Absent {
                advanced(Course { stage: Stage::Over, at: c.at + 1, ..c }, after, now)
            } else {
                got(c, after, hash, f, now)
            }
        },
        _ => Taken {
            course: Course { stage: Stage::Over, ..c },
            engine: st,
            next: Next::Failed { acts: Seq::empty(), trouble: Trouble::OutOfTurn },
        },
    }
}

/// What it leads to that the steps were performed.
pub open spec fn performed(c: Course, st: State, now: i64) -> Taken {
    match c.stage {
        Stage::Files(outcome) => advanced(
            Course { stage: Stage::Over, at: c.at + 1, stats: tallied(c.stats, outcome), ..c },
            st,
            now,
        ),
        _ => Taken {
            course: Course { stage: Stage::Over, ..c },
            engine: st,
            next: Next::Failed { acts: Seq::empty(), trouble: Trouble::OutOfTurn },
        },
    }
}

/// The first turn of taking over one record that was pushed.
pub open spec fn pushed(record: Record, st: State, now: i64) -> Taken {
    advanced(
        Course {
            stage: Stage::Over,
            records: seq![record],
            at: 0,
            stats: SyncStats { total: 1, fetched: 0, skipped: 0, conflicts: 0 },
        },
        st,
        now,
    )
}

// ---- pulling -------------------------------------------------------------------------------
/// Why a pull ended early.
#[derive(Debug, PartialEq, Eq)]
pub enum PullError {
    NotAnIndex,
    Fetch(FetchError),
    Apply(EngineError),
    OutOfTurn,
}

impl View for PullError {
    type V = Trouble;

    open spec fn view(&self) -> Trouble {
        match *self {
            PullError::NotAnIndex => Trouble::NotAnIndex,
            PullError::Fetch(e) => Trouble::Fetch(e@),
            PullError::Apply(e) => Trouble::Apply(e@),
            PullError::OutOfTurn => Trouble::OutOfTurn,
        }
    }
}

/// What is to happen next.
#[derive(Debug)]
pub enum PullTurn {
    /// Send the request, and hand the response to [`Pull::answer`].
    Ask(Req),
    /// Perform the steps, and call [`Pull::done`].
    Perform(Vec<Step>),
    /// All records were dealt with.
    Done,
    /// It ended early; the steps that come before the failure are still to be performed.
    Failed { steps: Vec<Step>, error: PullError },
}

/// A turn says what is described.
pub open spec fn says(turn: PullTurn, next: Next) -> bool {
    match turn {
        PullTurn::Ask(req) => next == Next::Ask(req@),
        PullTurn::Perform(steps) => next == Next::Perform(crate::engine::acts_of(steps@)),
        PullTurn::Done => next is Done,
        PullTurn::Failed { steps, error } => next == (Next::Failed {
            acts: crate::engine::acts_of(steps@),
            trouble: error@,
        }),
    }
}

/// Where a pull stands.
#[derive(Debug)]
enum Standing {
    Index,
    Content(Fetch),
    Files(ApplyOutcome),
    Over,
}

/// A pull over one connection, or the taking over of one pushed record.
#[derive(Debug)]
pub struct Pull {
    standing: Standing,
    records: Vec<FileRecord>,
    at: usize,
    stats: SyncStats,
}

impl View for Pull {
    type V = Course;

    closed spec fn view(&self) -> Course {
        Course {
            stage: match self.standing {
                Standing::Index => Stage::Index,
                Standing::Content(f) => Stage::Content(f.hash(), f.progress()),
                Standing::Files(outcome) => Stage::Files(outcome@),
                Standing::Over => Stage::Over,
            },
            records: records_of(self.records@),
            at: self.at as int,
            stats: self.stats,
        }
    }
}

impl Pull {
    /// No record is accounted for twice, and one is at hand while it is being dealt with.
    #[verifier::type_invariant]
    spec fn counted(self) -> bool {
        &&& self.at <= self.records@.len()
        &&& self.stats.total == self.records@.len()
        &&& accounted(self.stats) <= self.at
        &&& (self.standing is Content || self.standing is Files) ==> self.at < self.records@.len()
    }

    /// A pull from a peer: it begins with the request for the peer's index.
    pub fn start() -> (r: (Pull, Req))
        ensures
            r.0@.stage is Index,
            r.0@.records.len() == 0,
            r.0@.at == 0,
            r.0@.stats == (SyncStats { total: 0, fetched: 0, skipped: 0, conflicts: 0 }),
            r.1@ == Ask::Index,
    {
        let records: Vec<FileRecord> = Vec::new();
        (Pull { standing: Standing::Index, records, at: 0, stats: SyncStats::default() }, Req::Index)
    }

    /// The taking over of a record that a peer pushed.
    pub fn of_push(engine: &mut Engine, record: FileRecord, now: i64) -> (r: (Pull, PullTurn))
        ensures
            ({
                let t = pushed(record@, old(engine)@, now);
                &&& r.0@ == t.course
                &&& final(engine)@ == t.engine
                &&& says(r.1, t.next)
            }),
    {
        let ghost rec = record@;
        let mut records: Vec<FileRecord> = Vec::new();
        records.push(record);
        proof {
            assert(records_of(records@) =~= seq![rec]);
        }
        let stats = SyncStats { total: 1, fetched: 0, skipped: 0, conflicts: 0 };
        let pull = Pull { standing: Standing::Over, records, at: 0, stats };
        pull.advance(engine, now)
    }

    /// Takes the peer's response in.
    pub fn answer(self, engine: &mut Engine, resp: Resp, now: i64) -> (r: (Pull, PullTurn))
        ensures
            ({
                let t = answered(self@, old(engine)@, resp@, now);
                &&& r.0@ == t.course
                &&& final(engine)@ == t.engine
                &&& says(r.1, t.next)
            }),
    {
        proof {
            use_type_invariant(&self);
        }
        let at = self.at;
        let stats = self.stats;
        match self.standing {
            Standing::Index => match resp {
                Resp::Index { records } => {
                    let total = records.len();
                    let stats = SyncStats { total, fetched: 0, skipped: 0, conflicts: 0 };
                    let pull = Pull { standing: Standing::Over, records, at: 0, stats };
                    pull.advance(engine, now)
                },
                _ => ended(self.records, at, stats, PullError::NotAnIndex),
            },
            Standing::Content(fetch) => {
                let (fetch, turn) = fetch.feed(engine.store_mut(), resp);
                match turn {
                    Turn::Absent => {
                        let pull = Pull {
                            standing: Standing::Over,
                            records: self.records,
                            at: at + 1,
                            stats,
                        };
                        pull.advance(engine, now)
                    },
                    turn => {
                        let pull = Pull {
                            standing: Standing::Over,
                            records: self.records,
                            at,
                            stats,
                        };
                        pull.take(engine, fetch, turn, now)
                    },
                }
            },
            _ => ended(self.records, at, stats, PullError::OutOfTurn),
        }
    }

    /// The steps were performed.
    pub fn done(self, engine: &mut Engine, now: i64) -> (r: (Pull, PullTurn))
        ensures
            ({
                let t = performed(self@, old(engine)@, now);
                &&& r.0@ == t.course
                &&& final(engine)@ == t.engine
                &&& says(r.1, t.next)
            }),
    {
        proof {
            use_type_invariant(&self);
        }
        match self.standing {
            Standing::Files(outcome) => {
                let mut stats = self.stats;
                tally(&mut stats, &outcome);
                let pull = Pull {
                    standing: Standing::Over,
                    records: self.records,
                    at: self.at + 1,
                    stats,
                };
                pull.advance(engine, now)
            },
            _ => ended(self.records, self.at, self.stats, PullError::OutOfTurn),
        }
    }

    /// What the pull did so far.
    pub fn stats(&self) -> (r: SyncStats)
        ensures
            r == self@.stats,
            r.total == self@.records.len(),
            accounted(r) <= r.total,
    {
        proof {
            use_type_invariant(self);
        }
        self.stats
    }

    /// The record that is being dealt with, if there is one.
    pub fn at_hand(&self) -> (r: Option<&FileRecord>)
        ensures
            match r {
                Some(record) => (self@.stage is Content || self@.stage is Files) && record@
                    == self@.records[self@.at],
                None => self@.stage is Index || self@.stage is Over,
            },
    {
        proof {
            use_type_invariant(self);
        }
        match &self.standing {
            Standing::Index => None,
            Standing::Over => None,
            _ => {
                proof {
                    assert(records_of(self.records@)[self.at as int] == self.records@[self.at
                        as int]@);
                }
                Some(&self.records[self.at])
            },
        }
    }

    /// What came of the record at hand, while its steps are being performed.
    pub fn outcome(&self) -> (r: Option<&ApplyOutcome>)
        ensures
            match r {
                Some(outcome) => self@.stage == Stage::Files(outcome@),
                None => !(self@.stage is Files),
            },
    {
        match &self.standing {
            Standing::Files(outcome) => Some(outcome),
            _ => None,
        }
    }

    /// The response to a push, once the pull that took it over is done: an acknowledgement if the
    /// record was dealt with, and that its content was not found if it was not.
    pub fn acknowledgement(&self) -> (r: Resp)
        ensures
            r@ == if accounted(self@.stats) > 0 {
                Reply::Ack
            } else {
                Reply::NotFound
            },
            r is Ack || r is NotFound,
            r is Ack <==> self@.stats.fetched > 0 || self@.stats.skipped > 0
                || self@.stats.conflicts > 0,
    {
        proof {
            use_type_invariant(self);
        }
        if self.stats.fetched > 0 || self.stats.skipped > 0 || self.stats.conflicts > 0 {
            Resp::Ack
        } else {
            Resp::NotFound
        }
    }

    /// On with the records.
    fn advance(self, engine: &mut Engine, now: i64) -> (r: (Pull, PullTurn))
        requires
            self.standing is Over,
        ensures
            ({
                let t = advanced(self@, old(engine)@, now);
                &&& r.0@ == t.course
                &&& final(engine)@ == t.engine
                &&& says(r.1, t.next)
            }),
    {
        proof {
            use_type_invariant(&self);
        }
        let ghost was = engine@;
        let ghost course = self@;
        let records = self.records;
        let mut at: usize = self.at;
        let mut stats = self.stats;
        let ghost list = records_of(records@);
        while at < records.len() && !wants(engine, &records[at])
            invariant
                course.at <= at <= records@.len(),
                list == records_of(records@),
                engine@ == was,
                stats == (SyncStats {
                    skipped: (course.stats.skipped + skips(
                        was.rows,
                        list,
                        course.at,
                        at as int,
                    )) as usize,
                    ..course.stats
                }),
                stats.total == records@.len(),
                0 <= skips(was.rows, list, course.at, at as int),
                course.stats.skipped + skips(was.rows, list, course.at, at as int) <= usize::MAX,
                accounted(stats) <= at,
                first_wanted(was.rows, list, course.at) == first_wanted(
                    was.rows,
                    list,
                    at as int,
                ),
            decreases records@.len() - at,
        {
            proof {
                assert(list[at as int] == records@[at as int]@);
            }
            if engine.evaluate(&records[at]) == SyncAction::Skip {
                stats.skipped = stats.skipped + 1;
            }
            at += 1;
        }
        if at >= records.len() {
            return (Pull { standing: Standing::Over, records, at, stats }, PullTurn::Done);
        }
        proof {
            assert(list[at as int] == records@[at as int]@);
        }
        let (fetch, turn) = Fetch::start(engine.store_mut(), &records[at]);
        let pull = Pull { standing: Standing::Over, records, at, stats };
        pull.take(engine, fetch, turn, now)
    }

    /// On with the record at hand, after a turn of getting its content.
    fn take(self, engine: &mut Engine, fetch: Fetch, turn: Turn, now: i64) -> (r: (Pull, PullTurn))
        requires
            self.standing is Over,
            self.at < self.records@.len(),
            turn@ is Ask || turn@ is Ready || turn@ is Refused,
        ensures
            ({
                let f = Fetched {
                    shelves: old(engine)@.shelves,
                    progress: fetch.progress(),
                    next: turn@,
                };
                let t = got(self@, old(engine)@, fetch.hash(), f, now);
                &&& r.0@ == t.course
                &&& final(engine)@ == t.engine
                &&& says(r.1, t.next)
            }),
    {
        proof {
            use_type_invariant(&self);
        }
        let records = self.records;
        let at = self.at;
        let stats = self.stats;
        match turn {
            Turn::Ask(req) => {
                let pull = Pull { standing: Standing::Content(fetch), records, at, stats };
                (pull, PullTurn::Ask(req))
            },
            Turn::Refused(e) => ended(records, at, stats, PullError::Fetch(e)),
            _ => {
                proof {
                    assert(records_of(records@)[at as int] == records@[at as int]@);
                }
                match engine.apply_incoming(&records[at], now) {
                    Ok(plan) => {
                        let pull = Pull {
                            standing: Standing::Files(plan.outcome),
                            records,
                            at,
                            stats,
                        };
                        (pull, PullTurn::Perform(plan.steps))
                    },
                    Err(failure) => {
                        let pull = Pull { standing: Standing::Over, records, at, stats };
                        let error = PullError::Apply(failure.error);
                        (pull, PullTurn::Failed { steps: failure.steps, error })
                    },
                }
            },
        }
    }
}

/// Whether a record has something new and can be taken over.
fn wants(engine: &Engine, record: &FileRecord) -> (r: bool)
    ensures
        r == is_wanted(engine@.rows, record@),
{
    engine.evaluate(record) != SyncAction::Skip && !engine.is_blocked(record)
}

/// A pull that ends early, with no step to perform.
fn ended(records: Vec<FileRecord>, at: usize, stats: SyncStats, error: PullError) -> (r: (
    Pull,
    PullTurn,
))
    requires
        at <= records@.len(),
        stats.total == records@.len(),
        accounted(stats) <= at,
    ensures
        r.0@ == (Course {
            stage: Stage::Over,
            records: records_of(records@),
            at: at as int,
            stats,
        }),
        says(r.1, Next::Failed { acts: Seq::empty(), trouble: error@ }),
{
    let steps: Vec<Step> = Vec::new();
    proof {
        assert(crate::engine::acts_of(steps@) =~= Seq::<Act>::empty());
    }
    (Pull { standing: Standing::Over, records, at, stats }, PullTurn::Failed { steps, error })
}

// ---- laws ----------------------------------------------------------------------------------
proof fn all_skipped(rows: Rows, records: Seq<Record>, from: int)
    requires
        0 <= from <= records.len(),
        forall|i: int|
            0 <= i < records.len() ==> action(rows, #[trigger] records[i]) == SyncAction::Skip,
    ensures
        first_wanted(rows, records, from) == records.len(),
        skips(rows, records, from, records.len() as int) == records.len() - from,
    decreases records.len() - from,
{
    if from < records.len() {
        assert(action(rows, records[from]) == SyncAction::Skip);
        all_skipped(rows, records, from + 1);
    }
    all_counted(rows, records, from, records.len() as int);
}

/// Where every record has nothing new, all are counted.
proof fn all_counted(rows: Rows, records: Seq<Record>, from: int, to: int)
    requires
        0 <= from <= to <= records.len(),
        forall|i: int| from <= i < to ==> action(rows, #[trigger] records[i]) == SyncAction::Skip,
    ensures
        skips(rows, records, from, to) == to - from,
    decreases to - from,
{
    if from < to {
        assert(action(rows, records[to - 1]) == SyncAction::Skip);
        all_counted(rows, records, from, to - 1);
    }
}

/// A pull from a peer that has nothing new does nothing: it is done after the index, with every
/// record skipped.
pub proof fn pulling_nothing_new_is_a_no_op(c: Course, st: State, records: Seq<Record>, now: i64)
    requires
        c.stage is Index,
        records.len() <= usize::MAX,
        forall|i: int|
            0 <= i < records.len() ==> action(st.rows, #[trigger] records[i]) == SyncAction::Skip,
    ensures
        ({
            let t = answered(c, st, Reply::Index { records }, now);
            &&& t.next is Done
            &&& t.engine == st
            &&& t.course.stats == (SyncStats {
                total: records.len() as usize,
                fetched: 0,
                skipped: records.len() as usize,
                conflicts: 0,
            })
        }),
{
    all_skipped(st.rows, records, 0);
}

/// A record that was taken over is skipped from then on, also after records of other paths: a
/// second pull of the same index has nothing new.
pub proof fn taken_records_stay_taken(st: State, one: Record, other: Record, now: i64, later: i64)
    requires
        keyed(st.rows),
        incoming(st, one, now).result is Ok,
        other.path != one.path,
    ensures
        ({
            let after = state_after(st, incoming(st, one, now).acts);
            let then = state_after(after, incoming(after, other, later).acts);
            &&& action(after.rows, one) == SyncAction::Skip
            &&& action(then.rows, one) == SyncAction::Skip
        }),
{
    let after = state_after(st, incoming(st, one, now).acts);
    crate::convergence::applying_again_does_nothing(st, one, now, later);
    crate::convergence::record_touches_one_row(st, one, now, one.path);
    crate::convergence::record_touches_one_row(after, other, later, one.path);
    taken_is_skipped(st, one, now);
}

proof fn taken_is_skipped(st: State, one: Record, now: i64)
    requires
        keyed(st.rows),
        incoming(st, one, now).result is Ok,
    ensures
        action(state_after(st, incoming(st, one, now).acts).rows, one) == SyncAction::Skip,
        state_after(st, incoming(st, one, now).acts).rows.contains_key(one.path),
{
    crate::convergence::rows_settle(st, one, now);
}

/// Taking over a push does what applying its record does: the record is skipped if it is known or
/// leads through a link, applied if its content is here, and otherwise its manifest is asked for.
pub proof fn push_is_applied_like_any_record(record: Record, st: State, now: i64)
    ensures
        !is_wanted(st.rows, record) ==> pushed(record, st, now).next is Done && pushed(
            record,
            st,
            now,
        ).engine == st,
        is_wanted(st.rows, record) && (record.deleted
            || is_genuine(st.shelves, record.hash)) ==> pushed(record, st, now).engine
            == state_after(st, incoming(st, record, now).acts),
        is_wanted(st.rows, record) && !record.deleted
            && !st.shelves.manifests.contains_key(record.hash) ==> pushed(record, st, now).next
            == Next::Ask(Ask::Manifest { hash: record.hash }),
{
    let records = seq![record];
    reveal_with_fuel(first_wanted, 2);
    assert(records[0] == record);
}

/// Up to `turns` requests of a pull, each answered from the peer's store.
pub open spec fn conversed(t: Taken, p: Shelves, now: i64, turns: nat) -> Taken
    decreases turns,
{
    match t.next {
        Next::Ask(ask) if turns > 0 => conversed(
            answered(t.course, t.engine, served(p, ask), now),
            p,
            now,
            (turns - 1) as nat,
        ),
        _ => t,
    }
}

/// A conversation about one record's content ends in the record being applied.
proof fn conversation_is_a_fetch(
    c: Course,
    st: State,
    f: Fetched,
    p: Shelves,
    hash: Seq<char>,
    now: i64,
    turns: nat,
)
    requires
        st.shelves == f.shelves,
        talked(f, hash, p, turns).next is Ready,
    ensures
        conversed(got(c, st, hash, f, now), p, now, turns) == applied(
            c,
            State { shelves: talked(f, hash, p, turns).shelves, ..st },
            now,
        ),
    decreases turns,
{
    if let Move::Ask(ask) = f.next {
        let f2 = fed(f.shelves, hash, f.progress, served(p, ask));
        let c2 = Course { stage: Stage::Content(hash, f.progress), ..c };
        let st2 = State { shelves: f2.shelves, ..st };
        let t = got(c, st, hash, f, now);
        assert(t.course == c2);
        conversation_is_a_fetch(c2, st2, f2, p, hash, now, (turns - 1) as nat);
        let end = State { shelves: talked(f, hash, p, turns).shelves, ..st };
        assert(applied(c2, end, now) == applied(c, end, now));
    } else {
        assert(st == (State { shelves: f.shelves, ..st }));
    }
}

/// A pushed record that supersedes the local state is delivered: a peer that has its genuine
/// content answers at most one request for the manifest and one for each chunk, and then the
/// store here has the genuine content, the index names it, and the steps that write the file out
/// are handed over.
pub proof fn superseding_push_is_delivered(st: State, p: Shelves, record: Record, now: i64)
    requires
        keyed(st.rows),
        is_admitted(st.rows, record.path),
        action(st.rows, record) == SyncAction::Fetch,
        !record.deleted,
        can_receive(st.shelves, p, record.hash),
        offers(p, record.hash),
        well_named(st.shelves),
        well_named(p),
        agree(st.shelves, p),
    ensures
        ({
            let t = conversed(
                pushed(record, st, now),
                p,
                now,
                (chunks_of(p, record.hash).len() + 1) as nat,
            );
            &&& t.next is Perform
            &&& t.next->Perform_0[0] == written(
                record,
                crate::paths::joined(st.root, record.path),
            )
            &&& is_genuine(t.engine.shelves, record.hash)
            &&& !is_genuine(st.shelves, record.hash) ==> content(t.engine.shelves, record.hash)
                == content(p, record.hash)
            &&& t.engine.rows[record.path].hash == record.hash
            &&& is_live(t.engine.rows, record.path)
        }),
{
    let turns = (chunks_of(p, record.hash).len() + 1) as nat;
    let f = begun(st.shelves, record);
    honest_peer_delivers(st.shelves, p, record);
    let f_end = talked(f, record.hash, p, turns);
    let c = Course {
        stage: Stage::Over,
        records: seq![record],
        at: 0,
        stats: SyncStats { total: 1, fetched: 0, skipped: 0, conflicts: 0 },
    };
    assert(seq![record][0] == record);
    assert(first_wanted(st.rows, seq![record], 0) == 0);
    let st1 = State { shelves: f.shelves, ..st };
    assert(pushed(record, st, now) == got(c, st1, record.hash, f, now));
    conversation_is_a_fetch(c, st1, f, p, record.hash, now, turns);
    let end = State { shelves: f_end.shelves, ..st };
    assert(holds(end.shelves, record.hash));
    crate::convergence::rows_settle(end, record, now);
}

// ---- a whole pull --------------------------------------------------------------------------
/// Up to `turns` turns of a pull, from the turn `from` on: each request is answered from the
/// peer's store and the steps that are given out are performed. `clock` tells the time at each
/// turn.
pub open spec fn run(
    t: Taken,
    p: Shelves,
    clock: spec_fn(nat) -> i64,
    from: nat,
    turns: nat,
) -> Taken
    decreases turns,
{
    if turns == 0 {
        t
    } else {
        match t.next {
            Next::Ask(ask) => run(
                answered(t.course, t.engine, served(p, ask), clock(from)),
                p,
                clock,
                from + 1,
                (turns - 1) as nat,
            ),
            Next::Perform(_) => run(
                performed(t.course, t.engine, clock(from)),
                p,
                clock,
                from + 1,
                (turns - 1) as nat,
            ),
            _ => t,
        }
    }
}

/// Every file on record is in the store.
pub open spec fn is_stocked(st: State) -> bool {
    forall|p: Seq<char>| #[trigger] is_live(st.rows, p) ==> holds(st.shelves, st.rows[p].hash)
}

/// The record's path stays in the tree, its content is the peer's to give, and nothing here is in
/// the way of it.
pub open spec fn can_come(st: State, p: Shelves, r: Record) -> bool {
    &&& is_safe(r.path)
    &&& !r.deleted ==> {
        &&& offers(p, r.hash)
        &&& can_receive(st.shelves, p, r.hash)
        &&& !is_behind_link(st.rows, r.path)
    }
}

/// Of two records, the one has its file through the link that the other is.
pub open spec fn leads_through(one: Record, other: Record) -> bool {
    !one.deleted && !other.deleted && other.link && is_beneath(one.path, other.path)
}

/// The record was taken over.
pub open spec fn is_taken(st: State, r: Record) -> bool {
    &&& st.rows.contains_key(r.path)
    &&& st.rows[r.path].deleted == r.deleted
    &&& !r.deleted ==> same_version(st.rows[r.path], r) && is_genuine(st.shelves, r.hash)
}

/// What a pull keeps to from one record to the next.
spec fn on_course(c: Course, st: State, p: Shelves) -> bool {
    &&& 0 <= c.at <= c.records.len() <= usize::MAX
    &&& c.stats.total == c.records.len()
    &&& accounted(c.stats) == c.at
    &&& keyed(st.rows)
    &&& is_stocked(st)
    &&& well_named(st.shelves)
    &&& well_named(p)
    &&& agree(st.shelves, p)
    &&& forall|i: int| c.at <= i < c.records.len() ==> can_come(st, p, #[trigger] c.records[i])
    &&& forall|i: int, j: int|
        0 <= i < c.records.len() && 0 <= j < c.records.len() && i != j ==> (
        #[trigger] c.records[i]).path != (#[trigger] c.records[j]).path
    &&& forall|i: int, j: int|
        0 <= i < c.records.len() && 0 <= j < c.records.len() ==> !leads_through(
            #[trigger] c.records[i],
            #[trigger] c.records[j],
        )
}

proof fn first_wanted_is(rows: Rows, records: Seq<Record>, from: int)
    requires
        0 <= from <= records.len(),
    ensures
        ({
            let at = first_wanted(rows, records, from);
            &&& from <= at <= records.len()
            &&& at < records.len() ==> is_wanted(rows, records[at])
            &&& forall|i: int| from <= i < at ==> !is_wanted(rows, #[trigger] records[i])
        }),
    decreases records.len() - from,
{
    if from < records.len() && !is_wanted(rows, records[from]) {
        first_wanted_is(rows, records, from + 1);
    }
}

/// When the record's content is there: at once, or at the turn of the last answer.
spec fn time_of(now: i64, clock: spec_fn(nat) -> i64, from: nat, asked: nat) -> i64 {
    if asked == 0 {
        now
    } else {
        clock((from + asked - 1) as nat)
    }
}

/// The turns that get one record's content, and `more` after them.
proof fn turns_of_a_fetch(
    c: Course,
    st: State,
    f: Fetched,
    p: Shelves,
    hash: Seq<char>,
    now: i64,
    clock: spec_fn(nat) -> i64,
    from: nat,
    turns: nat,
    more: nat,
)
    requires
        st.shelves == f.shelves,
        talked(f, hash, p, turns).next is Ready,
    ensures
        ({
            let asked = asks(f, hash, p, turns);
            let end = State { shelves: talked(f, hash, p, turns).shelves, ..st };
            run(got(c, st, hash, f, now), p, clock, from, asked + more) == run(
                applied(c, end, time_of(now, clock, from, asked)),
                p,
                clock,
                from + asked,
                more,
            )
        }),
    decreases turns,
{
    if let Move::Ask(ask) = f.next {
        let f2 = fed(f.shelves, hash, f.progress, served(p, ask));
        let c2 = Course { stage: Stage::Content(hash, f.progress), ..c };
        let st2 = State { shelves: f2.shelves, ..st };
        let t = got(c, st, hash, f, now);
        assert(t.course == c2);
        let less = (turns - 1) as nat;
        let asked2 = asks(f2, hash, p, less);
        turns_of_a_fetch(c2, st2, f2, p, hash, clock(from), clock, from + 1, less, more);
        assert(answered(c2, st, served(p, ask), clock(from)) == got(
            c2,
            st2,
            hash,
            f2,
            clock(from),
        ));
        let end = State { shelves: talked(f, hash, p, turns).shelves, ..st };
        let when = time_of(clock(from), clock, from + 1, asked2);
        assert(applied(c2, end, when) == applied(c, end, when));
        assert(asks(f, hash, p, turns) == 1 + asked2);
        assert((asked2 + 1 + more - 1) as nat == asked2 + more);
    } else {
        assert(st == (State { shelves: f.shelves, ..st }));
    }
}

/// A record whose content is there is applied, and what the pull keeps to holds on.
proof fn one_record_is_taken(c: Course, st: State, end: State, p: Shelves, now: i64)
    requires
        on_course(c, st, p),
        c.at < c.records.len(),
        action(st.rows, c.records[c.at]) != SyncAction::Skip,
        end == (State { shelves: end.shelves, ..st }),
        keeps(st.shelves, end.shelves),
        came_over(st.shelves, end.shelves, p, c.records[c.at].hash),
        c.records[c.at].deleted ==> end.shelves == st.shelves,
        !c.records[c.at].deleted ==> is_genuine(end.shelves, c.records[c.at].hash) && (is_genuine(
            st.shelves,
            c.records[c.at].hash,
        ) || chunks_of(end.shelves, c.records[c.at].hash) == chunks_of(p, c.records[c.at].hash)),
    ensures
        ({
            let r = c.records[c.at];
            let d = incoming(end, r, now);
            let after = state_after(end, d.acts);
            let c2 = Course {
                stage: Stage::Over,
                at: c.at + 1,
                stats: tallied(c.stats, d.result->Ok_0),
                ..c
            };
            &&& d.result is Ok
            &&& on_course(c2, after, p)
            &&& action(after.rows, r) == SyncAction::Skip
            &&& after.shelves == end.shelves
            &&& action(st.rows, r) == SyncAction::Fetch ==> is_taken(after, r)
            &&& forall|q: Seq<char>|
                q != r.path ==> #[trigger] after.rows.contains_key(q) == st.rows.contains_key(q)
            &&& forall|q: Seq<char>| q != r.path ==> #[trigger] after.rows[q] == st.rows[q]
        }),
{
    let r = c.records[c.at];
    let d = incoming(end, r, now);
    let after = state_after(end, d.acts);
    assert(can_come(st, p, r));
    if is_live(st.rows, r.path) {
        genuine_content_stays(st.shelves, end.shelves, st.rows[r.path].hash);
    }
    if !r.deleted {
        assert(holds(end.shelves, r.hash));
    }
    assert(d.result is Ok);
    crate::convergence::rows_settle(end, r, now);
    taken_is_skipped(end, r, now);
    assert forall|q: Seq<char>| #[trigger] is_live(after.rows, q) implies holds(
        after.shelves,
        after.rows[q].hash,
    ) by {
        if q != r.path {
            assert(is_live(st.rows, q));
            genuine_content_stays(st.shelves, end.shelves, st.rows[q].hash);
        }
    }
    assert forall|i: int| c.at + 1 <= i < c.records.len() implies can_come(
        after,
        p,
        #[trigger] c.records[i],
    ) by {
        let other = c.records[i];
        assert(can_come(st, p, other));
        if !other.deleted {
            if is_genuine(st.shelves, other.hash) {
                genuine_content_stays(st.shelves, end.shelves, other.hash);
            }
            if is_behind_link(after.rows, other.path) {
                let q = choose|q: Seq<char>| #[trigger] is_live_link(after.rows, q) && is_beneath(
                    other.path,
                    q,
                );
                if q != r.path {
                    assert(is_live_link(st.rows, q));
                } else {
                    assert(!leads_through(c.records[i], c.records[c.at]));
                    assert(is_live_link(st.rows, q));
                }
                assert(is_behind_link(st.rows, other.path));
            }
        }
    }
}

/// Where a pull is once the next wanted record was taken: what it holds, what the engine holds,
/// and how many requests that took.
struct Taking {
    course: Course,
    engine: State,
    asked: nat,
}

/// The next wanted record is taken from the peer.
spec fn stepped(
    c: Course,
    st: State,
    p: Shelves,
    now: i64,
    clock: spec_fn(nat) -> i64,
    from: nat,
) -> Taking {
    let c1 = at_wanted(c, st);
    let r = c.records[c1.at];
    let turns = (chunks_of(p, r.hash).len() + 1) as nat;
    let f = begun(st.shelves, r);
    let end = State { shelves: talked(f, r.hash, p, turns).shelves, ..st };
    let asked = asks(f, r.hash, p, turns);
    let d = incoming(end, r, time_of(now, clock, from, asked));
    Taking {
        course: Course {
            stage: Stage::Over,
            at: c1.at + 1,
            stats: tallied(c1.stats, d.result->Ok_0),
            ..c1
        },
        engine: state_after(end, d.acts),
        asked,
    }
}

/// The records from `at` on have nothing new at the end, those that superseded the state were
/// taken over, and no other path's row changed.
spec fn all_taken(records: Seq<Record>, at: int, st: State, end: State) -> bool {
    &&& keeps(st.shelves, end.shelves)
    &&& forall|i: int|
        at <= i < records.len() ==> action(end.rows, #[trigger] records[i]) == SyncAction::Skip
    &&& forall|i: int|
        at <= i < records.len() && action(st.rows, #[trigger] records[i]) == SyncAction::Fetch
            ==> is_taken(end, records[i])
    &&& forall|q: Seq<char>|
        (forall|i: int| at <= i < records.len() ==> (#[trigger] records[i]).path != q)
            ==> #[trigger] end.rows.contains_key(q) == st.rows.contains_key(q) && end.rows[q]
            == st.rows[q]
}

/// The step to the record behind the next wanted one.
spec fn steps_on(records: Seq<Record>, from: int, at: int, st: State, after: State) -> bool {
    &&& 0 <= from <= at < records.len()
    &&& keeps(st.shelves, after.shelves)
    &&& forall|i: int|
        from <= i < at ==> action(st.rows, #[trigger] records[i]) == SyncAction::Skip
    &&& action(after.rows, records[at]) == SyncAction::Skip
    &&& action(st.rows, records[at]) == SyncAction::Fetch ==> is_taken(after, records[at])
    &&& forall|q: Seq<char>|
        q != records[at].path ==> #[trigger] after.rows.contains_key(q) == st.rows.contains_key(q)
    &&& forall|q: Seq<char>| q != records[at].path ==> #[trigger] after.rows[q] == st.rows[q]
}

/// What comes before the next wanted record has nothing new.
proof fn others_are_skipped(c: Course, st: State, p: Shelves)
    requires
        on_course(c, st, p),
    ensures
        ({
            let c1 = at_wanted(c, st);
            &&& c.at <= c1.at <= c.records.len()
            &&& c1.at < c.records.len() ==> is_wanted(st.rows, c.records[c1.at])
            &&& forall|i: int|
                c.at <= i < c1.at ==> action(st.rows, #[trigger] c.records[i])
                    == SyncAction::Skip
            &&& on_course(c1, st, p)
        }),
{
    first_wanted_is(st.rows, c.records, c.at);
    let at = first_wanted(st.rows, c.records, c.at);
    assert forall|i: int| c.at <= i < at implies action(st.rows, #[trigger] c.records[i])
        == SyncAction::Skip by {
        assert(can_come(st, p, c.records[i]));
    }
    all_counted(st.rows, c.records, c.at, at);
}

/// The next wanted record is taken, and what the pull keeps to holds on.
proof fn step_is_taken(
    c: Course,
    st: State,
    p: Shelves,
    now: i64,
    clock: spec_fn(nat) -> i64,
    from: nat,
)
    requires
        on_course(c, st, p),
        at_wanted(c, st).at < c.records.len(),
    ensures
        ({
            let n = stepped(c, st, p, now, clock, from);
            &&& on_course(n.course, n.engine, p)
            &&& n.course.records == c.records
            &&& n.course.at == at_wanted(c, st).at + 1
            &&& steps_on(c.records, c.at, at_wanted(c, st).at, st, n.engine)
        }),
{
    others_are_skipped(c, st, p);
    let c1 = at_wanted(c, st);
    let r = c.records[c1.at];
    let f = begun(st.shelves, r);
    assert(can_come(st, p, r));
    let turns = (chunks_of(p, r.hash).len() + 1) as nat;
    if !r.deleted {
        honest_peer_delivers(st.shelves, p, r);
    }
    let end = State { shelves: talked(f, r.hash, p, turns).shelves, ..st };
    let asked = asks(f, r.hash, p, turns);
    assert(on_course(c1, st, p));
    one_record_is_taken(c1, st, end, p, time_of(now, clock, from, asked));
}

/// The turns that take the next wanted record, and `more` after them.
proof fn turns_of_a_step(
    c: Course,
    st: State,
    p: Shelves,
    now: i64,
    clock: spec_fn(nat) -> i64,
    from: nat,
    more: nat,
)
    requires
        on_course(c, st, p),
        at_wanted(c, st).at < c.records.len(),
    ensures
        ({
            let n = stepped(c, st, p, now, clock, from);
            run(advanced(c, st, now), p, clock, from, n.asked + (more + 1)) == run(
                advanced(n.course, n.engine, clock(from + n.asked)),
                p,
                clock,
                from + n.asked + 1,
                more,
            )
        }),
{
    others_are_skipped(c, st, p);
    let n = stepped(c, st, p, now, clock, from);
    let c1 = at_wanted(c, st);
    let r = c.records[c1.at];
    let f = begun(st.shelves, r);
    assert(can_come(st, p, r));
    let turns = (chunks_of(p, r.hash).len() + 1) as nat;
    if !r.deleted {
        honest_peer_delivers(st.shelves, p, r);
    }
    let end = State { shelves: talked(f, r.hash, p, turns).shelves, ..st };
    let when = time_of(now, clock, from, n.asked);
    assert(on_course(c1, st, p));
    one_record_is_taken(c1, st, end, p, when);
    assert(f.shelves == st.shelves);
    assert(st == (State { shelves: f.shelves, ..st }));
    assert(advanced(c, st, now) == got(c1, st, r.hash, f, now));
    turns_of_a_fetch(c1, st, f, p, r.hash, now, clock, from, turns, more + 1);
    let t2 = applied(c1, end, when);
    assert(performed(t2.course, t2.engine, clock(from + n.asked)) == advanced(
        n.course,
        n.engine,
        clock(from + n.asked),
    ));
}

/// What holds from one record on holds from the wanted record before it on.
proof fn steps_add_up(
    records: Seq<Record>,
    from: int,
    at: int,
    st: State,
    after: State,
    end: State,
)
    requires
        steps_on(records, from, at, st, after),
        all_taken(records, at + 1, after, end),
        forall|i: int, j: int|
            0 <= i < records.len() && 0 <= j < records.len() && i != j ==> (
            #[trigger] records[i]).path != (#[trigger] records[j]).path,
    ensures
        all_taken(records, from, st, end),
{
    assert forall|h: Seq<char>| #[trigger] st.shelves.objects.contains_key(h) implies (
    end.shelves.objects.contains_key(h) && end.shelves.objects[h] == st.shelves.objects[h]) by {
        assert(after.shelves.objects.contains_key(h));
    }
    assert forall|h: Seq<char>| #[trigger] st.shelves.manifests.contains_key(h) implies (
    end.shelves.manifests.contains_key(h) && end.shelves.manifests[h]
        == st.shelves.manifests[h]) by {
        assert(after.shelves.manifests.contains_key(h));
    }
    assert forall|i: int| from <= i < records.len() implies action(
        end.rows,
        #[trigger] records[i],
    ) == SyncAction::Skip by {
        if i <= at {
            row_stays(records, from, at, st, after, end, i);
        }
    }
    assert forall|i: int|
        from <= i < records.len() && action(st.rows, #[trigger] records[i])
            == SyncAction::Fetch implies is_taken(end, records[i]) by {
        let q = records[i].path;
        if i == at {
            row_stays(records, from, at, st, after, end, i);
            genuine_content_stays(after.shelves, end.shelves, records[i].hash);
        } else if i > at {
            assert(after.rows.contains_key(q) == st.rows.contains_key(q));
            assert(after.rows[q] == st.rows[q]);
        }
    }
    assert forall|q: Seq<char>|
        (forall|i: int| from <= i < records.len() ==> (#[trigger] records[i]).path
            != q) implies #[trigger] end.rows.contains_key(q) == st.rows.contains_key(q)
        && end.rows[q] == st.rows[q] by {
        assert(records[at].path != q);
        assert(after.rows.contains_key(q) == st.rows.contains_key(q));
        assert(after.rows[q] == st.rows[q]);
    }
}

/// The row of a record that was dealt with is not touched by those behind it.
proof fn row_stays(
    records: Seq<Record>,
    from: int,
    at: int,
    st: State,
    after: State,
    end: State,
    i: int,
)
    requires
        steps_on(records, from, at, st, after),
        all_taken(records, at + 1, after, end),
        from <= i <= at,
        forall|i: int, j: int|
            0 <= i < records.len() && 0 <= j < records.len() && i != j ==> (
            #[trigger] records[i]).path != (#[trigger] records[j]).path,
    ensures
        ({
            let q = records[i].path;
            let was = if i < at {
                st
            } else {
                after
            };
            end.rows.contains_key(q) == was.rows.contains_key(q) && end.rows[q] == was.rows[q]
        }),
{
    let q = records[i].path;
    assert forall|j: int| at + 1 <= j < records.len() implies (#[trigger] records[j]).path
        != q by {
        assert(records[i].path != records[j].path);
    }
    assert(end.rows.contains_key(q) == after.rows.contains_key(q));
    if i < at {
        assert(records[i].path != records[at].path);
        assert(after.rows.contains_key(q) == st.rows.contains_key(q));
        assert(after.rows[q] == st.rows[q]);
    }
}

/// The records from the one at hand on are taken.
proof fn rest_is_taken(
    c: Course,
    st: State,
    p: Shelves,
    now: i64,
    clock: spec_fn(nat) -> i64,
    from: nat,
) -> (turns: nat)
    requires
        on_course(c, st, p),
    ensures
        ({
            let t = run(advanced(c, st, now), p, clock, from, turns);
            &&& t.next is Done
            &&& t.course.stats.total == c.records.len()
            &&& accounted(t.course.stats) == c.records.len()
            &&& all_taken(c.records, c.at, st, t.engine)
        }),
    decreases c.records.len() - c.at,
{
    others_are_skipped(c, st, p);
    if at_wanted(c, st).at >= c.records.len() {
        0
    } else {
        let n = stepped(c, st, p, now, clock, from);
        step_is_taken(c, st, p, now, clock, from);
        let rest = rest_is_taken(
            n.course,
            n.engine,
            p,
            clock(from + n.asked),
            clock,
            from + n.asked + 1,
        );
        turns_of_a_step(c, st, p, now, clock, from, rest);
        let t = run(advanced(c, st, now), p, clock, from, n.asked + (rest + 1));
        steps_add_up(c.records, c.at, at_wanted(c, st).at, st, n.engine, t.engine);
        n.asked + (rest + 1)
    }
}

/// A pull from an honest peer ends done, after finitely many turns, with every record of the
/// peer's accounted for: none of them has anything new any more, and each that superseded the
/// local state was taken over, content and all.
///
/// An honest peer has paths that stay in the tree, genuine content for each file on record, and no
/// file behind a link of its own. Here every file on record is in the store, no manifest of other
/// chunks is in the way, no file of the peer's lies behind a link that is on record, and both
/// stores keep their objects under digests and hold the same under the names that both have.
pub proof fn honest_peer_is_pulled_whole(
    c: Course,
    st: State,
    peer: State,
    records: Seq<Record>,
    clock: spec_fn(nat) -> i64,
) -> (turns: nat)
    requires
        c.stage is Index,
        lists(peer.rows, records),
        records.len() <= usize::MAX,
        keyed(st.rows),
        is_stocked(st),
        well_named(st.shelves),
        well_named(peer.shelves),
        agree(st.shelves, peer.shelves),
        forall|q: Seq<char>| #[trigger]
            peer.rows.contains_key(q) ==> can_come(st, peer.shelves, peer.rows[q]),
        forall|q: Seq<char>| #[trigger]
            peer.rows.contains_key(q) && !peer.rows[q].deleted ==> !is_behind_link(peer.rows, q),
    ensures
        ({
            let first = answered(c, st, Reply::Index { records }, clock(0));
            let t = run(first, peer.shelves, clock, 1, turns);
            &&& t.next is Done
            &&& t.course.stats.total == records.len()
            &&& accounted(t.course.stats) == records.len()
            &&& forall|q: Seq<char>| #[trigger]
                peer.rows.contains_key(q) ==> action(t.engine.rows, peer.rows[q])
                    == SyncAction::Skip
            &&& forall|q: Seq<char>| #[trigger]
                peer.rows.contains_key(q) && action(st.rows, peer.rows[q]) == SyncAction::Fetch
                    ==> is_taken(t.engine, peer.rows[q])
            &&& forall|q: Seq<char>|
                !(#[trigger] peer.rows.contains_key(q)) ==> t.engine.rows.contains_key(q)
                    == st.rows.contains_key(q) && t.engine.rows[q] == st.rows[q]
        }),
{
    crate::convergence::listed_rows_are_keyed(peer.rows, records);
    let c0 = Course {
        stage: Stage::Over,
        records,
        at: 0,
        stats: SyncStats {
            total: records.len() as usize,
            fetched: 0,
            skipped: 0,
            conflicts: 0,
        },
    };
    let paths = paths_of(records);
    assert forall|i: int, j: int|
        0 <= i < records.len() && 0 <= j < records.len() && i != j implies (
    #[trigger] records[i]).path != (#[trigger] records[j]).path by {
        let (a, b) = if i < j {
            (i, j)
        } else {
            (j, i)
        };
        assert(before(paths[a], paths[b]));
        crate::text::before_irreflexive(paths[a]);
    }
    assert forall|i: int, j: int|
        0 <= i < records.len() && 0 <= j < records.len() implies !leads_through(
        #[trigger] records[i],
        #[trigger] records[j],
    ) by {
        if leads_through(records[i], records[j]) {
            assert(is_live_link(peer.rows, records[j].path));
            assert(is_behind_link(peer.rows, records[i].path));
        }
    }
    let turns = rest_is_taken(c0, st, peer.shelves, clock(0), clock, 1);
    let first = answered(c, st, Reply::Index { records }, clock(0));
    assert(first == advanced(c0, st, clock(0)));
    let t = run(first, peer.shelves, clock, 1, turns);
    assert forall|q: Seq<char>| #[trigger] peer.rows.contains_key(q) implies (action(
        t.engine.rows,
        peer.rows[q],
    ) == SyncAction::Skip && (action(st.rows, peer.rows[q]) == SyncAction::Fetch ==> is_taken(
        t.engine,
        peer.rows[q],
    ))) by {
        let i = paths.index_of(q);
        assert(paths.contains(q));
        assert(records[i].path == q);
        assert(records[i] == peer.rows[q]);
    }
    assert forall|q: Seq<char>| !(#[trigger] peer.rows.contains_key(q)) implies (
    t.engine.rows.contains_key(q) == st.rows.contains_key(q) && t.engine.rows[q]
        == st.rows[q]) by {
        assert forall|i: int| 0 <= i < records.len() implies (#[trigger] records[i]).path
            != q by {}
    }
    turns
}

// ---- the turns of a pull -------------------------------------------------------------------
/// A record is wanted exactly if it does not mean that nothing is to be done and, where it names
/// content, leads through no link.
pub proof fn wanted_records_are(rows: Rows, r: Record)
    ensures
        is_wanted(rows, r) <==> action(rows, r) != SyncAction::Skip && !(is_safe(r.path)
            && !r.deleted && is_behind_link(rows, r.path)),
{
}

/// The first wanted record is found, whatever stands before it, and the records that have nothing
/// new are counted one by one.
pub proof fn first_wanted_record_is_next(rows: Rows, records: Seq<Record>, from: int, at: int)
    requires
        0 <= from <= at <= records.len(),
        forall|i: int| from <= i < at ==> !is_wanted(rows, #[trigger] records[i]),
        at < records.len() ==> is_wanted(rows, records[at]),
    ensures
        first_wanted(rows, records, from) == at,
        from < at ==> skips(rows, records, from, at) == skips(rows, records, from, at - 1) + (
        if action(rows, records[at - 1]) == SyncAction::Skip {
            1int
        } else {
            0
        }),
        skips(rows, records, at, at) == 0,
    decreases at - from,
{
    if from < at {
        assert(!is_wanted(rows, records[from]));
        if from + 1 < at {
            first_wanted_record_is_next(rows, records, from + 1, at);
        } else {
            assert(at < records.len() ==> is_wanted(rows, records[at]));
            assert(first_wanted(rows, records, at) == at);
        }
    }
}

/// Anything but an index in answer to the request for one ends the pull, and an answer to nothing
/// does.
pub proof fn wrong_answers_end_the_pull(c: Course, st: State, reply: Reply, now: i64)
    ensures
        c.stage is Index && !(reply is Index) ==> ({
            let t = answered(c, st, reply, now);
            t.engine == st && t.next == (Next::Failed {
                acts: Seq::empty(),
                trouble: Trouble::NotAnIndex,
            })
        }),
        c.stage is Files || c.stage is Over ==> ({
            let t = answered(c, st, reply, now);
            t.engine == st && t.next == (Next::Failed {
                acts: Seq::empty(),
                trouble: Trouble::OutOfTurn,
            })
        }),
        !(c.stage is Files) ==> ({
            let t = performed(c, st, now);
            t.engine == st && t.next == (Next::Failed {
                acts: Seq::empty(),
                trouble: Trouble::OutOfTurn,
            })
        }),
{
}

/// An index is dealt with from its first record on, with nothing counted yet but how many records
/// there are.
pub proof fn index_is_dealt_with_from_the_start(
    c: Course,
    st: State,
    records: Seq<Record>,
    now: i64,
)
    requires
        c.stage is Index,
        records.len() <= usize::MAX,
    ensures
        ({
            let t = answered(c, st, Reply::Index { records }, now);
            let at = first_wanted(st.rows, records, 0);
            &&& t.course.records == records
            &&& t.course.at == at
            &&& t.course.stats.total == records.len()
            &&& t.course.stats.fetched == 0
            &&& t.course.stats.conflicts == 0
            &&& t.course.stats.skipped == skips(st.rows, records, 0, at)
        }),
{
    first_wanted_is(st.rows, records, 0);
    skips_within(st.rows, records, 0, first_wanted(st.rows, records, 0));
}

proof fn skips_within(rows: Rows, records: Seq<Record>, from: int, to: int)
    requires
        from <= to,
    ensures
        0 <= skips(rows, records, from, to) <= to - from,
    decreases to - from,
{
    if from < to {
        skips_within(rows, records, from, to - 1);
    }
}

/// Where no record is wanted any more the pull is done; where one is, its content is got, and
/// where that is there the record is applied: its steps are given out, or the pull ends with what
/// stopped it.
pub proof fn wanted_record_is_applied(c: Course, st: State, now: i64)
    requires
        0 <= c.at <= c.records.len(),
    ensures
        ({
            let at = first_wanted(st.rows, c.records, c.at);
            let t = advanced(c, st, now);
            let r = c.records[at];
            let f = begun(st.shelves, r);
            let d = incoming(st, r, now);
            &&& at == c.records.len() ==> t.next is Done && t.engine == st
            &&& at < c.records.len() && f.next is Ask ==> t.next == Next::Ask(f.next->Ask_0)
                && t.engine.rows == st.rows
            &&& at < c.records.len() && (r.deleted || is_genuine(st.shelves, r.hash)) ==> {
                &&& t.engine == state_after(st, d.acts)
                &&& d.result matches Ok(outcome) ==> t.next == Next::Perform(d.acts)
                    && t.course.stage == Stage::Files(outcome)
                &&& d.result matches Err(fault) ==> t.next == (Next::Failed {
                    acts: d.acts,
                    trouble: Trouble::Apply(fault),
                })
            }
        }),
{
    first_wanted_is(st.rows, c.records, c.at);
}

/// Where the peer has not got the content the pull goes on behind the record, which is not
/// counted; where the content is refused the pull ends; and once the steps were performed it goes
/// on behind the record, which is counted by what came of it.
pub proof fn pull_goes_on_behind_the_record(c: Course, st: State, hash: Seq<char>, now: i64)
    requires
        0 <= c.at < c.records.len(),
    ensures
        c.stage == Stage::Content(hash, Progress::Listing) ==> answered(c, st, Reply::NotFound, now)
            == advanced(Course { stage: Stage::Over, at: c.at + 1, ..c }, st, now),
        c.stage matches Stage::Files(outcome) ==> performed(c, st, now) == advanced(
            Course {
                stage: Stage::Over,
                records: c.records,
                at: c.at + 1,
                stats: match outcome {
                    Outcome::Skipped => SyncStats {
                        skipped: (c.stats.skipped + 1) as usize,
                        ..c.stats
                    },
                    Outcome::Applied => SyncStats {
                        fetched: (c.stats.fetched + 1) as usize,
                        ..c.stats
                    },
                    Outcome::ConflictKeptLocal => SyncStats {
                        conflicts: (c.stats.conflicts + 1) as usize,
                        ..c.stats
                    },
                    Outcome::Conflicted { copy: _ } => SyncStats {
                        conflicts: (c.stats.conflicts + 1) as usize,
                        ..c.stats
                    },
                },
            },
            st,
            now,
        ),
{
    assert(st == (State { shelves: st.shelves, ..st }));
}

/// A turn of a pull says what is asked for, what is to be performed, or what ended it.
pub proof fn pull_turns_say_their_fields(
    req: Req,
    steps: Vec<Step>,
    fetch: FetchError,
    apply: EngineError,
    next: Next,
)
    ensures
        says(PullTurn::Ask(req), next) <==> next == Next::Ask(req@),
        says(PullTurn::Perform(steps), next) <==> next == Next::Perform(
            Seq::new(steps@.len(), |i: int| steps@[i]@),
        ),
        says(PullTurn::Done, next) <==> next is Done,
        says(PullTurn::Failed { steps, error: PullError::NotAnIndex }, next) ==> (
        next matches Next::Failed { trouble, .. } && trouble is NotAnIndex),
        says(PullTurn::Failed { steps, error: PullError::OutOfTurn }, next) ==> (
        next matches Next::Failed { trouble, .. } && trouble is OutOfTurn),
        says(PullTurn::Failed { steps, error: PullError::Fetch(fetch) }, next) ==> (
        next matches Next::Failed { trouble, .. } && trouble == Trouble::Fetch(fetch@)),
        says(PullTurn::Failed { steps, error: PullError::Apply(apply) }, next) ==> (
        next matches Next::Failed { trouble, .. } && trouble == Trouble::Apply(apply@)),
{
}

} // verus!
