//! The debouncer behind the file watcher: what is pending after each raw
//! change, and when the pending changes are due.

use vstd::prelude::*;
use crate::models::texts;

verus! {

/// How long the watched directory must stay quiet before pending changes
/// are applied, in milliseconds.
pub const DEBOUNCE_MS: u64 = 300;

/// The longest wait for one raw change, in milliseconds.
pub const POLL_MS: u64 = 100;

/// A failure of the watcher, with its description.
#[derive(Debug)]
pub struct WatcherError {
    details: String,
}

impl View for WatcherError {
    type V = Seq<char>;

    closed spec fn view(&self) -> Seq<char> {
        self.details@
    }
}

impl WatcherError {
    /// A failure described by `details`.
    pub fn new(details: &str) -> (e: Self)
        ensures
            e@ == details@,
    {
        WatcherError { details: String::from_str(details) }
    }

    /// The description.
    pub fn message(&self) -> (s: String)
        ensures
            s@ == self@,
    {
        self.details.clone()
    }
}

/// `s` with `p` added at the end, unless it is there already.
pub open spec fn with_path(s: Seq<Seq<char>>, p: Seq<char>) -> Seq<Seq<char>> {
    if s.contains(p) {
        s
    } else {
        s.push(p)
    }
}

/// `s` without the first `p` in it.
pub open spec fn without_path(s: Seq<Seq<char>>, p: Seq<char>) -> Seq<Seq<char>> {
    if s.contains(p) {
        s.remove(s.index_of(p))
    } else {
        s
    }
}

/// `s` with each of `ps` added in turn.
pub open spec fn with_paths(s: Seq<Seq<char>>, ps: Seq<Seq<char>>) -> Seq<Seq<char>>
    decreases ps.len(),
{
    if ps.len() == 0 {
        s
    } else {
        with_paths(with_path(s, ps[0]), ps.drop_first())
    }
}

/// `s` with each of `ps` taken out in turn.
pub open spec fn without_paths(s: Seq<Seq<char>>, ps: Seq<Seq<char>>) -> Seq<Seq<char>>
    decreases ps.len(),
{
    if ps.len() == 0 {
        s
    } else {
        without_paths(without_path(s, ps[0]), ps.drop_first())
    }
}

/// Adding a path keeps the paths distinct and adds it to the set.
pub proof fn lemma_with_path(s: Seq<Seq<char>>, p: Seq<char>)
    requires
        s.no_duplicates(),
    ensures
        with_path(s, p).no_duplicates(),
        with_path(s, p).to_set() == s.to_set().insert(p),
{
    let r = with_path(s, p);
    assert forall|x: Seq<char>| r.to_set().contains(x) == s.to_set().insert(p).contains(x) by {
        if s.contains(p) {
        } else {
            if r.contains(x) {
                let i = choose|i: int| 0 <= i < r.len() && r[i] == x;
                if i < s.len() {
                    assert(s[i] == x);
                }
            }
            if s.contains(x) {
                let i = choose|i: int| 0 <= i < s.len() && s[i] == x;
                assert(r[i] == x);
            }
            assert(r[s.len() as int] == p);
        }
    }
    assert(r.to_set() =~= s.to_set().insert(p));
}

/// Taking a path out keeps the paths distinct and takes it out of the set.
pub proof fn lemma_without_path(s: Seq<Seq<char>>, p: Seq<char>)
    requires
        s.no_duplicates(),
    ensures
        without_path(s, p).no_duplicates(),
        without_path(s, p).to_set() == s.to_set().remove(p),
{
    let r = without_path(s, p);
    if s.contains(p) {
        let k = s.index_of(p);
        assert(0 <= k < s.len() && s[k] == p);
        assert forall|i: int, j: int| 0 <= i < r.len() && 0 <= j < r.len() && i != j implies r[i]
            != r[j] by {
            let a = if i < k { i } else { i + 1 };
            let b = if j < k { j } else { j + 1 };
            assert(r[i] == s[a] && r[j] == s[b]);
        }
        assert forall|x: Seq<char>| r.to_set().contains(x) == s.to_set().remove(p).contains(
            x,
        ) by {
            if r.contains(x) {
                let i = choose|i: int| 0 <= i < r.len() && r[i] == x;
                let a = if i < k { i } else { i + 1 };
                assert(s[a] == x);
                assert(a != k);
            }
            if s.contains(x) && x != p {
                let i = choose|i: int| 0 <= i < s.len() && s[i] == x;
                let a = if i < k { i } else { i - 1 };
                assert(r[a] == x);
            }
        }
    } else {
        assert forall|x: Seq<char>| r.to_set().contains(x) == s.to_set().remove(p).contains(
            x,
        ) by {}
    }
    assert(r.to_set() =~= s.to_set().remove(p));
}

/// Adding paths keeps them distinct and adds each to the set.
pub proof fn lemma_with_paths(s: Seq<Seq<char>>, ps: Seq<Seq<char>>)
    requires
        s.no_duplicates(),
    ensures
        with_paths(s, ps).no_duplicates(),
        with_paths(s, ps).to_set() == s.to_set().union(ps.to_set()),
    decreases ps.len(),
{
    if ps.len() == 0 {
        assert(ps.to_set() =~= Set::empty());
        assert(s.to_set().union(ps.to_set()) =~= s.to_set());
    } else {
        lemma_with_path(s, ps[0]);
        lemma_with_paths(with_path(s, ps[0]), ps.drop_first());
        let rest = ps.drop_first();
        assert forall|x: Seq<char>|
            ps.to_set().contains(x) == (x == ps[0] || rest.to_set().contains(x)) by {
            if ps.contains(x) {
                let i = choose|i: int| 0 <= i < ps.len() && ps[i] == x;
                if i > 0 {
                    assert(rest[i - 1] == x);
                }
            }
            if rest.contains(x) {
                let i = choose|i: int| 0 <= i < rest.len() && rest[i] == x;
                assert(ps[i + 1] == x);
            }
        }
        assert(with_paths(s, ps).to_set() =~= s.to_set().union(ps.to_set()));
    }
}

/// Taking paths out keeps the rest distinct and takes each out of the set.
pub proof fn lemma_without_paths(s: Seq<Seq<char>>, ps: Seq<Seq<char>>)
    requires
        s.no_duplicates(),
    ensures
        without_paths(s, ps).no_duplicates(),
        without_paths(s, ps).to_set() == s.to_set().difference(ps.to_set()),
    decreases ps.len(),
{
    if ps.len() == 0 {
        assert(ps.to_set() =~= Set::empty());
        assert(s.to_set().difference(ps.to_set()) =~= s.to_set());
    } else {
        lemma_without_path(s, ps[0]);
        lemma_without_paths(without_path(s, ps[0]), ps.drop_first());
        let rest = ps.drop_first();
        assert forall|x: Seq<char>|
            ps.to_set().contains(x) == (x == ps[0] || rest.to_set().contains(x)) by {
            if ps.contains(x) {
                let i = choose|i: int| 0 <= i < ps.len() && ps[i] == x;
                if i > 0 {
                    assert(rest[i - 1] == x);
                }
            }
            if rest.contains(x) {
                let i = choose|i: int| 0 <= i < rest.len() && rest[i] == x;
                assert(ps[i + 1] == x);
            }
        }
        assert(without_paths(s, ps).to_set() =~= s.to_set().difference(ps.to_set()));
    }
}

/// A set of paths, kept in the order in which they came.
#[derive(Debug)]
pub struct PathSet {
    items: Vec<String>,
}

impl View for PathSet {
    type V = Seq<Seq<char>>;

    closed spec fn view(&self) -> Seq<Seq<char>> {
        texts(self.items@)
    }
}

impl PathSet {
    /// No path occurs twice.
    pub open spec fn wf(&self) -> bool {
        self@.no_duplicates()
    }

    /// The empty set.
    pub fn new() -> (s: Self)
        ensures
            s@ == Seq::<Seq<char>>::empty(),
            s.wf(),
    {
        let items: Vec<String> = Vec::new();
        assert(texts(items@) =~= Seq::<Seq<char>>::empty());
        PathSet { items }
    }

    /// How many paths the set holds.
    pub fn len(&self) -> (n: usize)
        ensures
            n == self@.len(),
    {
        self.items.len()
    }

    /// Whether the set holds no path.
    pub fn is_empty(&self) -> (r: bool)
        ensures
            r == (self@.len() == 0),
    {
        self.items.len() == 0
    }

    fn position(&self, path: &String) -> (r: Option<usize>)
        requires
            self.wf(),
        ensures
            match r {
                Some(i) => i < self@.len() && self@[i as int] == path@ && self@.index_of(path@)
                    == i,
                None => !self@.contains(path@),
            },
    {
        let mut i: usize = 0;
        while i < self.items.len()
            invariant
                i <= self.items.len(),
                self.wf(),
                forall|j: int| 0 <= j < i ==> self.items@[j]@ != path@,
            decreases self.items.len() - i,
        {
            if self.items[i] == *path {
                proof {
                    let s = texts(self.items@);
                    assert(s[i as int] == path@);
                    assert(s.contains(path@));
                    let k = s.index_of(path@);
                    assert(0 <= k < s.len() && s[k] == path@);
                    assert(k == i);
                }
                return Some(i);
            }
            i += 1;
        }
        proof {
            let s = texts(self.items@);
            if s.contains(path@) {
                let k = choose|k: int| 0 <= k < s.len() && s[k] == path@;
                assert(self.items@[k]@ == path@);
            }
        }
        None
    }

    /// Whether the set holds `path`.
    pub fn contains(&self, path: &String) -> (r: bool)
        requires
            self.wf(),
        ensures
            r == self@.contains(path@),
    {
        self.position(path).is_some()
    }

    /// Adds `path`, at the end if it is new.
    pub fn insert(&mut self, path: String)
        requires
            old(self).wf(),
        ensures
            final(self)@ == with_path(old(self)@, path@),
            final(self).wf(),
    {
        proof {
            lemma_with_path(self@, path@);
        }
        if self.position(&path).is_none() {
            self.items.push(path);
            assert(texts(self.items@) =~= with_path(old(self)@, path@));
        }
    }

    /// Takes `path` out, if it is there.
    pub fn remove(&mut self, path: &String)
        requires
            old(self).wf(),
        ensures
            final(self)@ == without_path(old(self)@, path@),
            final(self).wf(),
    {
        proof {
            lemma_without_path(self@, path@);
        }
        match self.position(path) {
            Some(i) => {
                self.items.remove(i);
                assert(texts(self.items@) =~= without_path(old(self)@, path@));
            },
            None => {},
        }
    }

    /// Empties the set and hands out what it held, in order.
    pub fn drain(&mut self) -> (out: Vec<String>)
        ensures
            final(self)@ == Seq::<Seq<char>>::empty(),
            final(self).wf(),
            texts(out@) == old(self)@,
    {
        let mut out: Vec<String> = Vec::new();
        assert(texts(out@) =~= Seq::<Seq<char>>::empty());
        std::mem::swap(&mut self.items, &mut out);
        out
    }
}

/// What a raw change did to the paths it names.
#[derive(Debug, Clone, Copy, PartialEq, Eq, Structural)]
pub enum ChangeKind {
    Create,
    Modify,
    Remove,
    /// Any other kind: it leaves the pending changes as they are.
    Other,
}

/// One raw change of the watched directory.
#[derive(Debug)]
pub struct FileEvent {
    pub kind: ChangeKind,
    pub paths: Vec<String>,
}

/// What a `FileEvent` holds, as plain sequences.
pub struct FileEventView {
    pub kind: ChangeKind,
    pub paths: Seq<Seq<char>>,
}

impl View for FileEvent {
    type V = FileEventView;

    open spec fn view(&self) -> FileEventView {
        FileEventView { kind: self.kind, paths: texts(self.paths@) }
    }
}

/// The pending upserts after `event`: a create or a modify adds its paths,
/// a remove takes them out.
pub open spec fn queued_upsert(upsert: Seq<Seq<char>>, event: FileEventView) -> Seq<Seq<char>> {
    match event.kind {
        ChangeKind::Create | ChangeKind::Modify => with_paths(upsert, event.paths),
        ChangeKind::Remove => without_paths(upsert, event.paths),
        ChangeKind::Other => upsert,
    }
}

/// The pending deletes after `event`: a remove adds its paths, a create or
/// a modify takes them out.
pub open spec fn queued_delete(delete: Seq<Seq<char>>, event: FileEventView) -> Seq<Seq<char>> {
    match event.kind {
        ChangeKind::Create | ChangeKind::Modify => without_paths(delete, event.paths),
        ChangeKind::Remove => with_paths(delete, event.paths),
        ChangeKind::Other => delete,
    }
}

/// Folds one raw change into the pending sets, so that of each path only
/// the latest intent stays.
pub fn queue_event(event: FileEvent, pending_upsert: &mut PathSet, pending_delete: &mut PathSet)
    requires
        old(pending_upsert).wf(),
        old(pending_delete).wf(),
    ensures
        final(pending_upsert)@ == queued_upsert(old(pending_upsert)@, event@),
        final(pending_delete)@ == queued_delete(old(pending_delete)@, event@),
        final(pending_upsert).wf(),
        final(pending_delete).wf(),
{
    let adds = match event.kind {
        ChangeKind::Create | ChangeKind::Modify => true,
        ChangeKind::Remove => false,
        ChangeKind::Other => { return ; },
    };
    let ghost ps = texts(event.paths@);
    assert(ps.skip(0) =~= ps);
    let mut i: usize = 0;
    while i < event.paths.len()
        invariant
            i <= event.paths.len(),
            ps == texts(event.paths@),
            pending_upsert.wf(),
            pending_delete.wf(),
            adds ==> with_paths(pending_upsert@, ps.skip(i as int)) == with_paths(
                old(pending_upsert)@,
                ps,
            ),
            adds ==> without_paths(pending_delete@, ps.skip(i as int)) == without_paths(
                old(pending_delete)@,
                ps,
            ),
            !adds ==> without_paths(pending_upsert@, ps.skip(i as int)) == without_paths(
                old(pending_upsert)@,
                ps,
            ),
            !adds ==> with_paths(pending_delete@, ps.skip(i as int)) == with_paths(
                old(pending_delete)@,
                ps,
            ),
        decreases event.paths.len() - i,
    {
        let path = event.paths[i].clone();
        assert(ps.skip(i as int)[0] == path@);
        assert(ps.skip(i as int).drop_first() =~= ps.skip(i + 1));
        if adds {
            pending_delete.remove(&path);
            pending_upsert.insert(path);
        } else {
            pending_upsert.remove(&path);
            pending_delete.insert(path);
        }
        i += 1;
    }
    assert(ps.skip(i as int).len() == 0);
}

/// The changes that are due: the paths to index again, then the paths to
/// take out of the index.
#[derive(Debug)]
pub struct FlushPlan {
    pub upserts: Vec<String>,
    pub deletes: Vec<String>,
}

/// What a `FlushPlan` holds, as plain sequences.
pub struct FlushPlanView {
    pub upserts: Seq<Seq<char>>,
    pub deletes: Seq<Seq<char>>,
}

impl View for FlushPlan {
    type V = FlushPlanView;

    open spec fn view(&self) -> FlushPlanView {
        FlushPlanView { upserts: texts(self.upserts@), deletes: texts(self.deletes@) }
    }
}

/// Empties both pending sets into a plan: every pending upsert and every
/// pending delete, each once.
pub fn flush_pending(pending_upsert: &mut PathSet, pending_delete: &mut PathSet) -> (plan:
    FlushPlan)
    ensures
        plan@.upserts == old(pending_upsert)@,
        plan@.deletes == old(pending_delete)@,
        final(pending_upsert)@.len() == 0,
        final(pending_delete)@.len() == 0,
        final(pending_upsert).wf(),
        final(pending_delete).wf(),
{
    let upserts = pending_upsert.drain();
    let deletes = pending_delete.drain();
    FlushPlan { upserts, deletes }
}

/// What reaches the watcher's loop.
#[derive(Debug)]
pub enum WatchSignal {
    /// A raw change came.
    Change(FileEvent),
    /// The source reported an error in place of a change.
    Fault,
    /// Nothing came within `POLL_MS`.
    Timeout,
    /// The source is gone.
    Disconnected,
}

/// What a `WatchSignal` holds, as plain sequences.
pub enum WatchSignalView {
    Change(FileEventView),
    Fault,
    Timeout,
    Disconnected,
}

impl View for WatchSignal {
    type V = WatchSignalView;

    open spec fn view(&self) -> WatchSignalView {
        match self {
            WatchSignal::Change(e) => WatchSignalView::Change(e@),
            WatchSignal::Fault => WatchSignalView::Fault,
            WatchSignal::Timeout => WatchSignalView::Timeout,
            WatchSignal::Disconnected => WatchSignalView::Disconnected,
        }
    }
}

/// What the loop does next.
#[derive(Debug)]
pub enum WatchStep {
    /// Wait for the next signal.
    Wait,
    /// Apply the plan, then wait for the next signal.
    Flush(FlushPlan),
    /// Apply the plan and leave the loop.
    Stop(FlushPlan),
}

/// What a `WatchStep` holds, as plain sequences.
pub enum WatchStepView {
    Wait,
    Flush(FlushPlanView),
    Stop(FlushPlanView),
}

impl View for WatchStep {
    type V = WatchStepView;

    open spec fn view(&self) -> WatchStepView {
        match self {
            WatchStep::Wait => WatchStepView::Wait,
            WatchStep::Flush(p) => WatchStepView::Flush(p@),
            WatchStep::Stop(p) => WatchStepView::Stop(p@),
        }
    }
}

/// The debouncer: idle while `last_event` is `None`, pending otherwise.
#[derive(Debug)]
pub struct WatchState {
    pub pending_upsert: PathSet,
    pub pending_delete: PathSet,
    /// The clock's reading at the latest change, in milliseconds.
    pub last_event: Option<u64>,
}

/// What a `WatchState` holds, as plain sequences.
pub struct WatchStateView {
    pub upsert: Seq<Seq<char>>,
    pub delete: Seq<Seq<char>>,
    pub last_event: Option<u64>,
}

impl View for WatchState {
    type V = WatchStateView;

    open spec fn view(&self) -> WatchStateView {
        WatchStateView {
            upsert: self.pending_upsert@,
            delete: self.pending_delete@,
            last_event: self.last_event,
        }
    }
}

impl WatchStateView {
    /// Neither pending set names a path twice.
    pub open spec fn wf(self) -> bool {
        self.upsert.no_duplicates() && self.delete.no_duplicates()
    }
}

/// Whether the quiet period since the latest change is over at `now`. A
/// clock that went backwards counts as no time passed.
pub open spec fn flush_due(last_event: Option<u64>, now: u64) -> bool {
    match last_event {
        Some(last) => now >= last && now - last >= DEBOUNCE_MS,
        None => false,
    }
}

/// The state after `signal` came at `now`.
pub open spec fn next_state(
    s: WatchStateView,
    signal: WatchSignalView,
    now: u64,
) -> WatchStateView {
    match signal {
        WatchSignalView::Change(e) => WatchStateView {
            upsert: queued_upsert(s.upsert, e),
            delete: queued_delete(s.delete, e),
            last_event: Some(now),
        },
        WatchSignalView::Fault => s,
        WatchSignalView::Timeout => if flush_due(s.last_event, now) {
            WatchStateView { upsert: Seq::empty(), delete: Seq::empty(), last_event: None }
        } else {
            s
        },
        WatchSignalView::Disconnected => WatchStateView {
            upsert: Seq::empty(),
            delete: Seq::empty(),
            last_event: s.last_event,
        },
    }
}

/// What the loop does after `signal` came at `now`.
pub open spec fn next_step(s: WatchStateView, signal: WatchSignalView, now: u64) -> WatchStepView {
    match signal {
        WatchSignalView::Change(e) => WatchStepView::Wait,
        WatchSignalView::Fault => WatchStepView::Wait,
        WatchSignalView::Timeout => if flush_due(s.last_event, now) {
            WatchStepView::Flush(FlushPlanView { upserts: s.upsert, deletes: s.delete })
        } else {
            WatchStepView::Wait
        },
        WatchSignalView::Disconnected => WatchStepView::Stop(
            FlushPlanView { upserts: s.upsert, deletes: s.delete },
        ),
    }
}

impl WatchState {
    /// Neither pending set names a path twice.
    pub open spec fn wf(&self) -> bool {
        self.pending_upsert.wf() && self.pending_delete.wf()
    }

    /// The idle debouncer, with nothing pending.
    pub fn new() -> (s: Self)
        ensures
            s.wf(),
            s@.upsert.len() == 0,
            s@.delete.len() == 0,
            s@.last_event is None,
    {
        WatchState {
            pending_upsert: PathSet::new(),
            pending_delete: PathSet::new(),
            last_event: None,
        }
    }

    /// Takes one signal that came when the clock read `now_ms`, and says
    /// what the loop does next.
    pub fn step(&mut self, signal: WatchSignal, now_ms: u64) -> (step: WatchStep)
        requires
            old(self).wf(),
        ensures
            final(self).wf(),
            final(self)@ == next_state(old(self)@, signal@, now_ms),
            step@ == next_step(old(self)@, signal@, now_ms),
    {
        match signal {
            WatchSignal::Change(event) => {
                queue_event(event, &mut self.pending_upsert, &mut self.pending_delete);
                self.last_event = Some(now_ms);
                WatchStep::Wait
            },
            WatchSignal::Fault => WatchStep::Wait,
            WatchSignal::Timeout => {
                let due = match self.last_event {
                    Some(last) => now_ms >= last && now_ms - last >= DEBOUNCE_MS,
                    None => false,
                };
                if due {
                    let plan = flush_pending(&mut self.pending_upsert, &mut self.pending_delete);
                    self.last_event = None;
                    assert(self@.upsert =~= Seq::empty());
                    assert(self@.delete =~= Seq::empty());
                    WatchStep::Flush(plan)
                } else {
                    WatchStep::Wait
                }
            },
            WatchSignal::Disconnected => {
                let plan = flush_pending(&mut self.pending_upsert, &mut self.pending_delete);
                assert(self@.upsert =~= Seq::empty());
                assert(self@.delete =~= Seq::empty());
                WatchStep::Stop(plan)
            },
        }
    }
}

/// An event of one path.
pub open spec fn single_change(kind: ChangeKind, p: Seq<char>) -> WatchSignalView {
    WatchSignalView::Change(FileEventView { kind, paths: seq![p] })
}

/// Whatever was pending, after an event that names `p` the path is pending
/// in the set of that event's intent and in no other, and no path is pending
/// twice.
pub proof fn law_latest_intent_wins(s: WatchStateView, kind: ChangeKind, p: Seq<char>, now: u64)
    requires
        s.wf(),
        kind != ChangeKind::Other,
    ensures
        ({
            let t = next_state(s, single_change(kind, p), now);
            &&& t.wf()
            &&& t.upsert.contains(p) == (kind != ChangeKind::Remove)
            &&& t.delete.contains(p) == (kind == ChangeKind::Remove)
        }),
{
    let ps = seq![p];
    assert(ps.drop_first() =~= Seq::<Seq<char>>::empty());
    assert(ps[0] == p);
    lemma_with_path(s.upsert, p);
    lemma_without_path(s.upsert, p);
    lemma_with_path(s.delete, p);
    lemma_without_path(s.delete, p);
    assert(with_paths(s.upsert, ps) == with_path(s.upsert, p)) by {
        reveal_with_fuel(with_paths, 2);
    }
    assert(without_paths(s.upsert, ps) == without_path(s.upsert, p)) by {
        reveal_with_fuel(without_paths, 2);
    }
    assert(with_paths(s.delete, ps) == with_path(s.delete, p)) by {
        reveal_with_fuel(with_paths, 2);
    }
    assert(without_paths(s.delete, ps) == without_path(s.delete, p)) by {
        reveal_with_fuel(without_paths, 2);
    }
    assert(s.upsert.to_set().insert(p).contains(p));
    assert(!s.upsert.to_set().remove(p).contains(p));
    assert(s.delete.to_set().insert(p).contains(p));
    assert(!s.delete.to_set().remove(p).contains(p));
}

/// A create, a modify and a remove of one path, followed by a quiet period,
/// are flushed as exactly one delete of that path and no upsert of it.
pub proof fn law_burst_flushes_one_delete(
    s: WatchStateView,
    p: Seq<char>,
    t1: u64,
    t2: u64,
    t3: u64,
    t4: u64,
)
    requires
        s.wf(),
        t3 <= t4,
        t4 - t3 >= DEBOUNCE_MS,
    ensures
        ({
            let s1 = next_state(s, single_change(ChangeKind::Create, p), t1);
            let s2 = next_state(s1, single_change(ChangeKind::Modify, p), t2);
            let s3 = next_state(s2, single_change(ChangeKind::Remove, p), t3);
            &&& next_step(s3, WatchSignalView::Timeout, t4) matches WatchStepView::Flush(plan)
            &&& plan.deletes.to_multiset().count(p) == 1
            &&& plan.upserts.to_multiset().count(p) == 0
            &&& next_state(s3, WatchSignalView::Timeout, t4).upsert.len() == 0
            &&& next_state(s3, WatchSignalView::Timeout, t4).delete.len() == 0
            &&& next_state(s3, WatchSignalView::Timeout, t4).last_event is None
        }),
{
    broadcast use vstd::seq_lib::group_to_multiset_ensures;

    law_latest_intent_wins(s, ChangeKind::Create, p, t1);
    let s1 = next_state(s, single_change(ChangeKind::Create, p), t1);
    law_latest_intent_wins(s1, ChangeKind::Modify, p, t2);
    let s2 = next_state(s1, single_change(ChangeKind::Modify, p), t2);
    law_latest_intent_wins(s2, ChangeKind::Remove, p, t3);
    let s3 = next_state(s2, single_change(ChangeKind::Remove, p), t3);
    s3.delete.lemma_multiset_has_no_duplicates();
    assert(s3.delete.to_multiset().count(p) > 0);
    assert(s3.upsert.to_multiset().count(p) == 0);
}

/// A change moves its paths between the pending sets: a create or a modify
/// adds them to the upserts and takes them out of the deletes, a remove does
/// the reverse, and any other kind leaves both as they are. No path becomes
/// pending twice.
pub proof fn law_change_moves_paths(s: WatchStateView, event: FileEventView, now: u64)
    requires
        s.wf(),
    ensures
        ({
            let t = next_state(s, WatchSignalView::Change(event), now);
            let paths = event.paths.to_set();
            &&& t.wf()
            &&& t.last_event == Some(now)
            &&& match event.kind {
                ChangeKind::Create | ChangeKind::Modify => {
                    &&& t.upsert.to_set() == s.upsert.to_set().union(paths)
                    &&& t.delete.to_set() == s.delete.to_set().difference(paths)
                },
                ChangeKind::Remove => {
                    &&& t.upsert.to_set() == s.upsert.to_set().difference(paths)
                    &&& t.delete.to_set() == s.delete.to_set().union(paths)
                },
                ChangeKind::Other => t.upsert == s.upsert && t.delete == s.delete,
            }
        }),
{
    lemma_with_paths(s.upsert, event.paths);
    lemma_without_paths(s.upsert, event.paths);
    lemma_with_paths(s.delete, event.paths);
    lemma_without_paths(s.delete, event.paths);
}

/// No path is pending both as an upsert and as a delete: where the two sets
/// are apart, they are apart after every signal.
pub proof fn law_pending_sets_stay_apart(s: WatchStateView, signal: WatchSignalView, now: u64)
    requires
        s.wf(),
        s.upsert.to_set().disjoint(s.delete.to_set()),
    ensures
        next_state(s, signal, now).wf(),
        next_state(s, signal, now).upsert.to_set().disjoint(
            next_state(s, signal, now).delete.to_set(),
        ),
{
    let t = next_state(s, signal, now);
    match signal {
        WatchSignalView::Change(event) => {
            law_change_moves_paths(s, event, now);
        },
        _ => {},
    }
    assert(Seq::<Seq<char>>::empty().to_set() =~= Set::<Seq<char>>::empty());
    assert forall|p: Seq<char>| !(t.upsert.to_set().contains(p) && t.delete.to_set().contains(
        p,
    )) by {
        if s.upsert.to_set().contains(p) && s.delete.to_set().contains(p) {
        }
    }
}

} // verus!
