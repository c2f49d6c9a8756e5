//! Listener tables and the routing of an event through a chain of event
//! targets. Listeners themselves are code of the program that uses the
//! library; the routing is a state machine that says which listener to
//! call next and, from what each call returned, what follows.
use vstd::prelude::*;
use crate::event::{BubbleEventState, Detail, DetailView, Event, EventView, text_of};
use crate::text::{lower, same_text, to_lower};

verus! {

/// A registered listener: its id and whether it is removed after its
/// first successful call.
#[derive(Clone, Copy, Debug, PartialEq, Eq, Structural)]
pub struct Handler {
    pub id: usize,
    pub once: bool,
}

/// The listeners of one event target, by lowercase event name, each list
/// in registration order.
pub struct HandlerTable {
    entries: Vec<(String, Vec<Handler>)>,
}

impl HandlerTable {
    pub closed spec fn wf(self) -> bool {
        forall|i: int, j: int|
            0 <= i < j < self.entries@.len() ==> #[trigger] self.entries@[i].0@
                != #[trigger] self.entries@[j].0@
    }

    closed spec fn index_of(self, name: Seq<char>) -> int {
        choose|i: int| 0 <= i < self.entries@.len() && self.entries@[i].0@ == name
    }
}

impl View for HandlerTable {
    type V = Map<Seq<char>, Seq<Handler>>;

    closed spec fn view(&self) -> Map<Seq<char>, Seq<Handler>> {
        Map::new(
            |n: Seq<char>| exists|i: int| 0 <= i < self.entries@.len() && self.entries@[i].0@ == n,
            |n: Seq<char>| self.entries@[self.index_of(n)].1@,
        )
    }
}

impl HandlerTable {
    /// Every list of the table fits in memory.
    pub proof fn lemma_lists_fit(self)
        requires
            self.wf(),
        ensures
            forall|k: Seq<char>| #[trigger] self@.contains_key(k) ==> self@[k].len() <= usize::MAX,
    {
        assert forall|k: Seq<char>| #[trigger] self@.contains_key(k) implies self@[k].len() <= usize::MAX by {
            let i = self.index_of(k);
            assert(0 <= i < self.entries@.len() && self.entries@[i].0@ == k);
            assert(self.entries@[i].1.len() == self.entries@[i].1@.len());
        }
    }
}

impl HandlerTable {
    proof fn lemma_view_at(self, i: int)
        requires
            self.wf(),
            0 <= i < self.entries@.len(),
        ensures
            self@.contains_key(self.entries@[i].0@),
            self@[self.entries@[i].0@] == self.entries@[i].1@,
            self.index_of(self.entries@[i].0@) == i,
    {
        let n = self.entries@[i].0@;
        assert(exists|k: int| 0 <= k < self.entries@.len() && self.entries@[k].0@ == n);
        let k = self.index_of(n);
        if k != i {
            if k < i {
                assert(self.entries@[k].0@ != self.entries@[i].0@);
            } else {
                assert(self.entries@[i].0@ != self.entries@[k].0@);
            }
        }
    }

    pub fn new() -> (t: Self)
        ensures
            t.wf(),
            t@ == Map::<Seq<char>, Seq<Handler>>::empty(),
    {
        let t = HandlerTable { entries: Vec::new() };
        assert(t@ =~= Map::<Seq<char>, Seq<Handler>>::empty());
        t
    }

    pub fn is_empty(&self) -> (r: bool)
        ensures
            r == (self@.dom() == Set::<Seq<char>>::empty()),
    {
        if self.entries.len() == 0 {
            assert(self@.dom() =~= Set::<Seq<char>>::empty());
            true
        } else {
            assert(self@.dom().contains(self.entries@[0].0@));
            false
        }
    }

    fn find(&self, name: &str) -> (r: Option<usize>)
        requires
            self.wf(),
        ensures
            match r {
                Some(i) => i < self.entries@.len() && self.entries@[i as int].0@ == name@,
                None => !self@.contains_key(name@),
            },
    {
        let mut i: usize = 0;
        while i < self.entries.len()
            invariant
                i <= self.entries@.len(),
                forall|k: int| 0 <= k < i ==> self.entries@[k].0@ != name@,
            decreases self.entries.len() - i,
        {
            if same_text(self.entries[i].0.as_str(), name) {
                return Some(i);
            }
            i = i + 1;
        }
        None
    }

    /// Whether there is a list for `name`.
    pub fn has(&self, name: &str) -> (r: bool)
        requires
            self.wf(),
        ensures
            r == self@.contains_key(name@),
    {
        match self.find(name) {
            Some(i) => {
                proof {
                    self.lemma_view_at(i as int);
                }
                true
            },
            None => false,
        }
    }

    /// Takes the list for `name` out of the table.
    pub fn take(&mut self, name: &str) -> (r: Option<Vec<Handler>>)
        requires
            old(self).wf(),
        ensures
            final(self).wf(),
            final(self)@ == old(self)@.remove(name@),
            match r {
                Some(l) => old(self)@.contains_key(name@) && l@ == old(self)@[name@],
                None => !old(self)@.contains_key(name@),
            },
    {
        let ghost pre = *self;
        match self.find(name) {
            Some(i) => {
                proof {
                    pre.lemma_view_at(i as int);
                }
                let (_, list) = self.entries.remove(i);
                proof {
                    assert forall|a: int, b: int|
                        0 <= a < b < self.entries@.len() implies #[trigger] self.entries@[a].0@
                        != #[trigger] self.entries@[b].0@ by {
                        let pa = if a < i {
                            a
                        } else {
                            a + 1
                        };
                        let pb = if b < i {
                            b
                        } else {
                            b + 1
                        };
                        assert(self.entries@[a] == pre.entries@[pa]);
                        assert(self.entries@[b] == pre.entries@[pb]);
                    }
                    assert forall|n: Seq<char>| #[trigger]
                        self@.contains_key(n) <==> pre@.remove(name@).contains_key(n) by {
                        if self@.contains_key(n) {
                            let k = choose|k: int|
                                0 <= k < self.entries@.len() && self.entries@[k].0@ == n;
                            let pk = if k < i {
                                k
                            } else {
                                k + 1
                            };
                            assert(self.entries@[k] == pre.entries@[pk]);
                            if n == name@ {
                                if pk < i {
                                    assert(pre.entries@[pk].0@ != pre.entries@[i as int].0@);
                                } else {
                                    assert(pre.entries@[i as int].0@ != pre.entries@[pk].0@);
                                }
                            }
                        }
                        if pre@.remove(name@).contains_key(n) {
                            let k = choose|k: int|
                                0 <= k < pre.entries@.len() && pre.entries@[k].0@ == n;
                            assert(k != i);
                            let sk = if k < i {
                                k
                            } else {
                                k - 1
                            };
                            assert(self.entries@[sk] == pre.entries@[k]);
                        }
                    }
                    assert forall|n: Seq<char>| #[trigger]
                        self@.contains_key(n) implies self@[n] == pre@.remove(name@)[n] by {
                        let k = choose|k: int|
                            0 <= k < self.entries@.len() && self.entries@[k].0@ == n;
                        self.lemma_view_at(k);
                        let pk = if k < i {
                            k
                        } else {
                            k + 1
                        };
                        assert(self.entries@[k] == pre.entries@[pk]);
                        pre.lemma_view_at(pk);
                    }
                    assert(self@ =~= pre@.remove(name@));
                }
                Some(list)
            },
            None => {
                assert(self@ =~= pre@.remove(name@));
                None
            },
        }
    }

    /// Sets the list for `name`.
    pub fn put(&mut self, name: &str, list: Vec<Handler>)
        requires
            old(self).wf(),
        ensures
            final(self).wf(),
            final(self)@ == old(self)@.insert(name@, list@),
    {
        let ghost pre = *self;
        assert(pre.wf());
        let ghost v = list@;
        match self.find(name) {
            Some(i) => {
                let key = String::from_str(name);
                self.entries.set(i, (key, list));
                proof {
                    assert forall|a: int, b: int|
                        0 <= a < b < self.entries@.len() implies #[trigger] self.entries@[a].0@
                        != #[trigger] self.entries@[b].0@ by {
                        assert(pre.entries@[a].0@ == self.entries@[a].0@);
                        assert(pre.entries@[b].0@ == self.entries@[b].0@);
                    }
                    self.lemma_view_at(i as int);
                    assert forall|n: Seq<char>| #[trigger]
                        self@.contains_key(n) <==> pre@.insert(name@, v).contains_key(n) by {
                        if pre@.contains_key(n) {
                            let k = choose|k: int|
                                0 <= k < pre.entries@.len() && pre.entries@[k].0@ == n;
                            assert(self.entries@[k].0@ == n || k == i);
                        }
                        if self@.contains_key(n) {
                            let k = choose|k: int|
                                0 <= k < self.entries@.len() && self.entries@[k].0@ == n;
                            assert(pre.entries@[k].0@ == n || k == i);
                        }
                    }
                    assert forall|n: Seq<char>| #[trigger]
                        self@.contains_key(n) implies self@[n] == pre@.insert(name@, v)[n] by {
                        let k = choose|k: int|
                            0 <= k < self.entries@.len() && self.entries@[k].0@ == n;
                        self.lemma_view_at(k);
                        if k != i {
                            pre.lemma_view_at(k);
                        }
                    }
                    assert(self@ =~= pre@.insert(name@, v));
                }
            },
            None => {
                let key = String::from_str(name);
                self.entries.push((key, list));
                proof {
                    let last = self.entries@.len() - 1;
                    assert forall|a: int, b: int|
                        0 <= a < b < self.entries@.len() implies #[trigger] self.entries@[a].0@
                        != #[trigger] self.entries@[b].0@ by {
                        if b == last {
                            assert(self.entries@[a] == pre.entries@[a]);
                            assert(self.entries@[b].0@ == name@);
                            if pre.entries@[a].0@ == name@ {
                                pre.lemma_view_at(a);
                            }
                        } else {
                            assert(pre.entries@[a] == self.entries@[a]);
                            assert(pre.entries@[b] == self.entries@[b]);
                            assert(pre.entries@[a].0@ != pre.entries@[b].0@);
                        }
                    }
                    self.lemma_view_at(last);
                    assert forall|n: Seq<char>| #[trigger]
                        self@.contains_key(n) <==> pre@.insert(name@, v).contains_key(n) by {
                        if pre@.contains_key(n) {
                            let k = choose|k: int|
                                0 <= k < pre.entries@.len() && pre.entries@[k].0@ == n;
                            assert(self.entries@[k] == pre.entries@[k]);
                        }
                        if self@.contains_key(n) {
                            let k = choose|k: int|
                                0 <= k < self.entries@.len() && self.entries@[k].0@ == n;
                            if k < last {
                                assert(self.entries@[k] == pre.entries@[k]);
                            }
                        }
                    }
                    assert forall|n: Seq<char>| #[trigger]
                        self@.contains_key(n) implies self@[n] == pre@.insert(name@, v)[n] by {
                        let k = choose|k: int|
                            0 <= k < self.entries@.len() && self.entries@[k].0@ == n;
                        self.lemma_view_at(k);
                        if k < last {
                            assert(self.entries@[k] == pre.entries@[k]);
                            pre.lemma_view_at(k);
                        }
                    }
                    assert(self@ =~= pre@.insert(name@, v));
                }
            },
        }
    }

    /// Appends `handler` to the list for the lowercase form of `event_type`
    /// and gives back its id.
    pub fn add_handler(&mut self, event_type: &str, handler: Handler) -> (r: usize)
        requires
            old(self).wf(),
        ensures
            final(self).wf(),
            r == handler.id,
            final(self)@ == old(self)@.insert(
                lower(event_type@),
                (if old(self)@.contains_key(lower(event_type@)) {
                    old(self)@[lower(event_type@)]
                } else {
                    Seq::empty()
                }).push(handler),
            ),
    {
        let key = to_lower(event_type);
        let mut list = match self.take(key.as_str()) {
            Some(l) => l,
            None => Vec::new(),
        };
        list.push(handler);
        self.put(key.as_str(), list);
        proof {
            assert(self@ =~= old(self)@.insert(
                lower(event_type@),
                (if old(self)@.contains_key(lower(event_type@)) {
                    old(self)@[lower(event_type@)]
                } else {
                    Seq::empty()
                }).push(handler),
            ));
        }
        handler.id
    }
}


/// A handle on an event target.
#[derive(Clone, Copy, Debug, PartialEq, Eq, Structural)]
pub struct TargetId {
    pub index: usize,
}

struct Target {
    table: HandlerTable,
    parent: Option<usize>,
}

/// All event targets of a program, each with its listener table and an
/// optional parent to which events bubble; listener ids come from one
/// counter shared by all targets of this value. The counter belongs to the
/// value, not to the process: two `EventTargets` values hand out the same
/// ids, so a program keeps all its targets in one value (as `new_target`
/// makes possible), and ids from different values are not to be mixed.
pub struct EventTargets {
    targets: Vec<Target>,
    next_id: usize,
}

/// The targets as plain values.
#[verifier::ext_equal]
pub struct TargetsView {
    pub tables: Seq<Map<Seq<char>, Seq<Handler>>>,
    pub parents: Seq<Option<usize>>,
    pub next_id: usize,
}

impl View for EventTargets {
    type V = TargetsView;

    closed spec fn view(&self) -> TargetsView {
        TargetsView {
            tables: self.targets@.map_values(|t: Target| t.table@),
            parents: self.targets@.map_values(|t: Target| t.parent),
            next_id: self.next_id,
        }
    }
}

/// Every parent was made before its child.
pub open spec fn parents_before(v: TargetsView) -> bool {
    &&& v.parents.len() == v.tables.len()
    &&& forall|i: int|
        0 <= i < v.parents.len() && (#[trigger] v.parents[i]) is Some ==> v.parents[i]->0 < i
}

pub open spec fn with_table(v: TargetsView, t: int, m: Map<Seq<char>, Seq<Handler>>) -> TargetsView {
    TargetsView { tables: v.tables.update(t, m), parents: v.parents, next_id: v.next_id }
}

impl EventTargets {
    pub closed spec fn wf(&self) -> bool {
        &&& forall|i: int| 0 <= i < self.targets@.len() ==> (#[trigger] self.targets@[i]).table.wf()
        &&& parents_before(self@)
    }

    pub fn new() -> (r: Self)
        ensures
            r.wf(),
            r@.tables.len() == 0,
            r@.parents.len() == 0,
            r@.next_id == 0,
    {
        let r = EventTargets { targets: Vec::new(), next_id: 0 };
        r
    }

    /// Well-formed targets have a parent link for each target and listener
    /// lists that fit in memory, as `law_listeners_along_chain` asks.
    pub proof fn lemma_view_fits(&self)
        requires
            self.wf(),
        ensures
            self@.parents.len() == self@.tables.len(),
            forall|x: int| #[trigger] lists_fit(self@, x),
    {
        assert forall|x: int| #[trigger] lists_fit(self@, x) by {
            assert forall|i: int, k: Seq<char>|
                #![trigger self@.tables[i].contains_key(k)]
                0 <= i <= x && i < self@.tables.len() && self@.tables[i].contains_key(k) implies self@.tables[i][k].len()
                    <= usize::MAX by {
                let tb = self.targets@[i].table;
                assert(self@.tables[i] == tb@);
                tb.lemma_lists_fit();
                assert(tb@.contains_key(k));
            }
        }
    }

    /// A new target with no listeners, bubbling to `parent` when given.
    pub fn new_target(&mut self, parent: Option<TargetId>) -> (r: TargetId)
        requires
            old(self).wf(),
            parent matches Some(p) ==> p.index < old(self)@.tables.len(),
        ensures
            final(self).wf(),
            r.index == old(self)@.tables.len(),
            final(self)@.tables == old(self)@.tables.push(Map::empty()),
            final(self)@.parents == old(self)@.parents.push(
                match parent {
                    Some(p) => Some(p.index),
                    None => None,
                },
            ),
            final(self)@.next_id == old(self)@.next_id,
            final(self)@ == apply_op(
                old(self)@,
                TargetOp::NewTarget(
                    match parent {
                        Some(p) => Some(p.index),
                        None => None,
                    },
                ),
            ),
    {
        let ghost pre = self@;
        let index = self.targets.len();
        let parent_index = match parent {
            Some(p) => Some(p.index),
            None => None,
        };
        self.targets.push(Target { table: HandlerTable::new(), parent: parent_index });
        proof {
            assert(self@.tables =~= pre.tables.push(Map::empty()));
            assert(self@.parents =~= pre.parents.push(parent_index));
            assert forall|i: int| 0 <= i < self.targets@.len() implies (#[trigger] self.targets@[i]).table.wf() by {
                if i < index {
                    assert(self.targets@[i] == old(self).targets@[i]);
                }
            }
            assert forall|i: int|
                0 <= i < self@.parents.len() && (#[trigger] self@.parents[i]) is Some implies self@.parents[i]->0
                < i by {
                if i < index {
                    assert(self@.parents[i] == pre.parents[i]);
                }
            }
        }
        TargetId { index }
    }

    fn add_listener(&mut self, t: TargetId, event_type: &str, once: bool) -> (r: usize)
        requires
            old(self).wf(),
            t.index < old(self)@.tables.len(),
        ensures
            final(self).wf(),
            r == old(self)@.next_id,
            final(self)@.next_id == old(self)@.next_id.wrapping_add(1),
            final(self)@.parents == old(self)@.parents,
            final(self)@.tables == old(self)@.tables.update(
                t.index as int,
                old(self)@.tables[t.index as int].insert(
                    lower(event_type@),
                    (if old(self)@.tables[t.index as int].contains_key(lower(event_type@)) {
                        old(self)@.tables[t.index as int][lower(event_type@)]
                    } else {
                        Seq::empty()
                    }).push(Handler { id: r, once }),
                ),
            ),
    {
        let ghost pre = self@;
        let id = self.next_id;
        self.next_id = self.next_id.wrapping_add(1);
        assert(self.targets@[t.index as int].table.wf());
        self.targets[t.index].table.add_handler(event_type, Handler { id, once });
        proof {
            assert(self@.parents =~= pre.parents);
            assert(self@.tables =~= pre.tables.update(
                t.index as int,
                pre.tables[t.index as int].insert(
                    lower(event_type@),
                    (if pre.tables[t.index as int].contains_key(lower(event_type@)) {
                        pre.tables[t.index as int][lower(event_type@)]
                    } else {
                        Seq::empty()
                    }).push(Handler { id, once }),
                ),
            ));
            assert forall|i: int| 0 <= i < self.targets@.len() implies (#[trigger] self.targets@[i]).table.wf() by {
                if i != t.index {
                    assert(self.targets@[i] == old(self).targets@[i]);
                }
            }
        }
        id
    }

    /// Registers a listener for events of type `event_type` (the name is
    /// matched without regard to ASCII case) and gives back its id: the
    /// next value of this `EventTargets`' counter, unique among the ids it
    /// has handed out.
    pub fn add_event_listener(&mut self, t: TargetId, event_type: &str) -> (r: usize)
        requires
            old(self).wf(),
            t.index < old(self)@.tables.len(),
        ensures
            final(self).wf(),
            r == old(self)@.next_id,
            final(self)@.next_id == old(self)@.next_id.wrapping_add(1),
            final(self)@.parents == old(self)@.parents,
            final(self)@.tables == old(self)@.tables.update(
                t.index as int,
                old(self)@.tables[t.index as int].insert(
                    lower(event_type@),
                    (if old(self)@.tables[t.index as int].contains_key(lower(event_type@)) {
                        old(self)@.tables[t.index as int][lower(event_type@)]
                    } else {
                        Seq::empty()
                    }).push(Handler { id: r, once: false }),
                ),
            ),
            final(self)@ == apply_op(old(self)@, TargetOp::Add { target: t.index, event_type: event_type@, once: false }),
    {
        self.add_listener(t, event_type, false)
    }

    /// As `add_event_listener`, for a listener that is dropped after its
    /// first call that returns normally.
    pub fn add_event_listener_once(&mut self, t: TargetId, event_type: &str) -> (r: usize)
        requires
            old(self).wf(),
            t.index < old(self)@.tables.len(),
        ensures
            final(self).wf(),
            r == old(self)@.next_id,
            final(self)@.next_id == old(self)@.next_id.wrapping_add(1),
            final(self)@.parents == old(self)@.parents,
            final(self)@.tables == old(self)@.tables.update(
                t.index as int,
                old(self)@.tables[t.index as int].insert(
                    lower(event_type@),
                    (if old(self)@.tables[t.index as int].contains_key(lower(event_type@)) {
                        old(self)@.tables[t.index as int][lower(event_type@)]
                    } else {
                        Seq::empty()
                    }).push(Handler { id: r, once: true }),
                ),
            ),
            final(self)@ == apply_op(old(self)@, TargetOp::Add { target: t.index, event_type: event_type@, once: true }),
    {
        self.add_listener(t, event_type, true)
    }

    /// Whether the target has any listener list at all (a list stays
    /// registered, possibly empty, once its event type was listened for).
    pub fn has_listener_lists(&self, t: TargetId) -> (r: bool)
        requires
            self.wf(),
            t.index < self@.tables.len(),
        ensures
            r == (self@.tables[t.index as int].dom() != Set::<Seq<char>>::empty()),
    {
        !self.targets[t.index].table.is_empty()
    }

    /// Removing a listener searches the target's lists with a range that
    /// reaches one past the end of each list, which panics on the first
    /// list it meets; it can therefore only be asked of a target that has
    /// no list, where it finds nothing.
    pub fn remove_event_listener(&self, t: TargetId, id: usize) -> (r: Option<Handler>)
        requires
            self.wf(),
            t.index < self@.tables.len(),
            self@.tables[t.index as int].dom() == Set::<Seq<char>>::empty(),
        ensures
            r is None,
    {
        None
    }
}

/// Where a dispatch stands.
#[derive(Clone, Copy, Debug, PartialEq, Eq, Structural)]
pub enum Phase {
    /// About to handle the event at the current target.
    Enter,
    /// Going through the listener list taken from the current target.
    Run,
    /// Waiting for what the listener at `pos` returned.
    Await,
}

/// An event on its way through the targets.
pub struct Dispatch {
    target: usize,
    error_count: usize,
    event: Event,
    key: String,
    list: Vec<Handler>,
    pos: usize,
    kept: Vec<Handler>,
    phase: Phase,
}

#[verifier::ext_equal]
pub struct DispatchView {
    pub target: usize,
    pub error_count: usize,
    pub event: EventView,
    pub key: Seq<char>,
    pub list: Seq<Handler>,
    pub pos: usize,
    pub kept: Seq<Handler>,
    pub phase: Phase,
}

impl View for Dispatch {
    type V = DispatchView;

    closed spec fn view(&self) -> DispatchView {
        DispatchView {
            target: self.target,
            error_count: self.error_count,
            event: self.event@,
            key: self.key@,
            list: self.list@,
            pos: self.pos,
            kept: self.kept@,
            phase: self.phase,
        }
    }
}

/// What the caller does next: call the listener, or take the result.
pub enum DispatchStep {
    Call(Handler),
    Done(Result<(), String>),
}

pub enum StepView {
    Call(Handler),
    Done(Result<(), Seq<char>>),
}

impl View for DispatchStep {
    type V = StepView;

    open spec fn view(&self) -> StepView {
        match self {
            DispatchStep::Call(h) => StepView::Call(*h),
            DispatchStep::Done(Ok(())) => StepView::Done(Ok(())),
            DispatchStep::Done(Err(s)) => StepView::Done(Err(s@)),
        }
    }
}

pub open spec fn limit_message(name: Seq<char>) -> Seq<char> {
    "Recursion limit Hit when handleing '"@ + name + "' Event!"@
}

pub open spec fn unknown_error() -> Seq<char> {
    "Unknown Error Event Message"@
}

/// The event a listener failure turns into.
pub open spec fn error_event(msg: Seq<char>) -> EventView {
    EventView { name: "Error"@, detail: DetailView::Text(msg), bubbles: BubbleEventState::Continue, actionable: true }
}

/// After the current target handled the event without error: `Ok(p)` to
/// go on at target `p`, or `Err(result)` to stop with that result. An
/// event that bubbles goes to the parent; one that does not goes there
/// only when it is named "error", and fails with its text at the top.
pub open spec fn after_ok(t: TargetsView, d: DispatchView) -> Result<usize, Result<(), Seq<char>>> {
    if d.event.bubbles == BubbleEventState::Continue {
        match t.parents[d.target as int] {
            Some(p) => Ok(p),
            None => Err(Ok(())),
        }
    } else if d.event.name == "error"@ {
        match t.parents[d.target as int] {
            Some(p) => Ok(p),
            None => Err(Err(match text_of(d.event.detail) {
                Some(m) => m,
                None => unknown_error(),
            })),
        }
    } else {
        Err(Ok(()))
    }
}

pub open spec fn budget(ec: usize) -> nat {
    if ec <= 11 {
        (11 - ec) as nat
    } else {
        0
    }
}

/// Handling at the current target: past ten error re-dispatches the
/// dispatch fails; otherwise the listeners for the lowercase event name
/// are taken out and gone through, or, with none, the event moves on.
pub open spec fn enter(t: TargetsView, d: DispatchView) -> (TargetsView, DispatchView, StepView)
    decreases budget(d.error_count), 3 * d.target + 2, 0nat,
{
    if d.error_count > 10 {
        (t, d, StepView::Done(Err(limit_message(d.event.name))))
    } else {
        let key = lower(d.event.name);
        let table = t.tables[d.target as int];
        if table.contains_key(key) {
            run(
                with_table(t, d.target as int, table.remove(key)),
                DispatchView { key, list: table[key], pos: 0, kept: Seq::empty(), phase: Phase::Run, ..d },
            )
        } else {
            match after_ok(t, d) {
                Ok(p) => if p < d.target {
                    enter(t, DispatchView { target: p, phase: Phase::Enter, ..d })
                } else {
                    (t, d, StepView::Done(Ok(())))
                },
                Err(r) => (t, d, StepView::Done(r)),
            }
        }
    }
}

/// The next listener is called, or the list is done.
pub open spec fn run(t: TargetsView, d: DispatchView) -> (TargetsView, DispatchView, StepView)
    decreases budget(d.error_count), 3 * d.target + 1, 0nat,
{
    if d.pos < d.list.len() {
        (t, DispatchView { phase: Phase::Await, ..d }, StepView::Call(d.list[d.pos as int]))
    } else {
        finish(t, d, Ok(()))
    }
}

/// The list goes back into the table as the listeners kept followed by
/// those not reached; a failure turns the event into an error event that
/// starts again at the same target.
pub open spec fn finish(t: TargetsView, d: DispatchView, res: Result<(), Seq<char>>) -> (
    TargetsView,
    DispatchView,
    StepView,
)
    decreases budget(d.error_count), 3 * d.target, 0nat,
{
    let t1 = with_table(
        t,
        d.target as int,
        t.tables[d.target as int].insert(d.key, d.kept + d.list.skip(d.pos as int)),
    );
    match res {
        Err(msg) => {
            let d1 = DispatchView {
                event: error_event(msg),
                error_count: (d.error_count + 1) as usize,
                phase: Phase::Enter,
                ..d
            };
            if d.error_count + 1 > 10 || d.error_count + 1 > usize::MAX {
                (t1, d1, StepView::Done(Err(limit_message(d1.event.name))))
            } else {
                enter(t1, d1)
            }
        },
        Ok(()) => match after_ok(t1, d) {
            Ok(p) => if p < d.target {
                enter(t1, DispatchView { target: p, phase: Phase::Enter, ..d })
            } else {
                (t1, d, StepView::Done(Ok(())))
            },
            Err(r) => (t1, d, StepView::Done(r)),
        },
    }
}

/// What follows the outcome of the awaited listener: a listener that
/// returned normally stays unless it was registered once; one that failed
/// is dropped and ends the list; an event that stops bubbling ends the
/// list after the listener.
pub open spec fn resume(t: TargetsView, d: DispatchView, outcome: Result<(), Seq<char>>) -> (
    TargetsView,
    DispatchView,
    StepView,
) {
    let h = d.list[d.pos as int];
    let d1 = DispatchView { pos: (d.pos + 1) as usize, ..d };
    match outcome {
        Ok(()) => {
            let d2 = DispatchView {
                kept: if h.once {
                    d.kept
                } else {
                    d.kept.push(h)
                },
                ..d1
            };
            if d.event.bubbles == BubbleEventState::Stop {
                finish(t, d2, Ok(()))
            } else {
                run(t, DispatchView { phase: Phase::Run, ..d2 })
            }
        },
        Err(msg) => finish(t, d1, Err(msg)),
    }
}

/// Routing changes the listener tables only: the parent links and the id
/// counter stay.
proof fn lemma_enter_keeps(t: TargetsView, d: DispatchView)
    ensures
        enter(t, d).0.next_id == t.next_id,
        enter(t, d).0.parents == t.parents,
    decreases budget(d.error_count), 3 * d.target + 2, 0nat,
{
    if d.error_count <= 10 {
        let key = lower(d.event.name);
        let table = t.tables[d.target as int];
        if table.contains_key(key) {
            lemma_run_keeps(
                with_table(t, d.target as int, table.remove(key)),
                DispatchView { key, list: table[key], pos: 0, kept: Seq::empty(), phase: Phase::Run, ..d },
            );
        } else {
            match after_ok(t, d) {
                Ok(p) => if p < d.target {
                    lemma_enter_keeps(t, DispatchView { target: p, phase: Phase::Enter, ..d });
                },
                Err(_) => {},
            }
        }
    }
}

proof fn lemma_run_keeps(t: TargetsView, d: DispatchView)
    ensures
        run(t, d).0.next_id == t.next_id,
        run(t, d).0.parents == t.parents,
    decreases budget(d.error_count), 3 * d.target + 1, 0nat,
{
    if d.pos >= d.list.len() {
        lemma_finish_keeps(t, d, Ok(()));
    }
}

proof fn lemma_finish_keeps(t: TargetsView, d: DispatchView, res: Result<(), Seq<char>>)
    ensures
        finish(t, d, res).0.next_id == t.next_id,
        finish(t, d, res).0.parents == t.parents,
    decreases budget(d.error_count), 3 * d.target, 0nat,
{
    let t1 = with_table(
        t,
        d.target as int,
        t.tables[d.target as int].insert(d.key, d.kept + d.list.skip(d.pos as int)),
    );
    match res {
        Err(msg) => {
            let d1 = DispatchView {
                event: error_event(msg),
                error_count: (d.error_count + 1) as usize,
                phase: Phase::Enter,
                ..d
            };
            if !(d.error_count + 1 > 10 || d.error_count + 1 > usize::MAX) {
                lemma_enter_keeps(t1, d1);
            }
        },
        Ok(()) => match after_ok(t1, d) {
            Ok(p) => if p < d.target {
                lemma_enter_keeps(t1, DispatchView { target: p, phase: Phase::Enter, ..d });
            },
            Err(_) => {},
        },
    }
}

proof fn lemma_resume_keeps(t: TargetsView, d: DispatchView, outcome: Result<(), Seq<char>>)
    ensures
        resume(t, d, outcome).0.next_id == t.next_id,
        resume(t, d, outcome).0.parents == t.parents,
{
    let h = d.list[d.pos as int];
    let d1 = DispatchView { pos: (d.pos + 1) as usize, ..d };
    match outcome {
        Ok(()) => {
            let d2 = DispatchView {
                kept: if h.once {
                    d.kept
                } else {
                    d.kept.push(h)
                },
                ..d1
            };
            if d.event.bubbles == BubbleEventState::Stop {
                lemma_finish_keeps(t, d2, Ok(()));
            } else {
                lemma_run_keeps(t, DispatchView { phase: Phase::Run, ..d2 });
            }
        },
        Err(msg) => lemma_finish_keeps(t, d1, Err(msg)),
    }
}

pub open spec fn settle(t: TargetsView, d: DispatchView) -> (TargetsView, DispatchView, StepView) {
    if d.phase == Phase::Enter {
        enter(t, d)
    } else {
        run(t, d)
    }
}

/// A dispatch waiting for the outcome of a listener call.
pub open spec fn awaiting(t: TargetsView, d: DispatchView) -> bool {
    &&& d.phase == Phase::Await
    &&& d.pos < d.list.len()
    &&& d.target < t.tables.len()
    &&& d.error_count <= 10
}

pub open spec fn result_view(r: Result<(), String>) -> Result<(), Seq<char>> {
    match r {
        Ok(()) => Ok(()),
        Err(s) => Err(s@),
    }
}


/// The dispatch that `dispatch_event` starts.
pub open spec fn initial(target: usize, event: EventView) -> DispatchView {
    DispatchView {
        target,
        error_count: 0,
        event,
        key: Seq::empty(),
        list: Seq::empty(),
        pos: 0,
        kept: Seq::empty(),
        phase: Phase::Enter,
    }
}

fn limit_text(name: &String) -> (r: String)
    ensures
        r@ == limit_message(name@),
{
    let mut out = String::from_str("Recursion limit Hit when handleing '");
    out.append(name.as_str());
    out.append("' Event!");
    out
}

impl Dispatch {
    /// The event as it now stands (a failing listener replaces it by an
    /// error event).
    pub fn event(&self) -> (r: &Event)
        ensures
            r@ == self@.event,
    {
        &self.event
    }

    pub fn into_event(self) -> (r: Event)
        ensures
            r@ == self@.event,
    {
        self.event
    }
}

impl EventTargets {
    fn after_ok_exec(&self, d: &Dispatch) -> (r: Result<usize, Result<(), String>>)
        requires
            self.wf(),
            d.target < self@.tables.len(),
        ensures
            match r {
                Ok(p) => after_ok(self@, d@) == Ok::<usize, Result<(), Seq<char>>>(p) && p < d.target,
                Err(x) => after_ok(self@, d@) == Err::<usize, Result<(), Seq<char>>>(result_view(x)),
            },
    {
        assert(self@.parents[d.target as int] == self.targets@[d.target as int].parent);
        if d.event.bubbles() == BubbleEventState::Continue {
            match self.targets[d.target].parent {
                Some(p) => Ok(p),
                None => Err(Ok(())),
            }
        } else if d.event.is_error() {
            match self.targets[d.target].parent {
                Some(p) => Ok(p),
                None => {
                    let m = match d.event.message() {
                        Some(s) => s.clone(),
                        None => String::from_str("Unknown Error Event Message"),
                    };
                    Err(Err(m))
                },
            }
        } else {
            Err(Ok(()))
        }
    }

    /// Puts the list back: the listeners kept, then those not reached.
    fn finish_list(&mut self, d: &Dispatch)
        requires
            old(self).wf(),
            d.target < old(self)@.tables.len(),
            d.pos <= d.list@.len(),
        ensures
            final(self).wf(),
            final(self)@ == with_table(
                old(self)@,
                d.target as int,
                old(self)@.tables[d.target as int].insert(d@.key, d@.kept + d@.list.skip(d@.pos as int)),
            ),
    {
        let ghost pre = self@;
        let mut back: Vec<Handler> = d.kept.clone();
        let mut i: usize = d.pos;
        while i < d.list.len()
            invariant
                d.pos <= i <= d.list@.len(),
                back@ == d.kept@ + d.list@.subrange(d.pos as int, i as int),
            decreases d.list.len() - i,
        {
            back.push(d.list[i]);
            assert(d.kept@ + d.list@.subrange(d.pos as int, i + 1) =~= (d.kept@ + d.list@.subrange(
                d.pos as int,
                i as int,
            )).push(d.list@[i as int]));
            i = i + 1;
        }
        assert(d.list@.subrange(d.pos as int, d.list@.len() as int) =~= d.list@.skip(d.pos as int));
        assert(self.targets@[d.target as int].table.wf());
        self.targets[d.target].table.put(d.key.as_str(), back);
        proof {
            assert(self@.tables =~= pre.tables.update(
                d.target as int,
                pre.tables[d.target as int].insert(d@.key, d@.kept + d@.list.skip(d@.pos as int)),
            ));
            assert(self@.parents =~= pre.parents);
            assert forall|i: int| 0 <= i < self.targets@.len() implies (#[trigger] self.targets@[i]).table.wf() by {
                if i != d.target {
                    assert(self.targets@[i] == old(self).targets@[i]);
                }
            }
        }
    }

    /// Goes on from a dispatch that is about to handle the event at its
    /// target or to call the next listener of its list.
    fn settle_exec(&mut self, d: &mut Dispatch) -> (r: DispatchStep)
        requires
            old(self).wf(),
            old(d)@.target < old(self)@.tables.len(),
            old(d)@.phase != Phase::Await,
            old(d)@.phase == Phase::Run ==> old(d)@.pos <= old(d)@.list.len() && old(d)@.error_count <= 10,
        ensures
            final(self).wf(),
            (final(self)@, final(d)@, r@) == settle(old(self)@, old(d)@),
            r is Call ==> awaiting(final(self)@, final(d)@),
    {
        let ghost goal = settle(self@, d@);
        loop
            invariant
                self.wf(),
                d@.target < self@.tables.len(),
                d@.phase != Phase::Await,
                d@.phase == Phase::Run ==> d@.pos <= d@.list.len() && d@.error_count <= 10,
                settle(self@, d@) == goal,
                goal == settle(old(self)@, old(d)@),
            decreases 3 * d@.target + (if d@.phase == Phase::Enter {
                2nat
            } else {
                1nat
            }),
        {
            if d.phase == Phase::Enter {
                if d.error_count > 10 {
                    let m = limit_text(d.event.name());
                    assert(settle(self@, d@) == (self@, d@, StepView::Done(Err(m@))));
                    return DispatchStep::Done(Err(m));
                }
                let key = to_lower(d.event.name().as_str());
                assert(self.targets@[d.target as int].table.wf());
                assert(self@.tables[d.target as int] == self.targets@[d.target as int].table@);
                if self.targets[d.target].table.has(key.as_str()) {
                    let ghost pre = self@;
                    let list = match self.targets[d.target].table.take(key.as_str()) {
                        Some(l) => l,
                        None => Vec::new(),
                    };
                    proof {
                        assert(self@.tables =~= pre.tables.update(
                            d.target as int,
                            pre.tables[d.target as int].remove(key@),
                        ));
                        assert(self@.parents =~= pre.parents);
                        assert forall|i: int|
                            0 <= i < self.targets@.len() implies (#[trigger] self.targets@[i]).table.wf() by {
                            if i != d.target {
                                assert(self.targets@[i].table.wf());
                            }
                        }
                    }
                    d.key = key;
                    d.list = list;
                    d.pos = 0;
                    d.kept = Vec::new();
                    d.phase = Phase::Run;
                } else {
                    match self.after_ok_exec(d) {
                        Ok(p) => {
                            d.target = p;
                        },
                        Err(r) => {
                            return DispatchStep::Done(r);
                        },
                    }
                }
            } else {
                if d.pos < d.list.len() {
                    d.phase = Phase::Await;
                    return DispatchStep::Call(d.list[d.pos]);
                }
                let ghost t0 = self@;
                self.finish_list(d);
                assert(settle(t0, d@) == finish(t0, d@, Ok(())));
                match self.after_ok_exec(d) {
                    Ok(p) => {
                        d.target = p;
                        d.phase = Phase::Enter;
                    },
                    Err(r) => {
                        assert(finish(t0, d@, Ok(())) == (self@, d@, StepView::Done(result_view(r))));
                        return DispatchStep::Done(r);
                    },
                }
            }
        }
    }

    /// Starts routing `event` from target `t`.
    pub fn dispatch_event(&mut self, t: TargetId, event: Event) -> (r: (Dispatch, DispatchStep))
        requires
            old(self).wf(),
            t.index < old(self)@.tables.len(),
        ensures
            final(self).wf(),
            (final(self)@, r.0@, r.1@) == enter(old(self)@, initial(t.index, event@)),
            final(self)@.next_id == old(self)@.next_id,
            final(self)@ == apply_op(old(self)@, TargetOp::Dispatch { target: t.index, event: event@ }),
            final(self)@.parents == old(self)@.parents,
            r.1 is Call ==> awaiting(final(self)@, r.0@),
    {
        proof {
            lemma_enter_keeps(self@, initial(t.index, event@));
        }
        let mut d = Dispatch {
            target: t.index,
            error_count: 0,
            event,
            key: String::new(),
            list: Vec::new(),
            pos: 0,
            kept: Vec::new(),
            phase: Phase::Enter,
        };
        assert(d@ =~= initial(t.index, event@));
        let step = self.settle_exec(&mut d);
        (d, step)
    }

    /// Goes on after the awaited listener returned `outcome`.
    pub fn resume(&mut self, d: &mut Dispatch, outcome: Result<(), String>) -> (r: DispatchStep)
        requires
            old(self).wf(),
            awaiting(old(self)@, old(d)@),
        ensures
            final(self).wf(),
            (final(self)@, final(d)@, r@) == resume(old(self)@, old(d)@, result_view(outcome)),
            final(self)@.next_id == old(self)@.next_id,
            final(self)@ == apply_op(old(self)@, TargetOp::Resume { dispatch: old(d)@, outcome: result_view(outcome) }),
            final(self)@.parents == old(self)@.parents,
            r is Call ==> awaiting(final(self)@, final(d)@),
    {
        proof {
            lemma_resume_keeps(self@, d@, result_view(outcome));
        }
        let n = d.list.len();
        let h = d.list[d.pos];
        d.pos = d.pos + 1;
        match outcome {
            Ok(()) => {
                if !h.once {
                    d.kept.push(h);
                }
                if d.event.bubbles() == BubbleEventState::Stop {
                    self.finish_list(d);
                    match self.after_ok_exec(d) {
                        Ok(p) => {
                            d.target = p;
                            d.phase = Phase::Enter;
                            self.settle_exec(d)
                        },
                        Err(r) => DispatchStep::Done(r),
                    }
                } else {
                    d.phase = Phase::Run;
                    self.settle_exec(d)
                }
            },
            Err(msg) => {
                self.finish_list(d);
                d.event = Event::new("Error", Detail::Text(msg));
                d.error_count = d.error_count + 1;
                d.phase = Phase::Enter;
                if d.error_count > 10 {
                    return DispatchStep::Done(Err(limit_text(d.event.name())));
                }
                self.settle_exec(d)
            },
        }
    }
}


// ---------------------------------------------------------------------------
// Laws of dispatch.
/// An event dispatched to a target that has listeners for its type (the
/// name taken in lowercase) calls the first of them, the one added first,
/// and holds the list out of the table while it runs.
pub proof fn law_dispatch_calls_first(t: TargetsView, target: usize, ev: EventView)
    requires
        target < t.tables.len(),
        t.tables[target as int].contains_key(lower(ev.name)),
        t.tables[target as int][lower(ev.name)].len() > 0,
    ensures
        enter(t, initial(target, ev)).2 == StepView::Call(t.tables[target as int][lower(ev.name)][0]),
        enter(t, initial(target, ev)).0 == with_table(
            t,
            target as int,
            t.tables[target as int].remove(lower(ev.name)),
        ),
{
    let d0 = initial(target, ev);
    let key = lower(ev.name);
    let table = t.tables[target as int];
    let t1 = with_table(t, target as int, table.remove(key));
    let d1 = DispatchView { key, list: table[key], pos: 0, kept: Seq::empty(), phase: Phase::Run, ..d0 };
    assert(enter(t, d0) == run(t1, d1));
    assert(run(t1, d1) == (t1, DispatchView { phase: Phase::Await, ..d1 }, StepView::Call(d1.list[0])));
}

/// An event with no listeners at its target that bubbles goes on to the
/// target's parent as if it had been dispatched there.
pub proof fn law_bubbles_to_parent(t: TargetsView, target: usize, ev: EventView, p: usize)
    requires
        target < t.tables.len(),
        !t.tables[target as int].contains_key(lower(ev.name)),
        ev.bubbles == BubbleEventState::Continue,
        t.parents[target as int] == Some(p),
        p < target,
    ensures
        enter(t, initial(target, ev)) == enter(t, initial(p, ev)),
{
    assert(initial(p, ev) == DispatchView { target: p, phase: Phase::Enter, ..initial(target, ev) });
}

/// An event with no listeners at its target ends there in success when it
/// does not bubble (`Stop` or `Immediate`), unless it is an "error" event;
/// at a target without parent a non-bubbling "error" event ends in failure
/// with its text (or a fixed text when it has none), and every other
/// event ends in success.
pub proof fn law_unheard_event(t: TargetsView, target: usize, ev: EventView)
    requires
        target < t.tables.len(),
        !t.tables[target as int].contains_key(lower(ev.name)),
    ensures
        ev.bubbles != BubbleEventState::Continue && ev.name != "error"@ ==> enter(t, initial(target, ev)).2
            == StepView::Done(Ok(())),
        t.parents[target as int] is None ==> enter(t, initial(target, ev)).2 == StepView::Done(
            if ev.bubbles != BubbleEventState::Continue && ev.name == "error"@ {
                Err(
                    match text_of(ev.detail) {
                        Some(m) => m,
                        None => unknown_error(),
                    },
                )
            } else {
                Ok(())
            },
        ),
{
    let d0 = initial(target, ev);
    assert(enter(t, d0) == match after_ok(t, d0) {
        Ok(p) => if p < d0.target {
            enter(t, DispatchView { target: p, phase: Phase::Enter, ..d0 })
        } else {
            (t, d0, StepView::Done(Ok(())))
        },
        Err(r) => (t, d0, StepView::Done(r)),
    });
    if t.parents[target as int] is None {
        if ev.bubbles != BubbleEventState::Continue && ev.name == "error"@ {
            assert(after_ok(t, d0) == Err::<usize, Result<(), Seq<char>>>(Err(
                match text_of(ev.detail) {
                    Some(m) => m,
                    None => unknown_error(),
                },
            )));
        } else {
            assert(after_ok(t, d0) == Err::<usize, Result<(), Seq<char>>>(Ok(())));
        }
    }
}

/// The listeners kept after a call that returned normally: all but one
/// added once.
pub open spec fn kept_after_ok(d: DispatchView) -> Seq<Handler> {
    if d.list[d.pos as int].once {
        d.kept
    } else {
        d.kept.push(d.list[d.pos as int])
    }
}

/// After a listener returns normally the next listener of the list is
/// called, in the order they were added, unless the event stopped: an
/// event that bubbles, or that only does not go on to the parent
/// (`Immediate`), reaches every listener at its target. The listener is
/// kept unless it was added once.
pub proof fn law_next_listener(t: TargetsView, d: DispatchView)
    requires
        awaiting(t, d),
        d.list.len() <= usize::MAX,
        d.event.bubbles != BubbleEventState::Stop,
        d.pos + 1 < d.list.len(),
    ensures
        resume(t, d, Ok(())).2 == StepView::Call(d.list[d.pos + 1]),
        resume(t, d, Ok(())).1.kept == kept_after_ok(d),
        resume(t, d, Ok(())).0 == t,
{
    let h = d.list[d.pos as int];
    let d1 = DispatchView { pos: (d.pos + 1) as usize, ..d };
    let d2 = DispatchView { kept: kept_after_ok(d), ..d1 };
    let d3 = DispatchView { phase: Phase::Run, ..d2 };
    assert(resume(t, d, Ok(())) == run(t, d3));
    assert(run(t, d3) == (t, DispatchView { phase: Phase::Await, ..d3 }, StepView::Call(d3.list[d3.pos as int])));
}

/// When the event stops bubbling, the listener that returned normally is
/// the last one called: its list goes back to the table as the listeners
/// kept followed by those not reached, and the dispatch succeeds (an
/// "error" event goes on to the parent all the same).
pub proof fn law_stop_after_listener(t: TargetsView, d: DispatchView)
    requires
        awaiting(t, d),
        d.list.len() <= usize::MAX,
        d.event.bubbles == BubbleEventState::Stop,
        d.event.name != "error"@,
    ensures
        resume(t, d, Ok(())).2 == StepView::Done(Ok(())),
        resume(t, d, Ok(())).0 == with_table(
            t,
            d.target as int,
            t.tables[d.target as int].insert(d.key, kept_after_ok(d) + d.list.skip(d.pos + 1)),
        ),
{
    let d1 = DispatchView { pos: (d.pos + 1) as usize, ..d };
    let d2 = DispatchView { kept: kept_after_ok(d), ..d1 };
    assert(resume(t, d, Ok(())) == finish(t, d2, Ok(())));
    let t1 = with_table(
        t,
        d.target as int,
        t.tables[d.target as int].insert(d2.key, d2.kept + d2.list.skip(d2.pos as int)),
    );
    assert(after_ok(t1, d2) == Err::<usize, Result<(), Seq<char>>>(Ok(())));
    assert(finish(t, d2, Ok(())) == (t1, d2, StepView::Done(Ok(()))));
}

/// A listener that fails is dropped from its list and the listeners after
/// it are not called for this event: the list goes back as the listeners
/// kept followed by those not reached, and the failure becomes an "Error"
/// event that starts again at the same target; the eleventh failure ends
/// the dispatch with the recursion-limit text.
pub proof fn law_failing_listener(t: TargetsView, d: DispatchView, msg: Seq<char>)
    requires
        awaiting(t, d),
        d.list.len() <= usize::MAX,
    ensures
        ({
            let t1 = with_table(
                t,
                d.target as int,
                t.tables[d.target as int].insert(d.key, d.kept + d.list.skip(d.pos + 1)),
            );
            let d1 = DispatchView {
                event: error_event(msg),
                error_count: (d.error_count + 1) as usize,
                phase: Phase::Enter,
                pos: (d.pos + 1) as usize,
                ..d
            };
            &&& d.error_count == 10 ==> resume(t, d, Err(msg)) == (
                t1,
                d1,
                StepView::Done(Err(limit_message("Error"@))),
            )
            &&& d.error_count < 10 ==> resume(t, d, Err(msg)) == enter(t1, d1)
        }),
{
    let d1 = DispatchView { pos: (d.pos + 1) as usize, ..d };
    assert(resume(t, d, Err(msg)) == finish(t, d1, Err(msg)));
}

/// An operation on the targets, with its arguments as plain values.
pub enum TargetOp {
    /// `new_target` under this parent.
    NewTarget(Option<usize>),
    /// `add_event_listener` (`once` false) or `add_event_listener_once`
    /// (`once` true) at this target for this event type.
    Add { target: usize, event_type: Seq<char>, once: bool },
    /// `dispatch_event` of this event from this target.
    Dispatch { target: usize, event: EventView },
    /// `resume` of this dispatch with what the listener returned.
    Resume { dispatch: DispatchView, outcome: Result<(), Seq<char>> },
}

/// The targets after a listener is added at `target` for `event_type`:
/// a handler with the current counter as its id goes at the end of the
/// list for the lowercase name, and the counter moves on by one.
pub open spec fn add_view(t: TargetsView, target: usize, event_type: Seq<char>, once: bool) -> TargetsView {
    let key = lower(event_type);
    let table = t.tables[target as int];
    TargetsView {
        tables: t.tables.update(
            target as int,
            table.insert(
                key,
                (if table.contains_key(key) {
                    table[key]
                } else {
                    Seq::empty()
                }).push(Handler { id: t.next_id, once }),
            ),
        ),
        parents: t.parents,
        next_id: t.next_id.wrapping_add(1),
    }
}

/// The targets after an operation.
pub open spec fn apply_op(t: TargetsView, op: TargetOp) -> TargetsView {
    match op {
        TargetOp::NewTarget(parent) => TargetsView {
            tables: t.tables.push(Map::empty()),
            parents: t.parents.push(parent),
            next_id: t.next_id,
        },
        TargetOp::Add { target, event_type, once } => add_view(t, target, event_type, once),
        TargetOp::Dispatch { target, event } => enter(t, initial(target, event)).0,
        TargetOp::Resume { dispatch, outcome } => resume(t, dispatch, outcome).0,
    }
}

/// The targets before operation `k` of `ops`, starting from `t`.
pub open spec fn state_before(t: TargetsView, ops: Seq<TargetOp>, k: int) -> TargetsView
    decreases k,
{
    if k <= 0 {
        t
    } else {
        apply_op(state_before(t, ops, k - 1), ops[k - 1])
    }
}

/// Along any run of operations on the targets, a listener addition gives
/// back a smaller id than any later addition, so no two additions share an
/// id, as long as the counter is below its largest value at every addition
/// before the later one (past it, the counter wraps around to zero).
pub proof fn law_listener_ids(t: TargetsView, ops: Seq<TargetOp>, i: int, j: int)
    requires
        0 <= i < j < ops.len(),
        ops[i] is Add,
        ops[j] is Add,
        forall|k: int| 0 <= k < j && #[trigger] ops[k] is Add ==> state_before(t, ops, k).next_id < usize::MAX,
    ensures
        state_before(t, ops, i).next_id < state_before(t, ops, j).next_id,
{
    lemma_counter_grows(t, ops, i, j);
}

proof fn lemma_counter_grows(t: TargetsView, ops: Seq<TargetOp>, i: int, j: int)
    requires
        0 <= i < j <= ops.len(),
        forall|k: int| 0 <= k < j && #[trigger] ops[k] is Add ==> state_before(t, ops, k).next_id < usize::MAX,
    ensures
        state_before(t, ops, i).next_id + (if ops[i] is Add { 1int } else { 0int }) <= state_before(t, ops, j).next_id,
    decreases j - i,
{
    let k = j - 1;
    let before = state_before(t, ops, k);
    assert(state_before(t, ops, j) == apply_op(before, ops[k]));
    match ops[k] {
        TargetOp::Dispatch { target, event } => lemma_enter_keeps(before, initial(target, event)),
        TargetOp::Resume { dispatch, outcome } => lemma_resume_keeps(before, dispatch, outcome),
        _ => {},
    }
    if k > i {
        lemma_counter_grows(t, ops, i, k);
    }
}

// ---------------------------------------------------------------------------
// The listeners a dispatch calls when every listener returns normally.
/// The listeners for `key` at `target` and then at each of its ancestors,
/// nearest first, each list in the order its listeners were added.
pub open spec fn chain_listeners(t: TargetsView, target: int, key: Seq<char>) -> Seq<Handler>
    decreases target,
{
    if !(0 <= target < t.tables.len()) {
        Seq::empty()
    } else {
        let own = if t.tables[target].contains_key(key) {
            t.tables[target][key]
        } else {
            Seq::empty()
        };
        own + above(t, target, key)
    }
}

/// The listeners for `key` at the ancestors of `target`.
pub open spec fn above(t: TargetsView, target: int, key: Seq<char>) -> Seq<Handler>
    decreases target, 0nat,
{
    if 0 <= target < t.parents.len() {
        match t.parents[target] {
            Some(p) => if p < target {
                chain_listeners(t, p as int, key)
            } else {
                Seq::empty()
            },
            None => Seq::empty(),
        }
    } else {
        Seq::empty()
    }
}

/// Every listener list of the targets up to `upto` fits in memory, as the
/// lists of real targets do.
pub open spec fn lists_fit(t: TargetsView, upto: int) -> bool {
    forall|i: int, k: Seq<char>|
        #![trigger t.tables[i].contains_key(k)]
        0 <= i <= upto && i < t.tables.len() && t.tables[i].contains_key(k) ==> t.tables[i][k].len()
            <= usize::MAX
}

proof fn lemma_lists_fit_other_table(t: TargetsView, x: int, m: Map<Seq<char>, Seq<Handler>>, upto: int)
    requires
        lists_fit(t, upto),
        upto < x,
        0 <= x < t.tables.len(),
    ensures
        lists_fit(with_table(t, x, m), upto),
{
    let t1 = with_table(t, x, m);
    assert forall|i: int, k: Seq<char>|
        #![trigger t1.tables[i].contains_key(k)]
        0 <= i <= upto && i < t1.tables.len() && t1.tables[i].contains_key(k) implies t1.tables[i][k].len()
            <= usize::MAX by {
        assert(t1.tables[i] == t.tables[i]);
        assert(t.tables[i].contains_key(k));
    }
}

/// The first `n` listeners of `s`, or all of them when there are fewer.
pub open spec fn first_n(s: Seq<Handler>, n: nat) -> Seq<Handler> {
    if n >= s.len() {
        s
    } else {
        s.take(n as int)
    }
}

/// The listeners called, at most `fuel` of them, from the state
/// `(t, d, s)` on when every listener returns normally.
pub open spec fn ok_calls(t: TargetsView, d: DispatchView, s: StepView, fuel: nat) -> Seq<Handler>
    decreases fuel,
{
    if fuel == 0 {
        Seq::empty()
    } else {
        match s {
            StepView::Call(h) => {
                let n = resume(t, d, Ok(()));
                seq![h] + ok_calls(n.0, n.1, n.2, (fuel - 1) as nat)
            },
            StepView::Done(_) => Seq::empty(),
        }
    }
}

proof fn lemma_chain_other_table(t: TargetsView, x: int, m: Map<Seq<char>, Seq<Handler>>, p: int, key: Seq<char>)
    requires
        p < x,
        0 <= x < t.tables.len(),
    ensures
        chain_listeners(with_table(t, x, m), p, key) == chain_listeners(t, p, key),
    decreases p,
{
    let t1 = with_table(t, x, m);
    if 0 <= p < t.tables.len() {
        assert(t1.tables[p] == t.tables[p]);
        if 0 <= p < t.parents.len() {
            if let Some(q) = t.parents[p] {
                if q < p {
                    lemma_chain_other_table(t, x, m, q as int, key);
                }
            }
        }
        assert(above(t1, p, key) == above(t, p, key));
    }
}

proof fn lemma_first_n_cons(h: Handler, s: Seq<Handler>, n: nat)
    requires
        n > 0,
    ensures
        first_n(seq![h] + s, n) == seq![h] + first_n(s, (n - 1) as nat),
{
    assert(first_n(seq![h] + s, n) =~= seq![h] + first_n(s, (n - 1) as nat));
}

proof fn lemma_enter_ok(t: TargetsView, d: DispatchView, fuel: nat)
    requires
        lists_fit(t, d.target as int),
        d.error_count <= 10,
        d.event.bubbles == BubbleEventState::Continue,
        d.target < t.tables.len(),
        t.parents.len() == t.tables.len(),
    ensures
        ({
            let r = enter(t, d);
            ok_calls(r.0, r.1, r.2, fuel) == first_n(chain_listeners(t, d.target as int, lower(d.event.name)), fuel)
        }),
    decreases d.target, 1int, 0int, fuel,
{
    let key = lower(d.event.name);
    let table = t.tables[d.target as int];
    let x = d.target as int;
    if table.contains_key(key) {
        let t1 = with_table(t, x, table.remove(key));
        let d1 = DispatchView { key, list: table[key], pos: 0, kept: Seq::empty(), phase: Phase::Run, ..d };
        assert(enter(t, d) == run(t1, d1));
        assert(t.tables[x].contains_key(key));
        lemma_lists_fit_other_table(t, x, table.remove(key), x - 1);
        lemma_run_ok(t1, d1, fuel);
        assert(d1.list.skip(0) =~= table[key]);
        if let Some(p) = t.parents[x] {
            if p < x {
                lemma_chain_other_table(t, x, table.remove(key), p as int, key);
            }
        }
        assert(above(t1, x, key) == above(t, x, key));
    } else {
        assert(chain_listeners(t, x, key) =~= above(t, x, key));
        match t.parents[x] {
            Some(p) => {
                if p < d.target {
                    let dp = DispatchView { target: p, phase: Phase::Enter, ..d };
                    assert(enter(t, d) == enter(t, dp));
                    lemma_enter_ok(t, dp, fuel);
                } else {
                    assert(enter(t, d) == (t, d, StepView::Done(Ok(()))));
                }
            },
            None => {
                assert(enter(t, d) == (t, d, StepView::Done(Ok(()))));
            },
        }
    }
}

proof fn lemma_run_ok(t: TargetsView, d: DispatchView, fuel: nat)
    requires
        lists_fit(t, d.target - 1),
        d.error_count <= 10,
        d.event.bubbles == BubbleEventState::Continue,
        d.target < t.tables.len(),
        t.parents.len() == t.tables.len(),
        d.pos <= d.list.len(),
        d.list.len() <= usize::MAX,
    ensures
        ({
            let r = run(t, d);
            ok_calls(r.0, r.1, r.2, fuel) == first_n(
                d.list.skip(d.pos as int) + above(t, d.target as int, lower(d.event.name)),
                fuel,
            )
        }),
    decreases d.target, 0int, d.list.len() - d.pos, fuel,
{
    let key = lower(d.event.name);
    let x = d.target as int;
    let rest = above(t, x, key);
    if d.pos < d.list.len() {
        let h = d.list[d.pos as int];
        let da = DispatchView { phase: Phase::Await, ..d };
        assert(run(t, d) == (t, da, StepView::Call(h)));
        assert(d.list.skip(d.pos as int) =~= seq![h] + d.list.skip(d.pos + 1));
        if fuel > 0 {
            let d1 = DispatchView { pos: (d.pos + 1) as usize, ..da };
            let d2 = DispatchView { kept: kept_after_ok(da), ..d1 };
            let d3 = DispatchView { phase: Phase::Run, ..d2 };
            assert(resume(t, da, Ok(())) == run(t, d3));
            lemma_run_ok(t, d3, (fuel - 1) as nat);
            assert(seq![h] + d.list.skip(d.pos + 1) + rest =~= seq![h] + (d.list.skip(d.pos + 1) + rest));
            lemma_first_n_cons(h, d.list.skip(d.pos + 1) + rest, fuel);
        }
    } else {
        assert(d.list.skip(d.pos as int) =~= Seq::<Handler>::empty());
        assert(Seq::<Handler>::empty() + rest =~= rest);
        let t1 = with_table(t, x, t.tables[x].insert(d.key, d.kept + d.list.skip(d.pos as int)));
        assert(run(t, d) == finish(t, d, Ok(())));
        match t.parents[x] {
            Some(p) => {
                if p < d.target {
                    let dp = DispatchView { target: p, phase: Phase::Enter, ..d };
                    assert(finish(t, d, Ok(())) == enter(t1, dp));
                    lemma_lists_fit_other_table(t, x, t.tables[x].insert(d.key, d.kept + d.list.skip(d.pos as int)), x - 1);
                    lemma_enter_ok(t1, dp, fuel);
                    lemma_chain_other_table(t, x, t.tables[x].insert(d.key, d.kept + d.list.skip(d.pos as int)), p as int, key);
                } else {
                    assert(finish(t, d, Ok(())) == (t1, d, StepView::Done(Ok(()))));
                }
            },
            None => {
                assert(finish(t, d, Ok(())) == (t1, d, StepView::Done(Ok(()))));
            },
        }
    }
}

/// When every listener returns normally, an event that bubbles calls the
/// listeners for its type (its name in lowercase) at the target, in the
/// order they were added, then those at the target's parent, and so on up
/// the chain of ancestors; looking at the first `n` calls gives the first
/// `n` of these listeners.
pub proof fn law_listeners_along_chain(t: TargetsView, target: usize, ev: EventView, n: nat)
    requires
        target < t.tables.len(),
        t.parents.len() == t.tables.len(),
        lists_fit(t, target as int),
        ev.bubbles == BubbleEventState::Continue,
    ensures
        ({
            let r = enter(t, initial(target, ev));
            ok_calls(r.0, r.1, r.2, n) == first_n(chain_listeners(t, target as int, lower(ev.name)), n)
        }),
{
    lemma_enter_ok(t, initial(target, ev), n);
}
} // verus!
