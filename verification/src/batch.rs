//! The batch executor: which lookup of a batch may start, where each result
//! goes, and when the batch is complete.
//!
//! A batch holds one slot for each row. The caller asks it which lookup to
//! start next, performs that lookup, and reports what came of it; the batch
//! keeps every result at the position of its row, in whatever order the
//! lookups complete.

use vstd::prelude::*;
use vstd::pervasive::{unreached, VecAdditionalExecFns};
use crate::admission::AdmissionController;
use crate::outcome::{Outcome, OutcomeView, ResultEntry};
use crate::state::ResolverRecipe;

verus! {

/// One row of a batch's input: its position, its text, and whether the row
/// is null.
#[derive(Debug, PartialEq, Eq)]
pub struct QueryDescriptor {
    pub index: usize,
    pub payload: String,
    pub is_null: bool,
}

/// How far the lookup of one row has come.
#[derive(Debug)]
enum Slot {
    Waiting,
    Running,
    Done(Outcome),
}

/// How far the lookup of one row has come, as a mathematical value.
pub enum SlotView {
    /// The lookup has not started.
    Waiting,
    /// The lookup has started and holds a permit.
    Running,
    /// The row has its result.
    Done(OutcomeView),
}

impl Slot {
    spec fn view(&self) -> SlotView {
        match self {
            Slot::Waiting => SlotView::Waiting,
            Slot::Running => SlotView::Running,
            Slot::Done(o) => SlotView::Done(o@),
        }
    }
}

/// The rows of a batch and the state of each.
pub struct BatchView {
    /// What the resolver of the batch is built from: the one that was
    /// current when the batch began.
    pub resolver: ResolverRecipe,
    /// The text of each row, `None` for a null row.
    pub rows: Seq<Option<Seq<char>>>,
    /// How far each row has come.
    pub slots: Seq<SlotView>,
}

/// The texts of the rows of a batch.
pub open spec fn row_views(rows: Seq<Option<String>>) -> Seq<Option<Seq<char>>> {
    Seq::new(
        rows.len(),
        |i: int|
            match rows[i] {
                Some(s) => Some(s@),
                None => None,
            },
    )
}

/// The states of the slots of a batch.
spec fn slot_views(slots: Seq<Slot>) -> Seq<SlotView> {
    Seq::new(slots.len(), |i: int| slots[i]@)
}

/// The position of the first waiting slot at or after `from`, or the number
/// of slots where none is waiting.
pub open spec fn first_waiting(slots: Seq<SlotView>, from: int) -> int
    decreases slots.len() - from,
{
    if from >= slots.len() {
        slots.len() as int
    } else if slots[from] is Waiting {
        from
    } else {
        first_waiting(slots, from + 1)
    }
}

/// The number of running slots.
pub open spec fn count_running(slots: Seq<SlotView>) -> nat
    decreases slots.len(),
{
    if slots.len() == 0 {
        0
    } else {
        count_running(slots.drop_last()) + if slots.last() is Running {
            1nat
        } else {
            0nat
        }
    }
}

impl BatchView {
    /// There is a slot for each row, and a null row has the result null
    /// from the start.
    pub open spec fn valid(self) -> bool {
        &&& self.rows.len() == self.slots.len()
        &&& forall|i: int|
            0 <= i < self.rows.len() && self.rows[i] is None ==> #[trigger] self.slots[i]
                == SlotView::Done(OutcomeView::Null)
    }

    /// The position of the row whose lookup starts next, or the number of
    /// rows where no lookup is left to start.
    pub open spec fn next(self) -> int {
        first_waiting(self.slots, 0)
    }

    /// The number of lookups in flight.
    pub open spec fn running(self) -> nat {
        count_running(self.slots)
    }

    /// Every row has its result.
    pub open spec fn finished(self) -> bool {
        forall|i: int| 0 <= i < self.slots.len() ==> #[trigger] self.slots[i] is Done
    }

    /// The batch once the lookup of row `i` has started.
    pub open spec fn launched(self, i: int) -> BatchView {
        BatchView { slots: self.slots.update(i, SlotView::Running), ..self }
    }

    /// The batch once the lookup of row `i` has come to `outcome`.
    pub open spec fn completed(self, i: int, outcome: OutcomeView) -> BatchView {
        BatchView { slots: self.slots.update(i, SlotView::Done(outcome)), ..self }
    }
}

/// What `first_waiting` finds: no slot before it is waiting, and the slot
/// at it is, unless it is the number of slots.
pub proof fn lemma_first_waiting(slots: Seq<SlotView>, from: int)
    requires
        0 <= from <= slots.len(),
    ensures
        from <= first_waiting(slots, from) <= slots.len(),
        forall|i: int| from <= i < first_waiting(slots, from) ==> !(#[trigger] slots[i] is Waiting),
        first_waiting(slots, from) < slots.len() ==> slots[first_waiting(slots, from)] is Waiting,
    decreases slots.len() - from,
{
    if from < slots.len() && !(slots[from] is Waiting) {
        lemma_first_waiting(slots, from + 1);
    }
}

/// A position with no waiting slot before it, and a waiting slot at it
/// unless it is the number of slots, is the one that `first_waiting` finds.
pub proof fn lemma_first_waiting_is(slots: Seq<SlotView>, from: int, at: int)
    requires
        0 <= from <= at <= slots.len(),
        forall|i: int| from <= i < at ==> !(#[trigger] slots[i] is Waiting),
        at < slots.len() ==> slots[at] is Waiting,
    ensures
        first_waiting(slots, from) == at,
    decreases at - from,
{
    if from < at {
        lemma_first_waiting_is(slots, from + 1, at);
    }
}

/// No more slots are running than there are slots, and none is running
/// exactly where the count is zero.
pub proof fn lemma_count_running_bounds(slots: Seq<SlotView>)
    ensures
        count_running(slots) <= slots.len(),
        count_running(slots) == 0 <==> forall|i: int|
            0 <= i < slots.len() ==> !(#[trigger] slots[i] is Running),
    decreases slots.len(),
{
    if slots.len() > 0 {
        let before = slots.drop_last();
        lemma_count_running_bounds(before);
        if count_running(slots) == 0 {
            assert forall|i: int| 0 <= i < slots.len() implies !(#[trigger] slots[i]
                is Running) by {
                if i < before.len() {
                    assert(before[i] == slots[i]);
                }
            }
        } else if forall|i: int| 0 <= i < slots.len() ==> !(#[trigger] slots[i] is Running) {
            assert forall|i: int| 0 <= i < before.len() implies !(#[trigger] before[i]
                is Running) by {
                assert(before[i] == slots[i]);
            }
            assert(!(slots[slots.len() - 1] is Running));
        }
    }
}

/// How the count of running slots changes when one slot changes.
pub proof fn lemma_count_running_update(slots: Seq<SlotView>, i: int, to: SlotView)
    requires
        0 <= i < slots.len(),
    ensures
        count_running(slots.update(i, to)) + (if slots[i] is Running {
            1nat
        } else {
            0nat
        }) == count_running(slots) + (if to is Running {
            1nat
        } else {
            0nat
        }),
    decreases slots.len(),
{
    let after = slots.update(i, to);
    if i == slots.len() - 1 {
        assert(after.drop_last() =~= slots.drop_last());
    } else {
        assert(after.drop_last() =~= slots.drop_last().update(i, to));
        lemma_count_running_update(slots.drop_last(), i, to);
    }
}

/// Two lookups in flight may complete in either order: the batch is the
/// same afterwards.
pub proof fn lemma_completion_order(
    batch: BatchView,
    i: int,
    a: OutcomeView,
    j: int,
    b: OutcomeView,
)
    requires
        0 <= i < batch.slots.len(),
        0 <= j < batch.slots.len(),
        i != j,
    ensures
        batch.completed(i, a).completed(j, b) == batch.completed(j, b).completed(i, a),
{
    assert(batch.slots.update(i, SlotView::Done(a)).update(j, SlotView::Done(b))
        =~= batch.slots.update(j, SlotView::Done(b)).update(i, SlotView::Done(a)));
}


/// A batch together with the controller that admits its lookups.
pub struct EngineView {
    pub batch: BatchView,
    /// The number of permits in the controller's pool.
    pub limit: nat,
    /// The number of permits that are handed out.
    pub held: nat,
}

/// Something that happens to a batch.
pub enum BatchEvent {
    /// The caller asks for the next lookup to start.
    Launch,
    /// The caller reports what the lookup of a row has come to.
    Complete(int, OutcomeView),
}

impl EngineView {
    /// The batch is valid, and its lookups in flight hold permits of a pool
    /// that has not handed out more than it has.
    pub open spec fn valid(self) -> bool {
        &&& self.batch.valid()
        &&& 0 < self.limit
        &&& self.batch.running() <= self.held <= self.limit
    }

    /// A lookup is left to start and a permit is free.
    pub open spec fn can_launch(self) -> bool {
        self.batch.next() < self.batch.slots.len() && self.held < self.limit
    }

    /// The lookup of row `i` is in flight.
    pub open spec fn can_complete(self, i: int) -> bool {
        0 <= i < self.batch.slots.len() && self.batch.slots[i] is Running
    }

    /// The engine after one event. A launch that cannot be, and the report
    /// of a lookup that is not in flight, change nothing.
    pub open spec fn step(self, event: BatchEvent) -> EngineView {
        match event {
            BatchEvent::Launch => if self.can_launch() {
                EngineView {
                    batch: self.batch.launched(self.batch.next()),
                    limit: self.limit,
                    held: self.held + 1,
                }
            } else {
                self
            },
            BatchEvent::Complete(i, outcome) => if self.can_complete(i) {
                EngineView {
                    batch: self.batch.completed(i, outcome),
                    limit: self.limit,
                    held: if self.held > 0 {
                        (self.held - 1) as nat
                    } else {
                        0
                    },
                }
            } else {
                self
            },
        }
    }

    /// The engine after a sequence of events.
    pub open spec fn run(self, events: Seq<BatchEvent>) -> EngineView
        decreases events.len(),
    {
        if events.len() == 0 {
            self
        } else {
            self.run(events.drop_last()).step(events.last())
        }
    }
}

/// The rows of a batch, the state of each, and the counters kept over them.
#[derive(Debug)]
struct BatchCore {
    resolver: ResolverRecipe,
    rows: Vec<Option<String>>,
    slots: Vec<Slot>,
    cursor: usize,
    running: usize,
}

impl BatchCore {
    spec fn view(&self) -> BatchView {
        BatchView {
            resolver: self.resolver,
            rows: row_views(self.rows@),
            slots: slot_views(self.slots@),
        }
    }
}

/// Whether a slot is waiting.
fn slot_is_waiting(slot: &Slot) -> (r: bool)
    ensures
        r == (slot.view() is Waiting),
{
    match slot {
        Slot::Waiting => true,
        _ => false,
    }
}

/// Whether a slot is running.
fn slot_is_running(slot: &Slot) -> (r: bool)
    ensures
        r == (slot.view() is Running),
{
    match slot {
        Slot::Running => true,
        _ => false,
    }
}

impl BatchCore {
    /// The counters that the batch keeps agree with its slots.
    spec fn counted(&self) -> bool {
        &&& self.cursor == self@.next()
        &&& self.running == self@.running()
    }

    /// The batch is valid and its counters agree with its slots.
    spec fn wf(&self) -> bool {
        self@.valid() && self.counted()
    }

    /// The batch and the controller as one value.
    spec fn engine(&self, ctl: &AdmissionController) -> EngineView {
        EngineView { batch: self@, limit: ctl.limit(), held: ctl.held() }
    }

    /// A core over `rows` in which no lookup has started.
    fn new(rows: Vec<Option<String>>, resolver: ResolverRecipe) -> (batch: BatchCore)
        ensures
            batch.wf(),
            batch@.resolver == resolver,
            batch@.rows == row_views(rows@),
            batch@.running() == 0,
            forall|i: int|
                0 <= i < rows@.len() ==> #[trigger] batch@.slots[i] == if rows@[i] is None {
                    SlotView::Done(OutcomeView::Null)
                } else {
                    SlotView::Waiting
                },
    {
        let mut slots: Vec<Slot> = Vec::new();
        let mut cursor: usize = rows.len();
        let mut i: usize = 0;
        while i < rows.len()
            invariant
                i <= rows.len(),
                cursor <= rows.len(),
                slots.len() == i,
                forall|j: int|
                    0 <= j < i ==> #[trigger] slots@[j].view() == if rows@[j] is None {
                        SlotView::Done(OutcomeView::Null)
                    } else {
                        SlotView::Waiting
                    },
                cursor == rows.len() ==> forall|j: int| 0 <= j < i ==> rows@[j] is None,
                cursor < rows.len() ==> cursor < i && rows@[cursor as int] is Some && forall|
                    j: int,
                | 0 <= j < cursor ==> rows@[j] is None,
            decreases rows.len() - i,
        {
            match &rows[i] {
                Some(_) => {
                    if cursor == rows.len() {
                        cursor = i;
                    }
                    slots.push(Slot::Waiting);
                },
                None => {
                    slots.push(Slot::Done(Outcome::Null));
                },
            }
            i += 1;
        }
        let batch = BatchCore { resolver, rows, slots, cursor, running: 0 };
        proof {
            let view = batch@;
            assert(view.slots.len() == view.rows.len());
            assert forall|j: int| 0 <= j < view.slots.len() implies !(#[trigger] view.slots[j]
                is Running) by {
                assert(view.slots[j] == batch.slots@[j].view());
            }
            lemma_count_running_bounds(view.slots);
            assert forall|j: int| 0 <= j < cursor implies !(#[trigger] view.slots[j]
                is Waiting) by {
                assert(view.slots[j] == batch.slots@[j].view());
            }
            if cursor < view.slots.len() {
                assert(view.slots[cursor as int] == batch.slots@[cursor as int].view());
            }
            lemma_first_waiting_is(view.slots, 0, cursor as int);
            assert forall|j: int|
                0 <= j < rows@.len() implies #[trigger] view.slots[j] == if rows@[j] is None {
                SlotView::Done(OutcomeView::Null)
            } else {
                SlotView::Waiting
            } by {
                assert(view.slots[j] == batch.slots@[j].view());
            }
        }
        batch
    }

    fn resolver(&self) -> (r: ResolverRecipe)
        ensures
            r == self@.resolver,
    {
        self.resolver
    }

    fn len(&self) -> (n: usize)
        requires
            self.wf(),
        ensures
            n == self@.rows.len(),
    {
        self.rows.len()
    }

    fn in_flight(&self) -> (n: usize)
        requires
            self.wf(),
        ensures
            n == self@.running(),
    {
        self.running
    }

    /// Every row has its result once no slot is left waiting and none is
    /// running.
    fn is_finished(&self) -> (r: bool)
        requires
            self.wf(),
        ensures
            r == self@.finished(),
    {
        proof {
            let slots = self@.slots;
            lemma_first_waiting(slots, 0);
            lemma_count_running_bounds(slots);
            if self.cursor < slots.len() {
                assert(slots[self.cursor as int] is Waiting);
            }
            if self@.finished() {
                assert forall|i: int| 0 <= i < slots.len() implies !(#[trigger] slots[i]
                    is Running) by {
                    assert(slots[i] is Done);
                }
            }
        }
        self.cursor == self.slots.len() && self.running == 0
    }

    /// Marks the first waiting slot as running and moves the cursor to the
    /// next waiting slot, if the controller admits the lookup.
    fn launch(&mut self, ctl: &mut AdmissionController) -> (r: Option<QueryDescriptor>)
        requires
            old(self).wf(),
        ensures
            final(self).wf(),
            final(self).engine(final(ctl)) == old(self).engine(old(ctl)).step(BatchEvent::Launch),
            match r {
                Some(query) => {
                    &&& old(self).engine(old(ctl)).can_launch()
                    &&& query.index == old(self)@.next()
                    &&& !query.is_null
                    &&& old(self)@.rows[query.index as int] == Some(query.payload@)
                },
                None => !old(self).engine(old(ctl)).can_launch(),
            },
    {
        proof {
            use_type_invariant(&*ctl);
        }
        let n = self.slots.len();
        if self.cursor >= n {
            return None;
        }
        if !ctl.try_acquire() {
            return None;
        }
        let i = self.cursor;
        let ghost before = self@.slots;
        proof {
            lemma_first_waiting(before, 0);
            lemma_count_running_bounds(before);
            lemma_count_running_update(before, i as int, SlotView::Running);
            lemma_count_running_bounds(before.update(i as int, SlotView::Running));
        }
        self.slots.set(i, Slot::Running);
        self.running = self.running + 1;
        let ghost after = before.update(i as int, SlotView::Running);
        assert(self@.slots =~= after);
        let mut c: usize = i + 1;
        while c < n && !slot_is_waiting(&self.slots[c])
            invariant
                i < c <= n,
                n == self.slots.len(),
                self@.slots == after,
                after.len() == n,
                forall|j: int| 0 <= j < c ==> !(#[trigger] after[j] is Waiting),
            decreases n - c,
        {
            assert(after[c as int] == self.slots@[c as int].view());
            c += 1;
        }
        proof {
            if c < n {
                assert(after[c as int] == self.slots@[c as int].view());
            }
            lemma_first_waiting_is(after, 0, c as int);
        }
        self.cursor = c;
        let payload = match &self.rows[i] {
            Some(text) => text.clone(),
            None => {
                proof {
                    assert(old(self)@.rows[i as int] is None);
                    assert(before[i as int] is Waiting);
                }
                unreached()
            },
        };
        proof {
            assert(self@.rows == old(self)@.rows);
            assert(self@ == old(self)@.launched(i as int));
            assert forall|j: int|
                0 <= j < self@.rows.len() && self@.rows[j] is None implies #[trigger] self@.slots[j]
                == SlotView::Done(OutcomeView::Null) by {
                assert(before[j] == SlotView::Done(OutcomeView::Null));
            }
        }
        Some(QueryDescriptor { index: i, payload, is_null: false })
    }

    /// Stores `outcome` in the slot of row `index` if that slot is running,
    /// and gives the permit back.
    fn complete(&mut self, ctl: &mut AdmissionController, index: usize, outcome: Outcome) -> (accepted:
        bool)
        requires
            old(self).wf(),
        ensures
            final(self).wf(),
            accepted == old(self).engine(old(ctl)).can_complete(index as int),
            final(self).engine(final(ctl)) == old(self).engine(old(ctl)).step(
                BatchEvent::Complete(index as int, outcome@),
            ),
    {
        proof {
            use_type_invariant(&*ctl);
        }
        if index >= self.slots.len() {
            return false;
        }
        assert(self@.slots[index as int] == self.slots@[index as int].view());
        if !slot_is_running(&self.slots[index]) {
            return false;
        }
        let ghost before = self@.slots;
        let ghost done = SlotView::Done(outcome@);
        proof {
            lemma_count_running_bounds(before);
            lemma_count_running_update(before, index as int, done);
            lemma_first_waiting(before, 0);
        }
        self.slots.set(index, Slot::Done(outcome));
        self.running = self.running - 1;
        ctl.release();
        proof {
            let after = before.update(index as int, done);
            assert(self@.slots =~= after);
            assert(self@.rows == old(self)@.rows);
            assert forall|j: int| 0 <= j < self.cursor implies !(#[trigger] after[j]
                is Waiting) by {
                assert(!(before[j] is Waiting));
            }
            lemma_first_waiting_is(after, 0, self.cursor as int);
            assert(self@ == old(self)@.completed(index as int, outcome@));
            assert forall|j: int|
                0 <= j < self@.rows.len() && self@.rows[j] is None implies #[trigger] self@.slots[j]
                == SlotView::Done(OutcomeView::Null) by {
                assert(before[j] == SlotView::Done(OutcomeView::Null));
            }
        }
        true
    }

    /// Moves the outcomes out of the slots, in the order of the rows.
    fn into_results(self) -> (r: Option<Vec<ResultEntry>>)
        requires
            self.wf(),
        ensures
            r is Some <==> self@.finished(),
            r matches Some(entries) ==> {
                &&& entries@.len() == self@.rows.len()
                &&& forall|i: int|
                    0 <= i < entries@.len() ==> (#[trigger] entries@[i]).index == i
                        && self@.slots[i] == SlotView::Done(entries@[i].outcome@)
                &&& forall|i: int|
                    0 <= i < entries@.len() && self@.rows[i] is None ==> (#[trigger] entries@[i]).outcome@
                        == OutcomeView::Null
            },
    {
        if !self.is_finished() {
            return None;
        }
        let ghost view = self@;
        let BatchCore { resolver, rows, mut slots, cursor, running } = self;
        let n = slots.len();
        let mut entries: Vec<ResultEntry> = Vec::new();
        let mut i: usize = 0;
        while i < n
            invariant
                i <= n,
                n == slots.len(),
                n == view.slots.len(),
                view.finished(),
                entries@.len() == i,
                forall|j: int| i <= j < n ==> (#[trigger] slots@[j]).view() == view.slots[j],
                forall|j: int|
                    0 <= j < i ==> (#[trigger] entries@[j]).index == j && view.slots[j]
                        == SlotView::Done(entries@[j].outcome@),
            decreases n - i,
        {
            let mut slot = Slot::Waiting;
            assert(slots@[i as int].view() == view.slots[i as int]);
            assert(view.slots[i as int] is Done);
            slots.set_and_swap(i, &mut slot);
            match slot {
                Slot::Done(outcome) => {
                    entries.push(ResultEntry { index: i, outcome });
                },
                _ => {
                    unreached::<()>();
                },
            }
            i += 1;
        }
        Some(entries)
    }
}

/// A batch of lookups: the rows, and for each row how far its lookup has
/// come.
#[derive(Debug)]
pub struct Batch {
    core: BatchCore,
}

impl View for Batch {
    type V = BatchView;

    closed spec fn view(&self) -> BatchView {
        self.core.view()
    }
}

impl Batch {
    /// The counters kept over the slots agree with them.
    #[verifier::type_invariant]
    spec fn inv(&self) -> bool {
        self.core.wf()
    }

    /// The batch and the controller as one value.
    pub open spec fn engine(&self, ctl: &AdmissionController) -> EngineView {
        EngineView { batch: self@, limit: ctl.limit(), held: ctl.held() }
    }

    /// A batch over `rows`, `None` standing for a null row, with the
    /// resolver that is current as it begins. No lookup has started; each
    /// null row has the result null already.
    pub fn new(rows: Vec<Option<String>>, resolver: ResolverRecipe) -> (batch: Batch)
        ensures
            batch@.valid(),
            batch@.resolver == resolver,
            batch@.rows == row_views(rows@),
            batch@.running() == 0,
            forall|i: int|
                0 <= i < rows@.len() ==> #[trigger] batch@.slots[i] == if rows@[i] is None {
                    SlotView::Done(OutcomeView::Null)
                } else {
                    SlotView::Waiting
                },
    {
        Batch { core: BatchCore::new(rows, resolver) }
    }

    /// What the resolver of the batch is built from.
    pub fn resolver(&self) -> (r: ResolverRecipe)
        ensures
            r == self@.resolver,
    {
        self.core.resolver()
    }

    /// The number of rows.
    pub fn len(&self) -> (n: usize)
        ensures
            self@.valid(),
            n == self@.rows.len(),
    {
        proof {
            use_type_invariant(self);
        }
        self.core.len()
    }

    /// The number of lookups in flight.
    pub fn in_flight(&self) -> (n: usize)
        ensures
            self@.valid(),
            n == self@.running(),
    {
        proof {
            use_type_invariant(self);
        }
        self.core.in_flight()
    }

    /// Whether every row has its result.
    pub fn is_finished(&self) -> (r: bool)
        ensures
            self@.valid(),
            r == self@.finished(),
    {
        proof {
            use_type_invariant(self);
        }
        self.core.is_finished()
    }

    /// Starts the next lookup, if one is left to start and the controller
    /// has a free permit: takes the permit and hands out the row to look up,
    /// which is the first row that is still waiting. A null row is never
    /// handed out.
    pub fn launch(&mut self, ctl: &mut AdmissionController) -> (r: Option<QueryDescriptor>)
        ensures
            old(self)@.valid(),
            final(self)@.valid(),
            final(self).engine(final(ctl)) == old(self).engine(old(ctl)).step(BatchEvent::Launch),
            match r {
                Some(query) => {
                    &&& old(self).engine(old(ctl)).can_launch()
                    &&& query.index == old(self)@.next()
                    &&& !query.is_null
                    &&& old(self)@.rows[query.index as int] == Some(query.payload@)
                },
                None => !old(self).engine(old(ctl)).can_launch(),
            },
    {
        proof {
            use_type_invariant(&*self);
        }
        let mut inner = BatchCore::new(Vec::new(), self.core.resolver);
        std::mem::swap(&mut self.core, &mut inner);
        let r = inner.launch(ctl);
        self.core = inner;
        r
    }

    /// Takes in what the lookup of row `index` has come to, and gives its
    /// permit back. Says whether that lookup was in flight; where it was
    /// not, nothing changes.
    pub fn complete(&mut self, ctl: &mut AdmissionController, index: usize, outcome: Outcome) -> (accepted:
        bool)
        ensures
            old(self)@.valid(),
            final(self)@.valid(),
            accepted == old(self).engine(old(ctl)).can_complete(index as int),
            final(self).engine(final(ctl)) == old(self).engine(old(ctl)).step(
                BatchEvent::Complete(index as int, outcome@),
            ),
    {
        proof {
            use_type_invariant(&*self);
        }
        let mut inner = BatchCore::new(Vec::new(), self.core.resolver);
        std::mem::swap(&mut self.core, &mut inner);
        let accepted = inner.complete(ctl, index, outcome);
        self.core = inner;
        accepted
    }

    /// The results of the batch, one for each row and in the order of the
    /// rows, once every row has its result; nothing before that.
    pub fn into_results(self) -> (r: Option<Vec<ResultEntry>>)
        ensures
            self@.valid(),
            r is Some <==> self@.finished(),
            r matches Some(entries) ==> {
                &&& entries@.len() == self@.rows.len()
                &&& forall|i: int|
                    0 <= i < entries@.len() ==> (#[trigger] entries@[i]).index == i
                        && self@.slots[i] == SlotView::Done(entries@[i].outcome@)
                &&& forall|i: int|
                    0 <= i < entries@.len() && self@.rows[i] is None ==> (#[trigger] entries@[i]).outcome@
                        == OutcomeView::Null
            },
    {
        proof {
            use_type_invariant(&self);
        }
        self.core.into_results()
    }
}

/// One event keeps a valid engine valid. It leaves the rows, the batch's
/// resolver, the size of the pool and every result that a row already has
/// as they are.
pub proof fn lemma_step_valid(engine: EngineView, event: BatchEvent)
    requires
        engine.valid(),
    ensures
        engine.step(event).valid(),
        engine.step(event).limit == engine.limit,
        engine.step(event).batch.rows == engine.batch.rows,
        engine.step(event).batch.resolver == engine.batch.resolver,
        forall|i: int|
            0 <= i < engine.batch.slots.len() && engine.batch.slots[i] is Done
                ==> #[trigger] engine.step(event).batch.slots[i] == engine.batch.slots[i],
{
    let slots = engine.batch.slots;
    lemma_first_waiting(slots, 0);
    lemma_count_running_bounds(slots);
    match event {
        BatchEvent::Launch => {
            if engine.can_launch() {
                lemma_count_running_update(slots, engine.batch.next(), SlotView::Running);
            }
        },
        BatchEvent::Complete(i, outcome) => {
            if engine.can_complete(i) {
                lemma_count_running_update(slots, i, SlotView::Done(outcome));
            }
        },
    }
}

/// Whatever happens to a valid engine, in whatever order: it stays valid,
/// so that the lookups in flight never outnumber the permits of the pool;
/// the rows, the batch's resolver and the size of the pool stay as they
/// are; and a row that has its result keeps it.
pub proof fn lemma_run_valid(engine: EngineView, events: Seq<BatchEvent>)
    requires
        engine.valid(),
    ensures
        engine.run(events).valid(),
        engine.run(events).limit == engine.limit,
        engine.run(events).batch.rows == engine.batch.rows,
        engine.run(events).batch.resolver == engine.batch.resolver,
        forall|i: int|
            0 <= i < engine.batch.slots.len() && engine.batch.slots[i] is Done
                ==> #[trigger] engine.run(events).batch.slots[i] == engine.batch.slots[i],
    decreases events.len(),
{
    if events.len() > 0 {
        let before = engine.run(events.drop_last());
        lemma_run_valid(engine, events.drop_last());
        lemma_step_valid(before, events.last());
        assert forall|i: int|
            0 <= i < engine.batch.slots.len() && engine.batch.slots[i]
                is Done implies #[trigger] engine.run(events).batch.slots[i]
            == engine.batch.slots[i] by {
            assert(before.batch.slots[i] == engine.batch.slots[i]);
            assert(before.step(events.last()).batch.slots[i] == before.batch.slots[i]);
        }
    }
}

/// The result that is reported for a row in flight stands at that row's
/// position whatever happens afterwards, in whatever order.
pub proof fn lemma_result_stays(
    engine: EngineView,
    i: int,
    outcome: OutcomeView,
    later: Seq<BatchEvent>,
)
    requires
        engine.valid(),
        engine.can_complete(i),
    ensures
        engine.step(BatchEvent::Complete(i, outcome)).run(later).batch.slots[i] == SlotView::Done(
            outcome,
        ),
{
    let reported = engine.step(BatchEvent::Complete(i, outcome));
    lemma_step_valid(engine, BatchEvent::Complete(i, outcome));
    lemma_run_valid(reported, later);
    assert(reported.batch.slots[i] == SlotView::Done(outcome));
}

/// What is reported first for row `i` among `events`, if anything is.
pub open spec fn first_report(events: Seq<BatchEvent>, i: int) -> Option<OutcomeView>
    decreases events.len(),
{
    if events.len() == 0 {
        None
    } else {
        match first_report(events.drop_last(), i) {
            Some(outcome) => Some(outcome),
            None => match events.last() {
                BatchEvent::Complete(j, outcome) => if j == i {
                    Some(outcome)
                } else {
                    None
                },
                BatchEvent::Launch => None,
            },
        }
    }
}

/// The result of a row in flight is what is reported for that row first,
/// and it stands at that row's position: neither the reports for other
/// rows nor the order in which the reports come in have any part in it.
pub proof fn lemma_result_is_positional(engine: EngineView, events: Seq<BatchEvent>, i: int)
    requires
        engine.valid(),
        engine.can_complete(i),
    ensures
        engine.run(events).batch.slots[i] == match first_report(events, i) {
            Some(outcome) => SlotView::Done(outcome),
            None => SlotView::Running,
        },
    decreases events.len(),
{
    if events.len() > 0 {
        let earlier = events.drop_last();
        let before = engine.run(earlier);
        lemma_result_is_positional(engine, earlier, i);
        lemma_run_valid(engine, earlier);
        lemma_first_waiting(before.batch.slots, 0);
    }
}

/// Two histories that report the same thing first for a row in flight
/// leave that row with the same result, however else they differ.
pub proof fn lemma_order_invariance(
    engine: EngineView,
    first: Seq<BatchEvent>,
    second: Seq<BatchEvent>,
    i: int,
)
    requires
        engine.valid(),
        engine.can_complete(i),
        first_report(first, i) == first_report(second, i),
    ensures
        engine.run(first).batch.slots[i] == engine.run(second).batch.slots[i],
{
    lemma_result_is_positional(engine, first, i);
    lemma_result_is_positional(engine, second, i);
}

/// A batch that is not finished is never stuck on its own account: a lookup
/// is in flight, or one is waiting, and where no other batch holds a permit
/// the waiting one can start.
pub proof fn lemma_progress(engine: EngineView)
    requires
        engine.valid(),
        !engine.batch.finished(),
    ensures
        engine.batch.running() > 0 || engine.batch.next() < engine.batch.slots.len(),
        engine.held == engine.batch.running() ==> engine.batch.running() > 0
            || engine.can_launch(),
{
    let slots = engine.batch.slots;
    lemma_first_waiting(slots, 0);
    lemma_count_running_bounds(slots);
    if engine.batch.running() == 0 && engine.batch.next() >= slots.len() {
        assert forall|i: int| 0 <= i < slots.len() implies #[trigger] slots[i] is Done by {
            assert(!(slots[i] is Running));
            assert(!(slots[i] is Waiting));
        }
    }
}

/// Once every row has its result, nothing that happens changes the batch.
pub proof fn lemma_finished_is_final(engine: EngineView, events: Seq<BatchEvent>)
    requires
        engine.valid(),
        engine.batch.finished(),
    ensures
        engine.run(events).batch == engine.batch,
{
    lemma_run_valid(engine, events);
    let end = engine.run(events).batch;
    assert(end.slots.len() == engine.batch.slots.len());
    assert forall|i: int| 0 <= i < end.slots.len() implies end.slots[i]
        == engine.batch.slots[i] by {
        assert(engine.batch.slots[i] is Done);
    }
    assert(end.slots =~= engine.batch.slots);
}

/// A null row is never in flight and never waiting: its result is null
/// whatever happens.
pub proof fn lemma_null_row_stays_null(engine: EngineView, events: Seq<BatchEvent>, i: int)
    requires
        engine.valid(),
        0 <= i < engine.batch.rows.len(),
        engine.batch.rows[i] is None,
    ensures
        engine.run(events).batch.slots[i] == SlotView::Done(OutcomeView::Null),
{
    lemma_run_valid(engine, events);
    assert(engine.batch.slots[i] == SlotView::Done(OutcomeView::Null));
}

} // verus!
