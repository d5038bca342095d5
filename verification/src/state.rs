//! The reactive state store: cells that hold values, and effects that run
//! again whenever a cell that they have read is written.
//!
//! The store keeps the cells in one place and hands out handles. It does not
//! hold the effects' code: an effect is known to the store by its id, and the
//! store decides which effects are to run and in what order. Whoever holds the
//! code asks for the next effect with `next_effect`, runs it, and reports back
//! with `finish_effect`. The effects that a write triggers wait in a queue
//! until then; within one batch no effect runs twice, which ends every cycle
//! of effects that trigger each other.

use vstd::prelude::*;
use std::marker::PhantomData;

verus! {

/// The id of an effect.
pub type EffectId = usize;

/// One cell: its value, and the effects that have read it, in the order in
/// which they first did.
pub struct InnerState<T> {
    value: T,
    subscribers: Vec<EffectId>,
}

/// The handle that reads a cell.
pub struct GetState<T> {
    cell: usize,
    marker: PhantomData<T>,
}

/// The handle that writes a cell.
pub struct SetState<T> {
    cell: usize,
    marker: PhantomData<T>,
}

/// The store.
pub struct StateContext<T> {
    cells: Vec<InnerState<T>>,
    next_effect_id: usize,
    current_effect: Option<EffectId>,
    pending: Vec<EffectId>,
    visited: Vec<EffectId>,
}

/// What a store holds, as plain values.
pub struct StateContextView<T> {
    /// The value of each cell.
    pub values: Seq<T>,
    /// The subscribers of each cell, in the order in which they subscribed.
    pub subscribers: Seq<Seq<EffectId>>,
    /// The number of effects registered; their ids are the numbers below it.
    pub effect_count: usize,
    /// The effect that is running, if one is.
    pub current_effect: Option<EffectId>,
    /// The effects that wait to run, the next one first.
    pub pending: Seq<EffectId>,
    /// The effects that have started in the batch that is under way.
    pub visited: Seq<EffectId>,
}

impl<T> View for StateContext<T> {
    type V = StateContextView<T>;

    closed spec fn view(&self) -> StateContextView<T> {
        StateContextView {
            values: Seq::new(self.cells@.len(), |i: int| self.cells@[i].value),
            subscribers: Seq::new(self.cells@.len(), |i: int| self.cells@[i].subscribers@),
            effect_count: self.next_effect_id,
            current_effect: self.current_effect,
            pending: self.pending@,
            visited: self.visited@,
        }
    }
}

impl<T> StateContextView<T> {
    /// The handles of the cells and the ids of the effects fit together: each
    /// cell has its subscribers, nothing is listed twice, every id listed is
    /// the id of a registered effect, no effect both waits and has started,
    /// and the running effect has started.
    pub open spec fn wf(self) -> bool {
        &&& self.values.len() == self.subscribers.len()
        &&& forall|c: int|
            0 <= c < self.subscribers.len() ==> (#[trigger] self.subscribers[c]).no_duplicates()
        &&& forall|c: int, i: int|
            0 <= c < self.subscribers.len() && 0 <= i < self.subscribers[c].len()
                ==> #[trigger] self.subscribers[c][i] < self.effect_count
        &&& self.pending.no_duplicates()
        &&& self.visited.no_duplicates()
        &&& forall|i: int|
            0 <= i < self.pending.len() ==> #[trigger] self.pending[i] < self.effect_count
        &&& forall|i: int|
            0 <= i < self.visited.len() ==> #[trigger] self.visited[i] < self.effect_count
        &&& forall|i: int, j: int|
            0 <= i < self.pending.len() && 0 <= j < self.visited.len() ==> #[trigger] self.pending[i]
                != #[trigger] self.visited[j]
        &&& match self.current_effect {
            Some(id) => self.visited.contains(id),
            None => true,
        }
    }

    /// Nothing runs and nothing waits.
    pub open spec fn idle(self) -> bool {
        self.current_effect.is_none() && self.pending.len() == 0 && self.visited.len() == 0
    }

    /// The store after cell `cell` was read: the running effect, if there is
    /// one, is among the cell's subscribers.
    pub open spec fn subscribed(self, cell: int) -> StateContextView<T> {
        match self.current_effect {
            Some(id) if !self.subscribers[cell].contains(id) => StateContextView {
                subscribers: self.subscribers.update(cell, self.subscribers[cell].push(id)),
                ..self
            },
            _ => self,
        }
    }

    /// The store after `value` was written to cell `cell`: the cell holds the
    /// value, and the cell's subscribers wait to run.
    pub open spec fn written(self, cell: int, value: T) -> StateContextView<T> {
        StateContextView {
            values: self.values.update(cell, value),
            pending: schedule(self.pending, self.visited, self.subscribers[cell]),
            ..self
        }
    }
}

/// The queue after the effects `triggered` were added to it, in their order:
/// each joins at the end, unless it waits already or has started in this
/// batch.
pub open spec fn schedule(
    pending: Seq<EffectId>,
    visited: Seq<EffectId>,
    triggered: Seq<EffectId>,
) -> Seq<EffectId>
    decreases triggered.len(),
{
    if triggered.len() == 0 {
        pending
    } else {
        let queue = schedule(pending, visited, triggered.drop_last());
        let id = triggered.last();
        if queue.contains(id) || visited.contains(id) {
            queue
        } else {
            queue.push(id)
        }
    }
}

/// Whether `id` occurs in `ids`.
fn contains_id(ids: &Vec<EffectId>, id: EffectId) -> (found: bool)
    ensures
        found == ids@.contains(id),
{
    let mut i: usize = 0;
    while i < ids.len()
        invariant
            i <= ids.len(),
            forall|j: int| 0 <= j < i ==> ids@[j] != id,
        decreases ids.len() - i,
    {
        if ids[i] == id {
            return true;
        }
        i += 1;
    }
    false
}

impl<T> GetState<T> {
    /// The place of the cell in its store.
    pub closed spec fn id(&self) -> usize {
        self.cell
    }

    /// The place of the cell in its store.
    pub fn index(&self) -> (cell: usize)
        ensures
            cell == self.id(),
    {
        self.cell
    }
}

impl<T> SetState<T> {
    /// The place of the cell in its store.
    pub closed spec fn id(&self) -> usize {
        self.cell
    }

    /// The place of the cell in its store.
    pub fn index(&self) -> (cell: usize)
        ensures
            cell == self.id(),
    {
        self.cell
    }
}

impl<T> Clone for GetState<T> {
    fn clone(&self) -> (handle: Self)
        ensures
            handle.id() == self.id(),
    {
        GetState { cell: self.cell, marker: PhantomData }
    }
}

impl<T> Clone for SetState<T> {
    fn clone(&self) -> (handle: Self)
        ensures
            handle.id() == self.id(),
    {
        SetState { cell: self.cell, marker: PhantomData }
    }
}

impl<T> StateContext<T> {
    /// The store's view is well-formed.
    pub closed spec fn wf(&self) -> bool {
        self@.wf()
    }

    /// What holds of a well-formed store holds of its view: every cell has
    /// its subscribers, and nothing is listed twice.
    pub proof fn lemma_wf_view(&self)
        requires
            self.wf(),
        ensures
            self@.wf(),
    {
    }

    /// A store without cells and without effects.
    pub fn new() -> (ctx: Self)
        ensures
            ctx.wf(),
            ctx@.values.len() == 0,
            ctx@.subscribers.len() == 0,
            ctx@.effect_count == 0,
            ctx@.idle(),
    {
        StateContext {
            cells: Vec::new(),
            next_effect_id: 0,
            current_effect: None,
            pending: Vec::new(),
            visited: Vec::new(),
        }
    }

    /// Whether nothing runs and nothing waits.
    pub fn is_idle(&self) -> (idle: bool)
        requires
            self.wf(),
        ensures
            idle == (self@.current_effect.is_none() && self@.pending.len() == 0),
    {
        self.current_effect.is_none() && self.pending.len() == 0
    }

    /// The number of cells. A handle belongs to this store if its cell's place
    /// is below it.
    pub fn cell_count(&self) -> (count: usize)
        ensures
            count == self@.values.len(),
    {
        self.cells.len()
    }

    /// The number of effects registered.
    pub fn effect_count(&self) -> (count: usize)
        ensures
            count == self@.effect_count,
    {
        self.next_effect_id
    }

    /// The effect that is running, if one is.
    pub fn current_effect(&self) -> (current: Option<EffectId>)
        ensures
            current == self@.current_effect,
    {
        self.current_effect
    }

    /// Hands out the effect that is to run next, and marks it as running. It
    /// is the one that has waited longest. `None` while an effect is running,
    /// and when none waits.
    pub fn next_effect(&mut self) -> (next: Option<EffectId>)
        requires
            old(self).wf(),
        ensures
            final(self).wf(),
            old(self)@.current_effect.is_some() || old(self)@.pending.len() == 0 ==> next.is_none()
                && final(self)@ == old(self)@,
            old(self)@.current_effect.is_none() && old(self)@.pending.len() > 0 ==> next == Some(
                old(self)@.pending[0],
            ) && final(self)@ == (StateContextView {
                current_effect: next,
                pending: old(self)@.pending.drop_first(),
                visited: old(self)@.visited.push(old(self)@.pending[0]),
                ..old(self)@
            }),
    {
        if self.current_effect.is_some() || self.pending.len() == 0 {
            return None;
        }
        let id = self.pending.remove(0);
        self.visited.push(id);
        self.current_effect = Some(id);
        proof {
            assert(self.pending@ =~= old(self)@.pending.drop_first());
            assert(self@.visited.last() == id);
            assert(self@.values =~= old(self)@.values);
            assert(self@.subscribers =~= old(self)@.subscribers);
        }
        Some(id)
    }

    /// Marks the running effect as done. When no effect waits, the batch is
    /// over, and every effect may be triggered again.
    pub fn finish_effect(&mut self)
        requires
            old(self).wf(),
        ensures
            final(self).wf(),
            final(self)@ == (StateContextView {
                current_effect: None,
                visited: if old(self)@.pending.len() == 0 {
                    Seq::empty()
                } else {
                    old(self)@.visited
                },
                ..old(self)@
            }),
    {
        self.current_effect = None;
        if self.pending.len() == 0 {
            self.visited.clear();
        }
        proof {
            assert(self@.values =~= old(self)@.values);
            assert(self@.subscribers =~= old(self)@.subscribers);
        }
    }

    /// Adds the subscribers of cell `cell` to the queue.
    fn trigger(&mut self, cell: usize)
        requires
            old(self).wf(),
            cell < old(self)@.values.len(),
        ensures
            final(self).wf(),
            final(self)@ == (StateContextView {
                pending: schedule(
                    old(self)@.pending,
                    old(self)@.visited,
                    old(self)@.subscribers[cell as int],
                ),
                ..old(self)@
            }),
    {
        let ghost before = self@;
        let ghost subs = before.subscribers[cell as int];
        let count = self.cells[cell].subscribers.len();
        let mut i: usize = 0;
        while i < count
            invariant
                i <= count,
                cell < self.cells@.len(),
                count == subs.len(),
                before.wf(),
                subs == before.subscribers[cell as int],
                self.cells@ == old(self).cells@,
                self.next_effect_id == old(self).next_effect_id,
                self.current_effect == old(self).current_effect,
                self.visited@ == before.visited,
                before == old(self)@,
                self.pending@ == schedule(before.pending, before.visited, subs.take(i as int)),
                self.pending@.no_duplicates(),
                forall|j: int|
                    0 <= j < self.pending@.len() ==> #[trigger] self.pending@[j]
                        < before.effect_count,
                forall|j: int, k: int|
                    0 <= j < self.pending@.len() && 0 <= k < before.visited.len()
                        ==> #[trigger] self.pending@[j] != #[trigger] before.visited[k],
            decreases count - i,
        {
            let id = self.cells[cell].subscribers[i];
            assert(subs.take(i + 1).drop_last() =~= subs.take(i as int));
            assert(subs[i as int] == id);
            assert(before.subscribers[cell as int][i as int] < before.effect_count);
            if !contains_id(&self.pending, id) && !contains_id(&self.visited, id) {
                self.pending.push(id);
            }
            i += 1;
        }
        proof {
            assert(subs.take(count as int) =~= subs);
            assert(self@.values =~= before.values);
            assert(self@.subscribers =~= before.subscribers);
        }
    }
}

/// Makes a cell that holds `initial`, and returns the handle that reads it and
/// the handle that writes it.
pub fn use_state<T: Clone>(ctx: &mut StateContext<T>, initial: T) -> (handles: (
    GetState<T>,
    SetState<T>,
))
    requires
        old(ctx).wf(),
    ensures
        final(ctx).wf(),
        handles.0.id() == old(ctx)@.values.len(),
        handles.1.id() == old(ctx)@.values.len(),
        final(ctx)@ == (StateContextView {
            values: old(ctx)@.values.push(initial),
            subscribers: old(ctx)@.subscribers.push(Seq::empty()),
            ..old(ctx)@
        }),
{
    let cell = ctx.cells.len();
    ctx.cells.push(InnerState { value: initial, subscribers: Vec::new() });
    proof {
        assert(ctx@.values =~= old(ctx)@.values.push(initial));
        assert(ctx@.subscribers =~= old(ctx)@.subscribers.push(Seq::empty()));
    }
    (GetState { cell, marker: PhantomData }, SetState { cell, marker: PhantomData })
}

/// Registers an effect and returns its id. The effect waits to run for the
/// first time; the caller keeps its code under the id.
pub fn use_effect<T>(ctx: &mut StateContext<T>) -> (id: EffectId)
    requires
        old(ctx).wf(),
        old(ctx)@.effect_count < usize::MAX,
    ensures
        final(ctx).wf(),
        id == old(ctx)@.effect_count,
        final(ctx)@ == (StateContextView {
            effect_count: (id + 1) as usize,
            pending: old(ctx)@.pending.push(id),
            ..old(ctx)@
        }),
{
    let id = ctx.next_effect_id;
    ctx.next_effect_id = id + 1;
    ctx.pending.push(id);
    proof {
        assert(ctx@.values =~= old(ctx)@.values);
        assert(ctx@.subscribers =~= old(ctx)@.subscribers);
    }
    id
}

impl<T: Clone> GetState<T> {
    /// Reads the cell: returns a copy of its value, and subscribes the effect
    /// that is running, if one is, to the cell.
    pub fn get(&self, ctx: &mut StateContext<T>) -> (value: T)
        requires
            old(ctx).wf(),
            self.id() < old(ctx)@.values.len(),
        ensures
            final(ctx).wf(),
            cloned(old(ctx)@.values[self.id() as int], value),
            final(ctx)@ == old(ctx)@.subscribed(self.id() as int),
    {
        let ghost before = ctx@;
        if let Some(id) = ctx.current_effect {
            if !contains_id(&ctx.cells[self.cell].subscribers, id) {
                ctx.cells[self.cell].subscribers.push(id);
                proof {
                    assert(ctx@.values =~= before.values);
                    assert(ctx@.subscribers =~= before.subscribers.update(
                        self.cell as int,
                        before.subscribers[self.cell as int].push(id),
                    ));
                    assert(before.visited.contains(id));
                }
            }
        }
        ctx.cells[self.cell].value.clone()
    }
}

impl<T> SetState<T> {
    /// Writes `new_value` to the cell and makes the cell's subscribers wait to
    /// run, in the order in which they subscribed; one that waits already, or
    /// has started in this batch, is left out.
    pub fn set(&self, ctx: &mut StateContext<T>, new_value: T)
        requires
            old(ctx).wf(),
            self.id() < old(ctx)@.values.len(),
        ensures
            final(ctx).wf(),
            final(ctx)@ == old(ctx)@.written(self.id() as int, new_value),
    {
        let ghost before = ctx@;
        ctx.cells[self.cell].value = new_value;
        proof {
            assert(ctx@.values =~= before.values.update(self.cell as int, new_value));
            assert(ctx@.subscribers =~= before.subscribers);
        }
        ctx.trigger(self.cell);
    }

    /// Writes to the cell what `update_fn` makes of the cell's value, and
    /// makes the cell's subscribers wait to run, as `set` does. The value is
    /// read before anything is written.
    pub fn update<F>(&self, ctx: &mut StateContext<T>, update_fn: F) where F: FnOnce(&T) -> T
        requires
            old(ctx).wf(),
            self.id() < old(ctx)@.values.len(),
            call_requires(update_fn, (&old(ctx)@.values[self.id() as int],)),
        ensures
            final(ctx).wf(),
            call_ensures(
                update_fn,
                (&old(ctx)@.values[self.id() as int],),
                final(ctx)@.values[self.id() as int],
            ),
            final(ctx)@ == old(ctx)@.written(
                self.id() as int,
                final(ctx)@.values[self.id() as int],
            ),
    {
        let ghost before = ctx@;
        let new_value = update_fn(&ctx.cells[self.cell].value);
        ctx.cells[self.cell].value = new_value;
        proof {
            assert(ctx@.values =~= before.values.update(self.cell as int, new_value));
            assert(ctx@.subscribers =~= before.subscribers);
        }
        ctx.trigger(self.cell);
    }
}

/// When nothing waits and nothing has started, a write makes exactly the
/// cell's subscribers wait, each once.
pub proof fn lemma_schedule_idle(triggered: Seq<EffectId>)
    requires
        triggered.no_duplicates(),
    ensures
        schedule(Seq::empty(), Seq::empty(), triggered) == triggered,
    decreases triggered.len(),
{
    if triggered.len() > 0 {
        lemma_schedule_idle(triggered.drop_last());
        assert(triggered.drop_last().push(triggered.last()) =~= triggered);
    } else {
        assert(triggered =~= Seq::<EffectId>::empty());
    }
}

/// A write to a cell of an idle store makes exactly the cell's subscribers
/// wait, each once: a cell with so many subscribers triggers so many runs.
pub proof fn lemma_write_runs_each_subscriber_once<T>(
    store: StateContextView<T>,
    cell: int,
    value: T,
)
    requires
        store.wf(),
        store.idle(),
        0 <= cell < store.values.len(),
    ensures
        store.written(cell, value).pending == store.subscribers[cell],
        store.written(cell, value).pending.no_duplicates(),
        store.written(cell, value).wf(),
{
    assert(store.pending =~= Seq::<EffectId>::empty());
    assert(store.visited =~= Seq::<EffectId>::empty());
    lemma_schedule_idle(store.subscribers[cell]);
}

/// An effect that has read no cell is never triggered: a write makes it wait
/// only if it waited before.
pub proof fn lemma_effect_without_dependencies_is_not_triggered<T>(
    store: StateContextView<T>,
    cell: int,
    value: T,
    id: EffectId,
)
    requires
        0 <= cell < store.values.len(),
        forall|c: int|
            0 <= c < store.subscribers.len() ==> !(#[trigger] store.subscribers[c]).contains(id),
        store.values.len() == store.subscribers.len(),
    ensures
        store.written(cell, value).pending.contains(id) ==> store.pending.contains(id),
{
    if store.written(cell, value).pending.contains(id) {
        lemma_schedule_only_subscribers(store.pending, store.visited, store.subscribers[cell], id);
    }
}

/// What waited before a write waits after it, in the same order and in front:
/// a write only adds to the end of the queue.
pub proof fn lemma_schedule_keeps_queue(
    pending: Seq<EffectId>,
    visited: Seq<EffectId>,
    triggered: Seq<EffectId>,
)
    ensures
        schedule(pending, visited, triggered).len() >= pending.len(),
        schedule(pending, visited, triggered).subrange(0, pending.len() as int) == pending,
    decreases triggered.len(),
{
    if triggered.len() > 0 {
        lemma_schedule_keeps_queue(pending, visited, triggered.drop_last());
        let queue = schedule(pending, visited, triggered.drop_last());
        assert(queue.push(triggered.last()).subrange(0, pending.len() as int) =~= queue.subrange(
            0,
            pending.len() as int,
        ));
    } else {
        assert(pending.subrange(0, pending.len() as int) =~= pending);
    }
}

/// After a write every triggered effect waits, unless it has started in this
/// batch; and no effect waits twice.
proof fn lemma_schedule_covers(
    pending: Seq<EffectId>,
    visited: Seq<EffectId>,
    triggered: Seq<EffectId>,
)
    requires
        pending.no_duplicates(),
    ensures
        schedule(pending, visited, triggered).no_duplicates(),
        forall|i: int|
            0 <= i < triggered.len() ==> visited.contains(#[trigger] triggered[i]) || schedule(
                pending,
                visited,
                triggered,
            ).contains(triggered[i]),
        forall|i: int|
            0 <= i < schedule(pending, visited, triggered).len() ==> pending.contains(
                #[trigger] schedule(pending, visited, triggered)[i],
            ) || (triggered.contains(schedule(pending, visited, triggered)[i])
                && !visited.contains(schedule(pending, visited, triggered)[i])),
    decreases triggered.len(),
{
    if triggered.len() > 0 {
        let rest = triggered.drop_last();
        let id = triggered.last();
        lemma_schedule_covers(pending, visited, rest);
        let queue = schedule(pending, visited, rest);
        let after = schedule(pending, visited, triggered);
        assert forall|i: int| 0 <= i < triggered.len() implies visited.contains(
            #[trigger] triggered[i],
        ) || after.contains(triggered[i]) by {
            if i < rest.len() {
                assert(rest[i] == triggered[i]);
                if queue.contains(rest[i]) {
                    let at = choose|at: int| 0 <= at < queue.len() && queue[at] == rest[i];
                    assert(after[at] == rest[i]);
                }
            } else if !visited.contains(id) && !queue.contains(id) {
                assert(after[queue.len() as int] == id);
            }
        }
        assert forall|i: int| 0 <= i < after.len() implies pending.contains(#[trigger] after[i])
            || (triggered.contains(after[i]) && !visited.contains(after[i])) by {
            if i < queue.len() {
                assert(after[i] == queue[i]);
                if rest.contains(queue[i]) {
                    let at = choose|at: int| 0 <= at < rest.len() && rest[at] == queue[i];
                    assert(triggered[at] == queue[i]);
                }
            } else {
                assert(after[i] == id);
                assert(triggered[triggered.len() - 1] == id);
            }
        }
    }
}

/// A write keeps the store well-formed.
pub proof fn lemma_written_wf<T>(store: StateContextView<T>, cell: int, value: T)
    requires
        store.wf(),
        0 <= cell < store.values.len(),
    ensures
        store.written(cell, value).wf(),
{
    let subs = store.subscribers[cell];
    let after = store.written(cell, value);
    lemma_schedule_covers(store.pending, store.visited, subs);
    assert forall|i: int| 0 <= i < after.pending.len() implies #[trigger] after.pending[i]
        < store.effect_count by {
        let id = after.pending[i];
        if store.pending.contains(id) {
            let at = choose|at: int| 0 <= at < store.pending.len() && store.pending[at] == id;
            assert(store.pending[at] < store.effect_count);
        } else {
            let at = choose|at: int| 0 <= at < subs.len() && subs[at] == id;
            assert(store.subscribers[cell][at] < store.effect_count);
        }
    }
    assert forall|i: int, j: int|
        0 <= i < after.pending.len() && 0 <= j < after.visited.len() implies #[trigger] after.pending[i]
        != #[trigger] after.visited[j] by {
        let id = after.pending[i];
        if store.pending.contains(id) {
            let at = choose|at: int| 0 <= at < store.pending.len() && store.pending[at] == id;
            assert(store.pending[at] != store.visited[j]);
        } else {
            assert(!store.visited.contains(id));
        }
    }
}

/// After a write to a cell, whatever waited or ran before, every subscriber
/// of the cell waits exactly once or has already started in the batch that is
/// under way; and an effect that waits now waited before or is a subscriber.
/// So one write makes each subscriber run once more, and no other effect.
pub proof fn lemma_write_triggers_each_subscriber<T>(
    store: StateContextView<T>,
    cell: int,
    value: T,
)
    requires
        store.wf(),
        0 <= cell < store.values.len(),
    ensures
        store.written(cell, value).pending.no_duplicates(),
        forall|i: int|
            0 <= i < store.subscribers[cell].len() ==> store.visited.contains(
                #[trigger] store.subscribers[cell][i],
            ) || store.written(cell, value).pending.contains(store.subscribers[cell][i]),
        forall|i: int|
            0 <= i < store.written(cell, value).pending.len() ==> store.pending.contains(
                #[trigger] store.written(cell, value).pending[i],
            ) || store.subscribers[cell].contains(store.written(cell, value).pending[i]),
{
    lemma_schedule_covers(store.pending, store.visited, store.subscribers[cell]);
}

/// A write makes exactly the cell's subscribers wait, each once and in their
/// order, behind the effects that wait already, if none of the subscribers
/// waits or has started in the batch that is under way. The store need not
/// be idle.
pub proof fn lemma_write_queues_fresh_subscribers<T>(
    store: StateContextView<T>,
    cell: int,
    value: T,
)
    requires
        store.wf(),
        0 <= cell < store.values.len(),
        forall|i: int|
            0 <= i < store.subscribers[cell].len() ==> !store.pending.contains(
                #[trigger] store.subscribers[cell][i],
            ) && !store.visited.contains(store.subscribers[cell][i]),
    ensures
        store.written(cell, value).pending == store.pending + store.subscribers[cell],
{
    lemma_schedule_fresh(store.pending, store.visited, store.subscribers[cell]);
}

proof fn lemma_schedule_fresh(
    pending: Seq<EffectId>,
    visited: Seq<EffectId>,
    triggered: Seq<EffectId>,
)
    requires
        triggered.no_duplicates(),
        forall|i: int|
            0 <= i < triggered.len() ==> !pending.contains(#[trigger] triggered[i])
                && !visited.contains(triggered[i]),
    ensures
        schedule(pending, visited, triggered) == pending + triggered,
    decreases triggered.len(),
{
    if triggered.len() > 0 {
        let rest = triggered.drop_last();
        let id = triggered.last();
        assert forall|i: int| 0 <= i < rest.len() implies !pending.contains(#[trigger] rest[i])
            && !visited.contains(rest[i]) by {
            assert(rest[i] == triggered[i]);
        }
        lemma_schedule_fresh(pending, visited, rest);
        let queue = pending + rest;
        assert(triggered[triggered.len() - 1] == id);
        if queue.contains(id) {
            let at = choose|at: int| 0 <= at < queue.len() && queue[at] == id;
            if at < pending.len() {
                assert(pending[at] == id);
            } else {
                assert(rest[at - pending.len()] == id);
                assert(triggered[at - pending.len()] == id);
            }
        }
        assert(queue.push(id) =~= pending + triggered);
    } else {
        assert(pending + triggered =~= pending);
    }
}

/// Subscriptions are never dropped: whoever has subscribed to a cell is still
/// subscribed after any read and after any write.
pub proof fn lemma_subscriptions_are_kept<T>(
    store: StateContextView<T>,
    cell: int,
    value: T,
    of: int,
    id: EffectId,
)
    requires
        0 <= cell < store.subscribers.len(),
        0 <= of < store.subscribers.len(),
        store.subscribers[of].contains(id),
    ensures
        store.subscribed(cell).subscribers[of].contains(id),
        store.written(cell, value).subscribers[of].contains(id),
{
    let at = choose|i: int| 0 <= i < store.subscribers[of].len() && store.subscribers[of][i] == id;
    if let Some(running) = store.current_effect {
        if !store.subscribers[cell].contains(running) && of == cell {
            assert(store.subscribers[of].push(running)[at] == id);
        }
    }
}

/// A write makes no effect wait that is not a subscriber of the cell: what
/// waits afterwards waited before or is a subscriber.
pub proof fn lemma_schedule_only_subscribers(
    pending: Seq<EffectId>,
    visited: Seq<EffectId>,
    triggered: Seq<EffectId>,
    id: EffectId,
)
    requires
        schedule(pending, visited, triggered).contains(id),
    ensures
        pending.contains(id) || triggered.contains(id),
    decreases triggered.len(),
{
    if triggered.len() > 0 {
        let queue = schedule(pending, visited, triggered.drop_last());
        if queue.contains(id) {
            lemma_schedule_only_subscribers(pending, visited, triggered.drop_last(), id);
            if triggered.drop_last().contains(id) {
                let rest = triggered.drop_last();
                let i = choose|i: int| 0 <= i < rest.len() && rest[i] == id;
                assert(triggered[i] == id);
            }
        } else {
            assert(queue.push(triggered.last()).contains(id));
            let longer = queue.push(triggered.last());
            let i = choose|i: int| 0 <= i < longer.len() && longer[i] == id;
            assert(i == queue.len());
            assert(triggered[triggered.len() - 1] == id);
        }
    }
}

/// Ids without a repetition, all below `bound`, are at most `bound` many.
proof fn lemma_distinct_ids_bounded(ids: Seq<EffectId>, bound: nat)
    requires
        ids.no_duplicates(),
        forall|i: int| 0 <= i < ids.len() ==> #[trigger] ids[i] < bound,
    ensures
        ids.len() <= bound,
    decreases bound,
{
    if ids.len() > 0 {
        if bound == 0 {
            assert(ids[0] < bound);
        } else {
            let top = (bound - 1) as usize;
            if exists|i: int| 0 <= i < ids.len() && ids[i] == top {
                let at = choose|i: int| 0 <= i < ids.len() && ids[i] == top;
                let rest = ids.remove(at);
                assert forall|i: int| 0 <= i < rest.len() implies #[trigger] rest[i] < bound - 1 by {
                    if i < at {
                        assert(rest[i] == ids[i]);
                    } else {
                        assert(rest[i] == ids[i + 1]);
                    }
                }
                assert(rest.no_duplicates()) by {
                    assert forall|i: int, j: int|
                        0 <= i < rest.len() && 0 <= j < rest.len() && i != j implies rest[i]
                        != rest[j] by {
                        let a = if i < at {
                            i
                        } else {
                            i + 1
                        };
                        let b = if j < at {
                            j
                        } else {
                            j + 1
                        };
                        assert(rest[i] == ids[a] && rest[j] == ids[b]);
                    }
                }
                lemma_distinct_ids_bounded(rest, (bound - 1) as nat);
            } else {
                lemma_distinct_ids_bounded(ids, (bound - 1) as nat);
            }
        }
    }
}

/// In one batch no effect runs twice: the effects that have started and those
/// that wait are together at most as many as there are effects. So a batch
/// ends after at most that many runs, whatever the effects trigger, unless new
/// effects are registered on the way.
pub proof fn lemma_batch_bounded<T>(store: StateContextView<T>)
    requires
        store.wf(),
    ensures
        store.visited.len() + store.pending.len() <= store.effect_count,
{
    let all = store.visited + store.pending;
    assert(all.no_duplicates()) by {
        assert forall|i: int, j: int|
            0 <= i < all.len() && 0 <= j < all.len() && i != j implies all[i] != all[j] by {
            if i < store.visited.len() && j >= store.visited.len() {
                assert(all[j] == store.pending[j - store.visited.len()]);
            }
            if j < store.visited.len() && i >= store.visited.len() {
                assert(all[i] == store.pending[i - store.visited.len()]);
            }
        }
    }
    lemma_distinct_ids_bounded(all, store.effect_count as nat);
}

} // verus!
