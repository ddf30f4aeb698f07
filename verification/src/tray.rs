//! `Tray`: the room where incoming items wait to be batched.
use vstd::prelude::*;
use crate::types::BatchItem;

verus! {

/// What the owner of a tray has to do after handing it an event.
pub enum TrayAction<S> {
    /// Nothing: keep waiting.
    Wait,
    /// The tray received its first items: arm the timer for this batch number.
    SetTimer(u64),
    /// A batch is complete: process these items.
    Dispatch(Vec<BatchItem<S>>),
}

/// A queue of items waiting to be batched.
///
/// As soon as the number of waiting items reaches the soft maximum batch
/// size, the whole content is dispatched as one batch. Each dispatched batch
/// increments the batch sequence number, so that a timer armed for an older
/// batch is recognised and ignored.
pub struct Tray<S> {
    /// Items waiting to be batched, in arrival order.
    items: Vec<BatchItem<S>>,
    /// Soft maximum batch size threshold for dispatching.
    soft_max_batch_size: usize,
    /// Sequence number of the batch being collected.
    batch_seqno: u64,
    /// Batch number carried by the most recent timer request.
    armed_seqno: Ghost<Option<u64>>,
    /// Every item ever appended, in order.
    received: Ghost<Seq<BatchItem<S>>>,
    /// Every item ever dispatched, in order, all batches concatenated.
    dispatched: Ghost<Seq<BatchItem<S>>>,
}

/// `post` and `action` are what appending `new_items` to `pre` gives: the
/// items are added at the end; if the waiting items then reach the soft
/// maximum batch size, all of them are dispatched and the batch number
/// increments; otherwise, if the tray was empty, the timer is to be armed
/// for the current batch.
pub open spec fn appended<S>(
    pre: Tray<S>,
    post: Tray<S>,
    new_items: Seq<BatchItem<S>>,
    action: TrayAction<S>,
) -> bool {
    &&& post.soft_max() == pre.soft_max()
    &&& post.received() == pre.received() + new_items
    &&& pre.items().len() + new_items.len() >= pre.soft_max() ==> {
        &&& action matches TrayAction::Dispatch(batch) && batch@ == pre.items() + new_items
        &&& post.items().len() == 0
        &&& post.seqno() == pre.seqno() + 1
        &&& post.armed() == pre.armed()
    }
    &&& pre.items().len() + new_items.len() < pre.soft_max() ==> {
        &&& post.items() == pre.items() + new_items
        &&& post.seqno() == pre.seqno()
        &&& pre.items().len() == 0 ==> action == TrayAction::<S>::SetTimer(pre.seqno())
            && post.armed() == Some(pre.seqno())
        &&& pre.items().len() > 0 ==> action is Wait && post.armed() == pre.armed()
    }
}

/// `post` and `r` are what a timer that fired for batch `expected` does to
/// `pre`: if it was armed for the current batch and items wait, they are all
/// dispatched and the batch number increments; otherwise nothing changes.
pub open spec fn triggered<S>(
    pre: Tray<S>,
    post: Tray<S>,
    expected: u64,
    r: Option<Vec<BatchItem<S>>>,
) -> bool {
    &&& post.soft_max() == pre.soft_max()
    &&& post.received() == pre.received()
    &&& post.armed() == pre.armed()
    &&& expected == pre.seqno() && pre.items().len() > 0 ==> {
        &&& r matches Some(batch) && batch@ == pre.items()
        &&& post.items().len() == 0
        &&& post.seqno() == pre.seqno() + 1
    }
    &&& !(expected == pre.seqno() && pre.items().len() > 0) ==> {
        &&& r is None
        &&& post.items() == pre.items()
        &&& post.seqno() == pre.seqno()
    }
}

/// Items never stay stranded: when items wait in a tray, the timer armed
/// for them dispatches all of them, in order, when it fires.
pub proof fn law_waiting_items_leave_with_their_timer<S>(
    pre: Tray<S>,
    post: Tray<S>,
    r: Option<Vec<BatchItem<S>>>,
)
    requires
        pre.wf(),
        pre.items().len() > 0,
        triggered(pre, post, pre.armed().unwrap(), r),
    ensures
        r matches Some(batch) && batch@ == pre.items(),
        post.items().len() == 0,
{
}

/// A timer that fires for the current batch while items wait dispatches all
/// of them, in order, and the batch number moves on.
pub proof fn law_timer_of_current_batch_dispatches<S>(
    pre: Tray<S>,
    post: Tray<S>,
    r: Option<Vec<BatchItem<S>>>,
)
    requires
        triggered(pre, post, pre.seqno(), r),
        pre.items().len() > 0,
    ensures
        r matches Some(batch) && batch@ == pre.items(),
        post.items().len() == 0,
        post.seqno() == pre.seqno() + 1,
{
}

/// A timer armed for an earlier batch changes nothing when it fires.
pub proof fn law_stale_timer_is_ignored<S>(
    pre: Tray<S>,
    post: Tray<S>,
    expected: u64,
    r: Option<Vec<BatchItem<S>>>,
)
    requires
        expected < pre.seqno(),
        triggered(pre, post, expected, r),
    ensures
        r is None,
        post.items() == pre.items(),
        post.seqno() == pre.seqno(),
{
}

/// One call made on a tray, with what it returned.
pub enum TrayStep<S> {
    /// `append` of these items, which returned this action.
    Append(Seq<BatchItem<S>>, TrayAction<S>),
    /// `trigger_batch` for this batch number, which returned this.
    Trigger(u64, Option<Vec<BatchItem<S>>>),
}

/// `post` is what the call `step` makes of `pre`.
pub open spec fn step_holds<S>(pre: Tray<S>, post: Tray<S>, step: TrayStep<S>) -> bool {
    match step {
        TrayStep::Append(items, action) => appended(pre, post, items, action),
        TrayStep::Trigger(expected, r) => triggered(pre, post, expected, r),
    }
}

/// The items a call hands to the tray.
pub open spec fn step_input<S>(step: TrayStep<S>) -> Seq<BatchItem<S>> {
    match step {
        TrayStep::Append(items, _) => items,
        TrayStep::Trigger(_, _) => Seq::empty(),
    }
}

/// The items a call dispatches as a batch.
pub open spec fn step_output<S>(step: TrayStep<S>) -> Seq<BatchItem<S>> {
    match step {
        TrayStep::Append(_, TrayAction::Dispatch(batch)) => batch@,
        TrayStep::Trigger(_, Some(batch)) => batch@,
        _ => Seq::empty(),
    }
}

/// All items handed to the tray by `steps`, in call order.
pub open spec fn all_inputs<S>(steps: Seq<TrayStep<S>>) -> Seq<BatchItem<S>>
    decreases steps.len(),
{
    if steps.len() == 0 {
        Seq::empty()
    } else {
        all_inputs(steps.drop_last()) + step_input(steps.last())
    }
}

/// All batches dispatched by `steps`, concatenated in dispatch order.
pub open spec fn all_outputs<S>(steps: Seq<TrayStep<S>>) -> Seq<BatchItem<S>>
    decreases steps.len(),
{
    if steps.len() == 0 {
        Seq::empty()
    } else {
        all_outputs(steps.drop_last()) + step_output(steps.last())
    }
}

/// Over any sequence of calls on a tray that starts empty, nothing is lost,
/// duplicated or reordered: the dispatched batches, concatenated in order,
/// followed by the waiting items, are all items appended, in call order.
/// And fewer items wait than the soft maximum batch size (none when it is 0).
/// `trays[i + 1]` is the tray after the call `steps[i]` on `trays[i]`.
pub proof fn law_tray_run<S>(trays: Seq<Tray<S>>, steps: Seq<TrayStep<S>>)
    requires
        trays.len() == steps.len() + 1,
        trays[0].items().len() == 0,
        forall|i: int| 0 <= i < steps.len() ==> step_holds(trays[i], trays[i + 1], #[trigger] steps[i]),
    ensures
        all_outputs(steps) + trays.last().items() == all_inputs(steps),
        trays.last().soft_max() == trays[0].soft_max(),
        trays.last().items().len() == 0 || trays.last().items().len() < trays[0].soft_max(),
    decreases steps.len(),
{
    if steps.len() == 0 {
        assert(all_outputs(steps) + trays.last().items() =~= all_inputs(steps));
    } else {
        let n = steps.len() - 1;
        let ts = trays.drop_last();
        let ss = steps.drop_last();
        assert forall|i: int| 0 <= i < ss.len() implies step_holds(ts[i], ts[i + 1], #[trigger] ss[i]) by {
            assert(step_holds(trays[i], trays[i + 1], steps[i]));
        }
        law_tray_run(ts, ss);
        let pre = trays[n];
        let post = trays[n + 1];
        let step = steps[n];
        assert(step_holds(pre, post, step));
        assert(ts.last() == pre);
        match step {
            TrayStep::Append(items, action) => {
                if pre.items().len() + items.len() >= pre.soft_max() {
                    assert(all_outputs(steps) + post.items() =~= all_inputs(steps));
                } else {
                    assert(all_outputs(steps) + post.items() =~= all_inputs(steps));
                }
            },
            TrayStep::Trigger(expected, r) => {
                assert(all_outputs(steps) + post.items() =~= all_inputs(steps));
            },
        }
    }
}

/// When the first items of a batch arrive and do not fill it, the action
/// returned asks for the timer of the current batch.
pub proof fn law_first_items_arm_the_timer<S>(
    pre: Tray<S>,
    post: Tray<S>,
    new_items: Seq<BatchItem<S>>,
    action: TrayAction<S>,
)
    requires
        appended(pre, post, new_items, action),
        pre.items().len() == 0,
        new_items.len() < pre.soft_max(),
    ensures
        action matches TrayAction::SetTimer(n) && n == pre.seqno(),
        post.items() == new_items,
        post.seqno() == pre.seqno(),
{
    assert(pre.items() + new_items =~= new_items);
}

/// When the waiting items reach the soft maximum batch size, all of them
/// leave at once, in order, and the batch number moves on.
pub proof fn law_full_tray_dispatches<S>(
    pre: Tray<S>,
    post: Tray<S>,
    new_items: Seq<BatchItem<S>>,
    action: TrayAction<S>,
)
    requires
        appended(pre, post, new_items, action),
        pre.items().len() + new_items.len() >= pre.soft_max(),
    ensures
        action matches TrayAction::Dispatch(batch) && batch@ == pre.items() + new_items,
        post.items().len() == 0,
        post.seqno() == pre.seqno() + 1,
{
}

/// `step` returned a request to arm the timer for batch `n`.
pub open spec fn step_arms_timer<S>(step: TrayStep<S>, n: u64) -> bool {
    match step {
        TrayStep::Append(_, TrayAction::SetTimer(m)) => m == n,
        _ => false,
    }
}

/// Over any sequence of calls on a tray that starts empty, whenever items
/// wait, one of the calls returned the request to arm the timer for the
/// current batch: the owner was told to arm the very timer that will
/// dispatch them.
pub proof fn law_waiting_items_have_a_requested_timer<S>(
    trays: Seq<Tray<S>>,
    steps: Seq<TrayStep<S>>,
)
    requires
        trays.len() == steps.len() + 1,
        trays[0].items().len() == 0,
        forall|i: int| 0 <= i < steps.len() ==> step_holds(trays[i], trays[i + 1], #[trigger] steps[i]),
    ensures
        trays.last().items().len() > 0 ==> exists|i: int|
            0 <= i < steps.len() && step_arms_timer(#[trigger] steps[i], trays.last().seqno()),
    decreases steps.len(),
{
    if steps.len() > 0 {
        let n = steps.len() - 1;
        let ts = trays.drop_last();
        let ss = steps.drop_last();
        assert forall|i: int| 0 <= i < ss.len() implies step_holds(ts[i], ts[i + 1], #[trigger] ss[i]) by {
            assert(step_holds(trays[i], trays[i + 1], steps[i]));
        }
        law_waiting_items_have_a_requested_timer(ts, ss);
        let pre = trays[n];
        let post = trays[n + 1];
        assert(step_holds(pre, post, steps[n]));
        assert(ts.last() == pre);
        if post.items().len() > 0 {
            if pre.items().len() > 0 && post.seqno() == pre.seqno() {
                let i = choose|i: int| 0 <= i < ss.len() && step_arms_timer(#[trigger] ss[i], pre.seqno());
                assert(ss[i] == steps[i]);
            } else {
                match steps[n] {
                    TrayStep::Append(items, action) => {
                        assert(pre.items().len() == 0);
                        assert(step_arms_timer(steps[n], post.seqno()));
                    },
                    TrayStep::Trigger(e, r) => {},
                }
            }
        }
    }
}

impl<S> Tray<S> {
    /// The items waiting, in arrival order.
    pub closed spec fn items(&self) -> Seq<BatchItem<S>> {
        self.items@
    }

    /// The soft maximum batch size.
    pub closed spec fn soft_max(&self) -> usize {
        self.soft_max_batch_size
    }

    /// The current batch sequence number.
    pub closed spec fn seqno(&self) -> u64 {
        self.batch_seqno
    }

    /// The batch number of the most recent timer request, if any was made.
    pub closed spec fn armed(&self) -> Option<u64> {
        self.armed_seqno@
    }

    /// All items ever appended, in order.
    pub closed spec fn received(&self) -> Seq<BatchItem<S>> {
        self.received@
    }

    /// All items ever dispatched, in order.
    pub closed spec fn dispatched(&self) -> Seq<BatchItem<S>> {
        self.dispatched@
    }

    /// The tray's invariant: fewer items wait than the soft maximum batch
    /// size (none when it is 0), items that wait have a timer armed for the
    /// current batch, and every item received was dispatched, in order, or
    /// is still waiting.
    pub open spec fn wf(&self) -> bool {
        &&& self.items().len() == 0 || self.items().len() < self.soft_max()
        &&& self.items().len() > 0 ==> self.armed() == Some(self.seqno())
        &&& self.received() == self.dispatched() + self.items()
    }

    /// Create an empty tray with the given soft maximum batch size.
    pub fn new(soft_max_batch_size: usize) -> (r: Self)
        ensures
            r.wf(),
            r.items() == Seq::<BatchItem<S>>::empty(),
            r.soft_max() == soft_max_batch_size,
            r.seqno() == 0,
            r.armed() == None::<u64>,
            r.received() == Seq::<BatchItem<S>>::empty(),
    {
        Tray {
            items: Vec::new(),
            soft_max_batch_size,
            batch_seqno: 0,
            armed_seqno: Ghost(None),
            received: Ghost(Seq::empty()),
            dispatched: Ghost(Seq::empty()),
        }
    }

    /// Number of waiting items.
    pub fn len(&self) -> (r: usize)
        ensures
            r == self.items().len(),
    {
        self.items.len()
    }

    /// Whether no item is waiting.
    pub fn is_empty(&self) -> (r: bool)
        ensures
            r == (self.items().len() == 0),
    {
        self.items.is_empty()
    }

    /// The current batch sequence number.
    pub fn batch_seqno(&self) -> (r: u64)
        ensures
            r == self.seqno(),
    {
        self.batch_seqno
    }

    /// Add the items of one request, keeping them together.
    ///
    /// If the waiting items then reach the soft maximum batch size, all of
    /// them are dispatched and the batch number increments. Otherwise, if
    /// the tray was empty, the timer is to be armed for the current batch.
    pub fn append(&mut self, new_items: Vec<BatchItem<S>>) -> (action: TrayAction<S>)
        requires
            old(self).wf(),
            old(self).seqno() < u64::MAX,
        ensures
            final(self).wf(),
            appended(*old(self), *final(self), new_items@, action),
    {
        let was_empty = self.items.is_empty();
        let ghost added = new_items@;
        let mut new_items = new_items;
        self.items.append(&mut new_items);
        self.received = Ghost(self.received@ + added);
        if self.items.len() >= self.soft_max_batch_size {
            let mut batch: Vec<BatchItem<S>> = Vec::new();
            std::mem::swap(&mut batch, &mut self.items);
            self.batch_seqno = self.batch_seqno + 1;
            self.dispatched = Ghost(self.dispatched@ + batch@);
            assert(self.received@ =~= self.dispatched@ + self.items@);
            return TrayAction::Dispatch(batch);
        }
        assert(self.received@ =~= self.dispatched@ + self.items@);
        if was_empty {
            self.armed_seqno = Ghost(Some(self.batch_seqno));
            TrayAction::SetTimer(self.batch_seqno)
        } else {
            TrayAction::Wait
        }
    }

    /// Dispatch the waiting items if the timer that fired was armed for the
    /// current batch; a timer armed for an older batch is ignored.
    pub fn trigger_batch(&mut self, expected_batch_seqno: u64) -> (r: Option<Vec<BatchItem<S>>>)
        requires
            old(self).wf(),
            old(self).seqno() < u64::MAX,
        ensures
            final(self).wf(),
            triggered(*old(self), *final(self), expected_batch_seqno, r),
    {
        if expected_batch_seqno == self.batch_seqno && !self.items.is_empty() {
            let mut batch: Vec<BatchItem<S>> = Vec::new();
            std::mem::swap(&mut batch, &mut self.items);
            self.batch_seqno = self.batch_seqno + 1;
            self.dispatched = Ghost(self.dispatched@ + batch@);
            assert(self.received@ =~= self.dispatched@ + self.items@);
            Some(batch)
        } else {
            None
        }
    }
}

} // verus!
