//! The hand-off slot, the suspendable-frame interface, and the trampoline
//! driver.
//!
//! A recursive computation is run as a stack of [`Frame`]s held in a
//! [`PinnedVec`]. The driver polls the top frame. A frame that needs the
//! value of a recursive call registers the child frame in the shared
//! [`Context`] slot and reports [`Step::Pending`]; the driver then pushes
//! that child on top. A frame that finishes reports [`Step::Ready`]; the
//! driver hands its value to the waiting parent through the slot's result
//! cell and pops the finished frame. The loop ends when the bottom (root)
//! frame finishes, and its value is the overall result.

use crate::pinned_vec::PinnedVec;
use vstd::prelude::*;

verus! {

/// What one poll of a frame reports: parked at a yield point after
/// registering a child, or finished with a value.
pub enum Step<V> {
    Pending,
    Ready(V),
}

/// The shared hand-off slot of one driver run: a pending child computation
/// flowing down (`next`) and a finished child's value flowing back up
/// (`result`). Recursion is depth-first and strictly sequential, so one
/// slot pair serves every frame of the run.
pub struct Context<F, V> {
    next: Option<F>,
    result: Option<V>,
}

impl<F, V> Context<F, V> {
    /// The pending child computation, if one is registered.
    pub closed spec fn spec_next(&self) -> Option<F> {
        self.next
    }

    /// The value flowing back to the awaiting parent, if one is in flight.
    pub closed spec fn spec_result(&self) -> Option<V> {
        self.result
    }

    /// An empty slot: no pending child, no value in flight.
    pub fn new() -> (c: Self)
        ensures
            c.spec_next() is None,
            c.spec_result() is None,
    {
        Self { next: None, result: None }
    }

    /// Register a pending child computation. A frame must fully consume one
    /// child's result before registering the next child, so registering on
    /// top of an unconsumed child is ruled out rather than supported by a
    /// queue.
    pub fn set_next(&mut self, fut: F)
        requires
            old(self).spec_next() is None,
        ensures
            final(self).spec_next() == Some(fut),
            final(self).spec_result() == old(self).spec_result(),
    {
        self.next = Some(fut);
    }

    /// Remove and return the pending child. Calling with no child pending
    /// is a protocol violation, unreachable from a frame that kept the
    /// registration contract.
    pub fn take_next(&mut self) -> (fut: F)
        requires
            old(self).spec_next() is Some,
        ensures
            Some(fut) == old(self).spec_next(),
            final(self).spec_next() is None,
            final(self).spec_result() == old(self).spec_result(),
    {
        self.next.take().unwrap()
    }

    /// Put a finished child's value into the return channel for the
    /// awaiting parent.
    pub fn set_result(&mut self, value: V)
        requires
            old(self).spec_result() is None,
        ensures
            final(self).spec_result() == Some(value),
            final(self).spec_next() == old(self).spec_next(),
    {
        self.result = Some(value);
    }

    /// Remove and return the value the just-finished child produced.
    /// Calling with no value in flight is a protocol violation, unreachable
    /// for a frame resumed by the driver.
    pub fn get_result(&mut self) -> (value: V)
        requires
            old(self).spec_result() is Some,
        ensures
            Some(value) == old(self).spec_result(),
            final(self).spec_result() is None,
            final(self).spec_next() == old(self).spec_next(),
    {
        self.result.take().unwrap()
    }
}

/// Register a pending child computation in the slot; the explicit-context
/// counterpart of reaching the slot through ambient storage.
pub fn set_next<F: Frame>(ctx: &mut Context<F, F::Val>, fut: F)
    requires
        old(ctx).spec_next() is None,
    ensures
        final(ctx).spec_next() == Some(fut),
        final(ctx).spec_result() == old(ctx).spec_result(),
{
    ctx.set_next(fut);
}

/// Remove and return the value the just-finished child produced; the
/// explicit-context counterpart of reaching the slot through ambient
/// storage.
pub fn get_result<F: Frame>(ctx: &mut Context<F, F::Val>) -> (value: F::Val)
    requires
        old(ctx).spec_result() is Some,
    ensures
        Some(value) == old(ctx).spec_result(),
        final(ctx).spec_result() is None,
        final(ctx).spec_next() == old(ctx).spec_next(),
{
    ctx.get_result()
}

/// One suspended activation of a recursive computation, written as an
/// explicit state machine: not yet descended, awaiting the child of some
/// call site, or finished. The driver knows nothing of the computation
/// beyond this interface.
pub trait Frame: Sized {
    /// The type of value the computation produces.
    type Val;

    /// The frame's captured state is well formed. The default — no state
    /// is well formed — is for frames of unverified code, which implement
    /// only `poll` and about which the driver then promises nothing.
    open spec fn inv(&self) -> bool {
        false
    }

    /// The value this frame will have produced when it reports ready: the
    /// denotation of the recursive call it stands for.
    open spec fn val_spec(&self) -> Self::Val {
        vstd::pervasive::arbitrary()
    }

    /// The depth of the call tree rooted at this frame, counting this
    /// frame. The driver's arena never grows beyond the root's depth.
    open spec fn depth(&self) -> nat {
        0
    }

    /// How many polls this frame and all its descendants still need. Each
    /// suspension strictly consumes work, which is what makes the driver
    /// loop terminate.
    open spec fn work(&self) -> nat {
        0
    }

    /// The frame has not yet parked at a yield point.
    open spec fn fresh(&self) -> bool {
        false
    }

    /// The frame is parked at a yield point, waiting for a child's value.
    open spec fn awaiting(&self) -> bool {
        false
    }

    /// The value of the child this frame is waiting for.
    open spec fn awaited(&self) -> Self::Val {
        vstd::pervasive::arbitrary()
    }

    /// Run the frame from its current yield point to the next one, or to
    /// completion. A fresh frame is polled with an empty result cell; a
    /// parked frame is polled exactly when the value it awaits sits in the
    /// result cell, and consumes it. Reporting `Pending` means the frame
    /// registered exactly one fresh child — of a strictly shallower call
    /// tree, with at least one poll of work of its own — in the slot, and
    /// is now parked waiting for that child's value; its own denotation is
    /// unchanged. Reporting `Ready(v)` means `v` is the frame's
    /// denotation, with nothing left in the slot.
    fn poll(&mut self, slot: &mut Context<Self, Self::Val>) -> (r: Step<Self::Val>)
        requires
            old(self).inv(),
            (old(self).fresh() && old(slot).spec_result() is None) || (old(self).awaiting()
                && old(slot).spec_result() == Some(old(self).awaited())),
            old(slot).spec_next() is None,
        ensures
            final(slot).spec_result() is None,
            match r {
                Step::Ready(v) => v == old(self).val_spec() && final(slot).spec_next() is None,
                Step::Pending => {
                    &&& final(self).inv()
                    &&& final(self).awaiting()
                    &&& final(self).val_spec() == old(self).val_spec()
                    &&& final(self).depth() == old(self).depth()
                    &&& final(self).work() >= 1
                    &&& final(slot).spec_next() is Some
                    &&& final(slot).spec_next().unwrap().inv()
                    &&& final(slot).spec_next().unwrap().fresh()
                    &&& final(slot).spec_next().unwrap().work() >= 1
                    &&& 1 <= final(slot).spec_next().unwrap().depth() < old(self).depth()
                    &&& final(self).awaited() == final(slot).spec_next().unwrap().val_spec()
                    &&& final(self).work() + final(slot).spec_next().unwrap().work() < old(
                        self,
                    ).work()
                },
            },
    ;
}

/// The polls still owed to all frames of a stack together; the driver
/// loop's termination measure.
pub open spec fn stack_work<F: Frame>(s: Seq<F>) -> nat
    decreases s.len(),
{
    if s.len() == 0 {
        0nat
    } else {
        stack_work(s.drop_last()) + s.last().work()
    }
}

/// In a stack whose neighbours strictly shrink in depth, the frame `i`
/// levels up lost at least `i` depth against the bottom frame.
proof fn lemma_depth_chain<F: Frame>(s: Seq<F>, i: int)
    requires
        0 <= i < s.len(),
        forall|j: int| 0 <= j < s.len() - 1 ==> (#[trigger] s[j + 1]).depth() < s[j].depth(),
    ensures
        s[i].depth() + i <= s[0].depth(),
    decreases i,
{
    if i > 0 {
        lemma_depth_chain(s, i - 1);
        assert(s[(i - 1) + 1].depth() < s[i - 1].depth());
    }
}

/// Run a computation to completion on the heap-resident stack and report,
/// beside its value, the high-water mark of the arena: the deepest the
/// frame stack ever got. That mark never exceeds the depth of the call
/// tree — the arena grows with recursion depth, not call count.
#[verifier::loop_isolation(false)]
#[verifier::rlimit(60)]
pub fn execute_metered<F: Frame>(root: F) -> (r: (F::Val, usize))
    requires
        root.inv(),
        root.fresh(),
        root.work() >= 1,
        1 <= root.depth() <= usize::MAX as nat / 2,
    ensures
        r.0 == root.val_spec(),
        1 <= r.1 as nat <= root.depth(),
{
    let ghost root_snap = root;
    let mut ctx: Context<F, F::Val> = Context::new();
    let mut heap_stack: PinnedVec<F> = PinnedVec::new();
    let mut hwm: usize = 1;
    heap_stack.push(root);
    loop
        invariant
            heap_stack.wf(),
            1 <= heap_stack@.len(),
            heap_stack@.len() <= root_snap.depth(),
            heap_stack@[0].val_spec() == root_snap.val_spec(),
            heap_stack@[0].depth() == root_snap.depth(),
            forall|i: int| 0 <= i < heap_stack@.len() ==> (#[trigger] heap_stack@[i]).inv(),
            forall|i: int| 0 <= i < heap_stack@.len() ==> (#[trigger] heap_stack@[i]).work() >= 1,
            forall|i: int| 0 <= i < heap_stack@.len() ==> (#[trigger] heap_stack@[i]).depth() >= 1,
            forall|i: int|
                0 <= i < heap_stack@.len() - 1 ==> (#[trigger] heap_stack@[i]).awaiting()
                    && heap_stack@[i].awaited() == heap_stack@[i + 1].val_spec(),
            forall|i: int|
                0 <= i < heap_stack@.len() - 1 ==> (#[trigger] heap_stack@[i + 1]).depth()
                    < heap_stack@[i].depth(),
            (heap_stack@.last().fresh() && ctx.spec_result() is None) || (
            heap_stack@.last().awaiting() && ctx.spec_result() == Some(
                heap_stack@.last().awaited(),
            )),
            ctx.spec_next() is None,
            1 <= hwm as nat <= root_snap.depth(),
            root_snap.depth() <= usize::MAX as nat / 2,
        decreases stack_work(heap_stack@),
    {
        let ghost prev = heap_stack@;
        let len = heap_stack.len();
        let fut = heap_stack.get_mut(len - 1).unwrap();
        let polled = fut.poll(&mut ctx);
        match polled {
            Step::Ready(value) => {
                proof {
                    assert(heap_stack@.drop_last() =~= prev.drop_last());
                }
                if len == 1 {
                    return (value, hwm);
                } else {
                    ctx.set_result(value);
                    heap_stack.pop();
                    proof {
                        assert(heap_stack@ =~= prev.drop_last());
                    }
                }
            },
            Step::Pending => {
                let child = ctx.take_next();
                proof {
                    assert(heap_stack@.drop_last() =~= prev.drop_last());
                    assert(stack_work(heap_stack@) == stack_work(prev.drop_last())
                        + heap_stack@.last().work());
                    lemma_depth_chain(heap_stack@.push(child), heap_stack@.len() as int);
                }
                heap_stack.push(child);
                proof {
                    assert(heap_stack@.drop_last() =~= prev.update(
                        prev.len() - 1,
                        heap_stack@[prev.len() - 1],
                    ));
                }
                let len_now = heap_stack.len();
                if len_now > hwm {
                    hwm = len_now;
                }
            },
        }
    }
}

/// Run a computation to completion on the heap-resident stack and return
/// its value: the recursion's exact result, computed without growing the
/// native call stack with the recursion depth.
pub fn execute<F: Frame>(root: F) -> (r: F::Val)
    requires
        root.inv(),
        root.fresh(),
        root.work() >= 1,
        1 <= root.depth() <= usize::MAX as nat / 2,
    ensures
        r == root.val_spec(),
{
    let (value, _high_water) = execute_metered(root);
    value
}

} // verus!
