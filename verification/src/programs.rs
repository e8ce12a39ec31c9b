//! Recursive computations written as explicit suspendable frames and run on
//! the trampoline driver. Each program is proved to return exactly the
//! value of the recursion it encodes, for every input the recursion itself
//! can compute without overflowing its value type.

use crate::engine::Context;
use crate::engine::Frame;
use crate::engine::Step;
use crate::engine::execute;
use crate::engine::execute_metered;
use crate::pend_once::PendOnce;
use vstd::prelude::*;

verus! {

/// `x!` — what the native recursion `factorial(x) = x * factorial(x - 1)`
/// computes.
pub open spec fn fact_spec(x: nat) -> nat
    decreases x,
{
    if x == 0 {
        1nat
    } else {
        x * fact_spec((x - 1) as nat)
    }
}

/// The fibonacci numbers, starting `1, 1, 2, 3, 5, ...` — what the native
/// recursion `fibonacci(x) = fibonacci(x - 1) + fibonacci(x - 2)` computes.
pub open spec fn fib_spec(x: nat) -> nat
    decreases x,
{
    if x <= 1 {
        1nat
    } else {
        fib_spec((x - 1) as nat) + fib_spec((x - 2) as nat)
    }
}

/// The depth of fibonacci's call tree: the long spine goes through the
/// `x - 1` child.
pub open spec fn fib_depth(x: nat) -> nat {
    if x <= 1 {
        1nat
    } else {
        x
    }
}

/// The triangular numbers `0 + 1 + ... + x` — what the native recursion
/// `triangular(x) = triangular(x - 1) + x` computes.
pub open spec fn tri_spec(x: nat) -> nat
    decreases x,
{
    if x == 0 {
        0nat
    } else {
        tri_spec((x - 1) as nat) + x
    }
}

proof fn lemma_fact_pos(x: nat)
    ensures
        fact_spec(x) >= 1,
    decreases x,
{
    if x > 0 {
        lemma_fact_pos((x - 1) as nat);
        assert(x * fact_spec((x - 1) as nat) >= 1) by (nonlinear_arith)
            requires
                x >= 1,
                fact_spec((x - 1) as nat) >= 1,
        ;
    }
}

proof fn lemma_fact_ge_arg(x: nat)
    requires
        x >= 1,
    ensures
        fact_spec(x) >= x,
{
    lemma_fact_pos((x - 1) as nat);
    assert(x * fact_spec((x - 1) as nat) >= x * 1) by (nonlinear_arith)
        requires
            fact_spec((x - 1) as nat) >= 1,
            x >= 1,
    ;
}

proof fn lemma_fact_ge_square(x: nat)
    requires
        x >= 2,
    ensures
        fact_spec(x) >= x * (x - 1),
{
    lemma_fact_ge_arg((x - 1) as nat);
    assert(x * fact_spec((x - 1) as nat) >= x * ((x - 1) as nat)) by (nonlinear_arith)
        requires
            fact_spec((x - 1) as nat) >= (x - 1) as nat,
            x >= 2,
    ;
}

proof fn lemma_fib_ge_arg(x: nat)
    ensures
        fib_spec(x) >= x,
        fib_spec(x) >= 1,
    decreases x,
{
    if x >= 2 {
        lemma_fib_ge_arg((x - 1) as nat);
        lemma_fib_ge_arg((x - 2) as nat);
    }
}

proof fn lemma_fib_ge_double(x: nat)
    requires
        x >= 6,
    ensures
        fib_spec(x) >= 2 * x,
    decreases x,
{
    lemma_fib_ge_arg((x - 2) as nat);
    if x == 6 {
        reveal_with_fuel(fib_spec, 8);
    } else {
        lemma_fib_ge_double((x - 1) as nat);
    }
}

/// One activation of the factorial recursion: captures `x`, and the yield
/// point where it waits for `factorial(x - 1)`.
pub struct FactorialFrame {
    x: u32,
    gate: PendOnce,
}

impl FactorialFrame {
    /// A fresh activation, about to compute `x!`. The bound keeps the
    /// multiplication inside `u32`, exactly as far as the native recursion
    /// gets without overflowing.
    pub fn new(x: u32) -> (f: Self)
        requires
            fact_spec(x as nat) <= u32::MAX as nat,
        ensures
            f.inv(),
            f.fresh(),
            f.val_spec() as nat == fact_spec(x as nat),
            f.depth() == x as nat + 1,
            f.work() == 2 * x as nat + 1,
    {
        Self { x, gate: PendOnce::new() }
    }
}

impl Frame for FactorialFrame {
    type Val = u32;

    closed spec fn inv(&self) -> bool {
        &&& fact_spec(self.x as nat) <= u32::MAX as nat
        &&& self.gate.pended() ==> self.x >= 1
    }

    closed spec fn val_spec(&self) -> u32 {
        fact_spec(self.x as nat) as u32
    }

    closed spec fn depth(&self) -> nat {
        self.x as nat + 1
    }

    closed spec fn work(&self) -> nat {
        if self.gate.pended() {
            1nat
        } else {
            2 * self.x as nat + 1
        }
    }

    closed spec fn fresh(&self) -> bool {
        !self.gate.pended()
    }

    closed spec fn awaiting(&self) -> bool {
        self.gate.pended()
    }

    closed spec fn awaited(&self) -> u32 {
        fact_spec((self.x - 1) as nat) as u32
    }

    fn poll(&mut self, slot: &mut Context<Self, u32>) -> (r: Step<u32>) {
        proof {
            if self.x >= 1 {
                lemma_fact_pos((self.x - 1) as nat);
                assert(self.x as nat * fact_spec((self.x - 1) as nat) >= 1 * fact_spec(
                    (self.x - 1) as nat,
                )) by (nonlinear_arith)
                    requires
                        self.x >= 1,
                        fact_spec((self.x - 1) as nat) >= 0,
                ;
                assert(fact_spec(self.x as nat) >= fact_spec((self.x - 1) as nat));
            }
        }
        if self.x == 0 {
            Step::Ready(1)
        } else if self.gate.poll() {
            let below = slot.get_result();
            proof {
                assert(self.x >= 1);
                assert(below as nat == fact_spec((self.x - 1) as nat));
                assert(fact_spec(self.x as nat) == self.x as nat * fact_spec((self.x - 1) as nat));
                assert(below as nat * self.x as nat == self.x as nat * fact_spec(
                    (self.x - 1) as nat,
                )) by (nonlinear_arith)
                    requires
                        below as nat == fact_spec((self.x - 1) as nat),
                ;
                assert(below as nat * self.x as nat <= u32::MAX as nat);
            }
            Step::Ready(below * self.x)
        } else {
            slot.set_next(FactorialFrame::new(self.x - 1));
            Step::Pending
        }
    }
}

/// Run the factorial recursion on the heap-resident stack: same value as
/// the native recursion, without its native-stack depth.
pub fn factorial(x: u32) -> (r: u32)
    requires
        fact_spec(x as nat) <= u32::MAX as nat,
    ensures
        r as nat == fact_spec(x as nat),
{
    proof {
        if x >= 65537 {
            lemma_fact_ge_square(x as nat);
            assert(x as nat * (x as nat - 1) >= 65537 * 65536) by (nonlinear_arith)
                requires
                    x as nat >= 65537,
            ;
        }
    }
    execute(FactorialFrame::new(x))
}

/// One activation of the fibonacci recursion: captures `x`, the two yield
/// points (one per recursive call site), and the first child's value once
/// it is in hand.
pub struct FibonacciFrame {
    x: u32,
    first_gate: PendOnce,
    second_gate: PendOnce,
    first_val: u32,
}

impl FibonacciFrame {
    /// A fresh activation, about to compute the `x`-th fibonacci number.
    pub fn new(x: u32) -> (f: Self)
        requires
            fib_spec(x as nat) <= u32::MAX as nat,
        ensures
            f.inv(),
            f.fresh(),
            f.val_spec() as nat == fib_spec(x as nat),
            f.depth() == fib_depth(x as nat),
            f.work() == fib_work(x as nat),
    {
        Self { x, first_gate: PendOnce::new(), second_gate: PendOnce::new(), first_val: 0 }
    }
}

impl Frame for FibonacciFrame {
    type Val = u32;

    closed spec fn inv(&self) -> bool {
        &&& fib_spec(self.x as nat) <= u32::MAX as nat
        &&& self.first_gate.pended() ==> self.x >= 2
        &&& self.second_gate.pended() ==> self.first_gate.pended() && self.first_val as nat
            == fib_spec((self.x - 1) as nat)
    }

    closed spec fn val_spec(&self) -> u32 {
        fib_spec(self.x as nat) as u32
    }

    closed spec fn depth(&self) -> nat {
        fib_depth(self.x as nat)
    }

    closed spec fn work(&self) -> nat {
        if !self.first_gate.pended() {
            fib_work(self.x as nat)
        } else if !self.second_gate.pended() {
            2 + fib_work((self.x - 2) as nat)
        } else {
            1nat
        }
    }

    closed spec fn fresh(&self) -> bool {
        !self.first_gate.pended()
    }

    closed spec fn awaiting(&self) -> bool {
        self.first_gate.pended()
    }

    closed spec fn awaited(&self) -> u32 {
        if !self.second_gate.pended() {
            fib_spec((self.x - 1) as nat) as u32
        } else {
            fib_spec((self.x - 2) as nat) as u32
        }
    }

    fn poll(&mut self, slot: &mut Context<Self, u32>) -> (r: Step<u32>) {
        proof {
            if self.x >= 2 {
                lemma_fib_mono((self.x - 1) as nat, self.x as nat);
                lemma_fib_mono((self.x - 2) as nat, self.x as nat);
            }
        }
        if self.x == 0 || self.x == 1 {
            Step::Ready(1)
        } else if !self.first_gate.poll() {
            slot.set_next(FibonacciFrame::new(self.x - 1));
            Step::Pending
        } else if !self.second_gate.poll() {
            self.first_val = slot.get_result();
            slot.set_next(FibonacciFrame::new(self.x - 2));
            Step::Pending
        } else {
            let second_val = slot.get_result();
            Step::Ready(self.first_val + second_val)
        }
    }
}

/// How many polls the fibonacci computation for `x` takes in total: one
/// per yield plus the final ready report, over the whole call tree.
pub open spec fn fib_work(x: nat) -> nat
    decreases x,
{
    if x <= 1 {
        1nat
    } else {
        3 + fib_work((x - 1) as nat) + fib_work((x - 2) as nat)
    }
}

proof fn lemma_fib_mono(a: nat, b: nat)
    requires
        a <= b,
    ensures
        fib_spec(a) <= fib_spec(b),
    decreases b,
{
    lemma_fib_ge_arg(a);
    if a < b && b >= 2 {
        lemma_fib_mono(a, (b - 1) as nat);
        lemma_fib_ge_arg((b - 2) as nat);
    }
}

/// Run the fibonacci recursion on the heap-resident stack: same value as
/// the native recursion.
pub fn fibonacci(x: u32) -> (r: u32)
    requires
        fib_spec(x as nat) <= u32::MAX as nat,
    ensures
        r as nat == fib_spec(x as nat),
{
    let (value, _high_water) = fibonacci_metered(x);
    value
}

/// Run the fibonacci recursion and also report how long the frame arena
/// got at its longest: never more than the call tree's depth, although the
/// tree's node count grows exponentially.
pub fn fibonacci_metered(x: u32) -> (r: (u32, usize))
    requires
        fib_spec(x as nat) <= u32::MAX as nat,
    ensures
        r.0 as nat == fib_spec(x as nat),
        1 <= r.1 as nat <= fib_depth(x as nat),
{
    proof {
        if x >= 6 {
            lemma_fib_ge_double(x as nat);
        }
    }
    execute_metered(FibonacciFrame::new(x))
}

/// One activation of the triangular-number recursion: captures `x` and the
/// yield point where it waits for `triangular(x - 1)`.
pub struct TriangularFrame {
    x: u64,
    gate: PendOnce,
}

impl TriangularFrame {
    /// A fresh activation, about to compute `0 + 1 + ... + x`.
    pub fn new(x: u64) -> (f: Self)
        requires
            tri_spec(x as nat) <= u64::MAX as nat,
        ensures
            f.inv(),
            f.fresh(),
            f.val_spec() as nat == tri_spec(x as nat),
            f.depth() == x as nat + 1,
            f.work() == 2 * x as nat + 1,
    {
        Self { x, gate: PendOnce::new() }
    }
}

impl Frame for TriangularFrame {
    type Val = u64;

    closed spec fn inv(&self) -> bool {
        &&& tri_spec(self.x as nat) <= u64::MAX as nat
        &&& self.gate.pended() ==> self.x >= 1
    }

    closed spec fn val_spec(&self) -> u64 {
        tri_spec(self.x as nat) as u64
    }

    closed spec fn depth(&self) -> nat {
        self.x as nat + 1
    }

    closed spec fn work(&self) -> nat {
        if self.gate.pended() {
            1nat
        } else {
            2 * self.x as nat + 1
        }
    }

    closed spec fn fresh(&self) -> bool {
        !self.gate.pended()
    }

    closed spec fn awaiting(&self) -> bool {
        self.gate.pended()
    }

    closed spec fn awaited(&self) -> u64 {
        tri_spec((self.x - 1) as nat) as u64
    }

    fn poll(&mut self, slot: &mut Context<Self, u64>) -> (r: Step<u64>) {
        if self.x == 0 {
            Step::Ready(0)
        } else if self.gate.poll() {
            let below = slot.get_result();
            Step::Ready(below + self.x)
        } else {
            slot.set_next(TriangularFrame::new(self.x - 1));
            Step::Pending
        }
    }
}

/// Where the halving search lands in `s`: the index (relative to `s`) at
/// which `target` sits, or where the search bottoms out — what the native
/// recursion over ever-smaller slices computes.
pub open spec fn bsearch_spec(s: Seq<i32>, target: i32) -> nat
    decreases s.len(),
{
    if s.len() == 0 {
        0nat
    } else {
        let mid = s.len() / 2;
        if target < s[mid as int] {
            bsearch_spec(s.subrange(0, mid as int), target)
        } else if target == s[mid as int] {
            mid
        } else {
            bsearch_spec(s.subrange(mid as int + 1, s.len() as int), target) + mid + 1
        }
    }
}

proof fn lemma_bsearch_le_len(s: Seq<i32>, target: i32)
    ensures
        bsearch_spec(s, target) <= s.len(),
    decreases s.len(),
{
    if s.len() > 0 {
        let mid = s.len() / 2;
        lemma_bsearch_le_len(s.subrange(0, mid as int), target);
        lemma_bsearch_le_len(s.subrange(mid as int + 1, s.len() as int), target);
    }
}

fn copy_range(values: &Vec<i32>, lo: usize, hi: usize) -> (r: Vec<i32>)
    requires
        lo <= hi <= values@.len(),
    ensures
        r@ == values@.subrange(lo as int, hi as int),
{
    let mut r: Vec<i32> = Vec::new();
    let mut i: usize = lo;
    while i < hi
        invariant
            lo <= i <= hi <= values@.len(),
            r@ == values@.subrange(lo as int, i as int),
        decreases hi - i,
    {
        let x = values[i];
        r.push(x);
        i = i + 1;
        proof {
            assert(r@ =~= values@.subrange(lo as int, i as int));
        }
    }
    r
}

/// One activation of the halving search: owns the slice it searches (a
/// borrowed slice could not outlive the suspension, so each child gets its
/// own copy of its half), the sought value, and what to add back onto the
/// child's relative index.
pub struct BinarySearchFrame {
    values: Vec<i32>,
    target: i32,
    add_back: usize,
    gate: PendOnce,
}

impl Frame for BinarySearchFrame {
    type Val = usize;

    closed spec fn inv(&self) -> bool {
        self.gate.pended() ==> self.values@.len() >= 1 && self.add_back <= bsearch_spec(
            self.values@,
            self.target,
        )
    }

    closed spec fn val_spec(&self) -> usize {
        bsearch_spec(self.values@, self.target) as usize
    }

    closed spec fn depth(&self) -> nat {
        self.values@.len() + 1
    }

    closed spec fn work(&self) -> nat {
        if self.gate.pended() {
            1nat
        } else {
            2 * self.values@.len() + 1
        }
    }

    closed spec fn fresh(&self) -> bool {
        !self.gate.pended()
    }

    closed spec fn awaiting(&self) -> bool {
        self.gate.pended()
    }

    closed spec fn awaited(&self) -> usize {
        (bsearch_spec(self.values@, self.target) - self.add_back) as usize
    }

    fn poll(&mut self, slot: &mut Context<Self, usize>) -> (r: Step<usize>) {
        proof {
            lemma_bsearch_le_len(self.values@, self.target);
        }
        let len = self.values.len();
        if len == 0 {
            Step::Ready(0)
        } else if self.gate.poll() {
            let below = slot.get_result();
            Step::Ready(below + self.add_back)
        } else {
            let mid = len / 2;
            let pivot = self.values[mid];
            if self.target == pivot {
                Step::Ready(mid)
            } else {
                let lo: usize;
                let hi: usize;
                let back: usize;
                if self.target < pivot {
                    lo = 0;
                    hi = mid;
                    back = 0;
                } else {
                    lo = mid + 1;
                    hi = len;
                    back = mid + 1;
                }
                let child_vals = copy_range(&self.values, lo, hi);
                let child = BinarySearchFrame {
                    values: child_vals,
                    target: self.target,
                    add_back: 0,
                    gate: PendOnce::new(),
                };
                self.add_back = back;
                proof {
                    lemma_bsearch_le_len(child.values@, child.target);
                }
                slot.set_next(child);
                Step::Pending
            }
        }
    }
}

/// Run the halving search on the heap-resident stack: the returned index
/// is exactly what the native recursion over ever-smaller slices returns.
/// The bound only keeps the frame count addressable on the machine.
pub fn binary_search(values: &Vec<i32>, target: i32) -> (idx: usize)
    requires
        values@.len() + 1 <= usize::MAX as nat / 2,
    ensures
        idx as nat == bsearch_spec(values@, target),
{
    let start_vals = copy_range(values, 0, values.len());
    proof {
        assert(start_vals@ =~= values@);
        lemma_bsearch_le_len(values@, target);
    }
    let root = BinarySearchFrame {
        values: start_vals,
        target,
        add_back: 0,
        gate: PendOnce::new(),
    };
    execute(root)
}

/// Run the triangular-number recursion on the heap-resident stack. A
/// native recursion of this shape overflows the call stack long before
/// depths like 200000; here the frames live on the heap, so the run
/// completes and returns the exact sum. The second bound only keeps the
/// frame count addressable on the machine.
pub fn triangular(x: u64) -> (r: u64)
    requires
        tri_spec(x as nat) <= u64::MAX as nat,
        x as nat + 1 <= usize::MAX as nat / 2,
    ensures
        r as nat == tri_spec(x as nat),
{
    execute(TriangularFrame::new(x))
}

} // verus!
