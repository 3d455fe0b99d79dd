//! What holds of a trail over its whole life: how long it lives, and that it
//! only ever gets shorter.

use crate::counter::CounterState;
use crate::strain::Trail;
use vstd::prelude::*;

verus! {

/// The state of `trail` after `n` steps against `bound`, or `None` where one
/// of those steps killed it.
pub open spec fn run(trail: Trail, bound: int, n: nat) -> Option<Trail>
    decreases n,
{
    if n == 0 {
        Some(trail)
    } else if trail.survives(bound) {
        run(trail.step(bound), bound, (n - 1) as nat)
    } else {
        None
    }
}

/// Number of head moves that `trail` has left against `bound`, the deadly
/// one included: the rows down to the last one, and then one move for each
/// row of its length.
pub open spec fn moves_left(trail: Trail, bound: int) -> int {
    if bound - 1 - trail.head + trail.len > 1 {
        bound - 1 - trail.head + trail.len
    } else {
        1
    }
}

/// Number of the step that kills `trail` against `bound`: the first one
/// where it starts outside the column, and otherwise the one on which its
/// speed counter wraps for the last move it has left.
pub open spec fn lifetime(trail: Trail, bound: int) -> int {
    if trail.start >= bound {
        1
    } else {
        moves_left(trail, bound) * trail.speed.limit - trail.speed.count
    }
}

/// A step never makes a trail longer and never touches its start or the
/// length it was made with; a trail that survives stays valid, so its length
/// stays positive; and a trail dies exactly where it starts outside the
/// column, or where a move would take its whole length.
pub proof fn lemma_step_never_grows(trail: Trail, bound: int)
    requires
        trail.wf(),
        0 <= bound <= u16::MAX,
    ensures
        trail.step(bound).len <= trail.len,
        trail.step(bound).orig_len == trail.orig_len,
        trail.step(bound).start == trail.start,
        trail.survives(bound) ==> trail.step(bound).wf(),
        !trail.survives(bound) <==> trail.start >= bound || (trail.speed.wraps() && trail.len
            <= trail.eaten(bound)),
{
    trail.speed.lemma_advance();
}

/// Once the head is on the last row of the column, every step that the trail
/// survives either leaves its length as it is or takes exactly one row, and
/// it takes one exactly when the speed counter wraps.
pub proof fn lemma_shrinks_by_one(trail: Trail, bound: int)
    requires
        trail.wf(),
        trail.start < bound,
        trail.head == bound - 1,
        trail.survives(bound),
    ensures
        trail.step(bound).head == bound - 1,
        trail.speed.wraps() ==> trail.step(bound).len == trail.len - 1,
        !trail.speed.wraps() ==> trail.step(bound).len == trail.len,
{
    trail.speed.lemma_advance();
}

/// A trail that starts on or below the bound is dead after its first step.
pub proof fn lemma_off_grid_dies(trail: Trail, bound: int, n: nat)
    requires
        trail.start >= bound,
        n >= 1,
    ensures
        !trail.survives(bound),
        run(trail, bound, n) is None,
{
}

/// Over any number of steps a trail that is still alive is valid, has kept
/// the length it was made with, and is no longer than it was.
pub proof fn lemma_run_never_grows(trail: Trail, bound: int, n: nat)
    requires
        trail.wf(),
        0 <= bound <= u16::MAX,
    ensures
        run(trail, bound, n) matches Some(later) ==> later.wf() && later.len <= trail.len
            && later.orig_len == trail.orig_len,
    decreases n,
{
    if n > 0 && trail.survives(bound) {
        lemma_step_never_grows(trail, bound);
        lemma_run_never_grows(trail.step(bound), bound, (n - 1) as nat);
    }
}

/// The length never goes up again: of two moments in the life of a trail, the
/// later one has the shorter or the same length.
pub proof fn lemma_len_monotone(trail: Trail, bound: int, m: nat, n: nat)
    requires
        trail.wf(),
        0 <= bound <= u16::MAX,
        m <= n,
        run(trail, bound, n) is Some,
    ensures
        run(trail, bound, m) is Some,
        run(trail, bound, n).unwrap().len <= run(trail, bound, m).unwrap().len,
    decreases m,
{
    if m == 0 {
        lemma_run_never_grows(trail, bound, n);
    } else {
        lemma_step_never_grows(trail, bound);
        lemma_len_monotone(trail.step(bound), bound, (m - 1) as nat, (n - 1) as nat);
    }
}

/// A dead trail stays dead: once a run has ended, no longer run brings the
/// trail back.
pub proof fn lemma_dead_stays_dead(trail: Trail, bound: int, m: nat, n: nat)
    requires
        m <= n,
        run(trail, bound, m) is None,
    ensures
        run(trail, bound, n) is None,
    decreases m,
{
    if m > 0 && trail.survives(bound) {
        lemma_dead_stays_dead(trail.step(bound), bound, (m - 1) as nat, (n - 1) as nat);
    }
}

/// Every step that a trail survives brings its death one step nearer, and
/// the step that it does not survive is the one that its lifetime names.
pub proof fn lemma_lifetime_step(trail: Trail, bound: int)
    requires
        trail.wf(),
        0 <= bound <= u16::MAX,
    ensures
        lifetime(trail, bound) >= 1,
        trail.survives(bound) ==> lifetime(trail.step(bound), bound) == lifetime(trail, bound) - 1,
        !trail.survives(bound) ==> lifetime(trail, bound) == 1,
{
    trail.speed.lemma_advance();
    let moves = moves_left(trail, bound);
    let limit = trail.speed.limit;
    assert(moves * limit >= limit) by (nonlinear_arith)
        requires
            moves >= 1,
            limit >= 1,
    ;
    if trail.start < bound && trail.speed.wraps() {
        assert((moves - 1) * limit == moves * limit - limit) by (nonlinear_arith);
        assert(1 * limit == limit) by (nonlinear_arith);
    }
}

/// A trail lives through exactly the steps before the one that its lifetime
/// names.
pub proof fn lemma_lifetime(trail: Trail, bound: int, n: nat)
    requires
        trail.wf(),
        0 <= bound <= u16::MAX,
    ensures
        run(trail, bound, n) is Some <==> n < lifetime(trail, bound),
    decreases n,
{
    lemma_lifetime_step(trail, bound);
    if n > 0 && trail.survives(bound) {
        lemma_step_never_grows(trail, bound);
        lemma_lifetime(trail.step(bound), bound, (n - 1) as nat);
    }
}

/// A trail whose head is on the last row of the column has one move left
/// for each row of its length: it dies on the step on which its speed counter
/// wraps for the `len`-th time, and on no earlier one.
pub proof fn lemma_death_from_last_row(trail: Trail, bound: int)
    requires
        trail.wf(),
        0 <= bound <= u16::MAX,
        trail.start < bound,
        trail.head == bound - 1,
    ensures
        lifetime(trail, bound) == trail.len * trail.speed.limit - trail.speed.count,
        run(trail, bound, lifetime(trail, bound) as nat) is None,
        forall|n: nat| n < lifetime(trail, bound) ==> run(trail, bound, n) is Some,
{
    lemma_lifetime_step(trail, bound);
    lemma_lifetime(trail, bound, lifetime(trail, bound) as nat);
    assert forall|n: nat| n < lifetime(trail, bound) implies run(trail, bound, n) is Some by {
        lemma_lifetime(trail, bound, n);
    }
}

/// At full speed a trail whose head is on the last row of the column lives
/// for as many steps as it is long: the step of that number kills it, and no
/// earlier one does.
pub proof fn lemma_unit_speed_death(trail: Trail, bound: int)
    requires
        trail.wf(),
        0 <= bound <= u16::MAX,
        trail.start < bound,
        trail.head == bound - 1,
        trail.speed.limit == 1,
    ensures
        run(trail, bound, trail.len as nat) is None,
        forall|n: nat| n < trail.len ==> run(trail, bound, n) is Some,
{
    assert(trail.len * 1 == trail.len) by (nonlinear_arith);
    lemma_death_from_last_row(trail, bound);
}

/// A speed limit of `k` stretches the life of a new trail by the factor `k`:
/// it dies on step `k` times the number of moves it has, which is the step
/// on which a trail at full speed dies, taken `k` times.
pub proof fn lemma_slowdown(start: int, len: int, limit: int, bound: int)
    requires
        0 <= start < bound <= u16::MAX,
        0 < len <= u16::MAX,
        0 < limit <= u16::MAX,
    ensures
        lifetime(Trail::fresh(start, len, CounterState { count: 0, limit: 1 }), bound) == bound
            - 1 - start + len,
        lifetime(Trail::fresh(start, len, CounterState { count: 0, limit }), bound) == limit
            * lifetime(Trail::fresh(start, len, CounterState { count: 0, limit: 1 }), bound),
{
    let moves = bound - 1 - start + len;
    assert(moves * 1 == moves) by (nonlinear_arith);
    assert(moves * limit == limit * moves) by (nonlinear_arith);
}

} // verus!
