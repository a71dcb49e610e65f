//! Search limiters: unbounded, fixed node budget, fixed wall-clock deadline,
//! or a tournament clock, behind a one-shot "stopped" latch.
//!
//! Once [`SearchLimiter::should_stop`] has answered true, every later call
//! on the same limiter answers true: the latch never resets. Clock reads go
//! through two small trusted declarations over the standard monotonic clock;
//! nothing is assumed about the time they report.

use vstd::prelude::*;

verus! {

/// Relies on std::time::Instant, an opaque reading of the monotonic clock.
#[verifier::external_type_specification]
#[verifier::external_body]
pub struct ExInstant(std::time::Instant);

/// Relies on Instant::now: a reading of the monotonic clock. Nothing is
/// promised of its value.
#[verifier::external_body]
pub(crate) fn instant_now() -> (r: std::time::Instant) {
    std::time::Instant::now()
}

/// Relies on Instant::elapsed: the time since the reading was taken. Nothing
/// is promised of its value.
#[verifier::external_body]
pub(crate) fn instant_elapsed(start: &std::time::Instant) -> (r: std::time::Duration) {
    start.elapsed()
}

/// Relies on Duration::as_millis: the span in whole milliseconds.
#[verifier::external_body]
pub(crate) fn duration_as_millis(d: &std::time::Duration) -> (r: u128) {
    d.as_millis()
}

/// Milliseconds on the tournament clock when no moves-to-go count is given.
pub const DEFAULT_MOVES_TO_GO: u64 = 30;

/// How often, in nodes, the clock is actually read.
pub const CHECK_INTERVAL: u64 = 2048;

/// What bounds a search.
pub enum SearchLimiterKind {
    Infinite,
    FixedNodes(u64),
    MoveTime(std::time::Instant, u64),
    Tournament(std::time::Instant, u64),
}

/// A limiter's kind with the clock reading abstracted away: for the clocked
/// kinds only the millisecond budget remains.
pub enum LimiterKind {
    Infinite,
    FixedNodes(u64),
    MoveTime(u64),
    Tournament(u64),
}

/// The soft per-move budget of the tournament clock: the remaining time
/// split over the moves to go (or the default split), plus half the
/// increment, saturating at the top of the range.
pub open spec fn spec_tournament_budget(our_time_ms: u64, our_inc_ms: u64, moves_to_go: u64) -> u64 {
    let divisor = if moves_to_go == 0 {
        DEFAULT_MOVES_TO_GO
    } else {
        moves_to_go
    };
    let b = our_time_ms as int / divisor as int + our_inc_ms as int / 2;
    if b > u64::MAX {
        u64::MAX
    } else {
        b as u64
    }
}

/// A stopping condition with a one-shot latch.
pub struct SearchLimiter {
    kind: SearchLimiterKind,
    stopped: bool,
}

impl SearchLimiter {
    /// True once the limiter has latched.
    pub closed spec fn spec_stopped(&self) -> bool {
        self.stopped
    }

    /// The kind, with the clock reading erased.
    pub closed spec fn spec_kind(&self) -> LimiterKind {
        match self.kind {
            SearchLimiterKind::Infinite => LimiterKind::Infinite,
            SearchLimiterKind::FixedNodes(n) => LimiterKind::FixedNodes(n),
            SearchLimiterKind::MoveTime(_, ms) => LimiterKind::MoveTime(ms),
            SearchLimiterKind::Tournament(_, budget) => LimiterKind::Tournament(budget),
        }
    }

    /// True of a fixed node budget of at most `nodes`.
    pub open spec fn spec_is_fixed_nodes(&self, nodes: u64) -> bool {
        self.spec_kind() matches LimiterKind::FixedNodes(n) && n <= nodes
    }

    /// Never stops on its own.
    pub fn infinite() -> (r: SearchLimiter)
        ensures
            !r.spec_stopped(),
            r.spec_kind() == LimiterKind::Infinite,
    {
        SearchLimiter { kind: SearchLimiterKind::Infinite, stopped: false }
    }

    /// Stops once the node count reaches `nodes`.
    pub fn fixed_nodes(nodes: u64) -> (r: SearchLimiter)
        ensures
            !r.spec_stopped(),
            r.spec_kind() == LimiterKind::FixedNodes(nodes),
    {
        SearchLimiter { kind: SearchLimiterKind::FixedNodes(nodes), stopped: false }
    }

    /// Stops once `ms` milliseconds have passed from now.
    pub fn move_time(ms: u64) -> (r: SearchLimiter)
        ensures
            !r.spec_stopped(),
            r.spec_kind() == LimiterKind::MoveTime(ms),
    {
        SearchLimiter { kind: SearchLimiterKind::MoveTime(instant_now(), ms), stopped: false }
    }

    /// Stops once the soft per-move budget has passed: the remaining time
    /// split over the moves to go (or a default), plus half the increment.
    pub fn tournament(our_time_ms: u64, our_inc_ms: u64, moves_to_go: u64) -> (r: SearchLimiter)
        ensures
            !r.spec_stopped(),
            r.spec_kind() == LimiterKind::Tournament(
                spec_tournament_budget(our_time_ms, our_inc_ms, moves_to_go),
            ),
    {
        let divisor = if moves_to_go == 0 {
            DEFAULT_MOVES_TO_GO
        } else {
            moves_to_go
        };
        let b: u128 = (our_time_ms / divisor) as u128 + (our_inc_ms / 2) as u128;
        let budget: u64 = if b > u64::MAX as u128 {
            u64::MAX
        } else {
            b as u64
        };
        SearchLimiter { kind: SearchLimiterKind::Tournament(instant_now(), budget), stopped: false }
    }

    /// Whether the search must stop. A fixed node budget is checked on every
    /// call; a clock only every [`CHECK_INTERVAL`] nodes. Once true, always
    /// true on this limiter: the latch is permanent. An unbounded limiter
    /// never trips, and a node budget trips exactly when it is spent; what a
    /// clocked limiter answers before it latches depends on the clock, so
    /// nothing more is promised of it.
    pub fn should_stop(&mut self, nodes: u64) -> (r: bool)
        ensures
            old(self).spec_stopped() ==> r,
            r == final(self).spec_stopped(),
            final(self).spec_stopped() ==> r,
            old(self).spec_stopped() ==> final(self).spec_stopped(),
            !r ==> !final(self).spec_stopped(),
            final(self).spec_kind() == old(self).spec_kind(),
            old(self).spec_kind() == LimiterKind::Infinite && !old(self).spec_stopped() ==> !r,
            forall|n: u64|
                old(self).spec_is_fixed_nodes(n) && nodes >= n ==> r,
            (old(self).spec_kind() matches LimiterKind::FixedNodes(b) && nodes < b && !old(
                self,
            ).spec_stopped()) ==> !r,
    {
        if self.stopped {
            return true;
        }
        let is_fixed = matches!(self.kind, SearchLimiterKind::FixedNodes(_));
        if !is_fixed && nodes % CHECK_INTERVAL != 0 {
            return false;
        }
        let over = match &self.kind {
            SearchLimiterKind::Infinite => false,
            SearchLimiterKind::FixedNodes(node_limit) => nodes >= *node_limit,
            SearchLimiterKind::MoveTime(start, limit_ms) => {
                let ms = duration_as_millis(&instant_elapsed(start));
                ms >= *limit_ms as u128
            },
            SearchLimiterKind::Tournament(start, budget_ms) => {
                let ms = duration_as_millis(&instant_elapsed(start));
                ms >= *budget_ms as u128
            },
        };
        if over {
            self.stopped = true;
            return true;
        }
        false
    }

    /// True once the latch has tripped.
    pub fn stopped(&self) -> (r: bool)
        ensures
            r == self.spec_stopped(),
    {
        self.stopped
    }
}

/// The limiter law: once `should_stop` has answered true, every later call
/// on the same limiter answers true, whatever the node counts or the clock
/// do. The premises are exactly what `should_stop` ensures about two calls
/// in sequence.
pub proof fn lemma_limiter_latch_is_monotone(
    l0: SearchLimiter,
    l1: SearchLimiter,
    l2: SearchLimiter,
    r1: bool,
    r2: bool,
)
    requires
        r1 == l1.spec_stopped(),
        l0.spec_stopped() ==> r1,
        r2 == l2.spec_stopped(),
        l1.spec_stopped() ==> r2,
    ensures
        r1 ==> r2,
{
}

} // verus!
