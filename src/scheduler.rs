use vstd::prelude::*;

use vstd::arithmetic::div_mod::{lemma_fundamental_div_mod, lemma_fundamental_div_mod_converse};

use crate::grid::{at_rest, Grid};
use crate::render::{is_render_of, show_state};
use crate::step::{is_next_generation, step_state};

verus! {

/// Loop iterations between two generations in steady state.
pub const FRAME_DURATION: u32 = 8;

/// Loop iterations before the first generation, so that the first frame stays
/// on the display a little longer.
pub const INITIAL_TIMEOUT: u32 = 100;

/// The pattern the automaton starts from.
pub fn initial_pattern() -> (g: Grid)
    ensures
        at_rest(g),
{
    [
        [0, 0, 0, 0, 0, 0, 0, 0, 0, 0, 0, 0, 0, 0, 0, 0],
        [0, 0, 0, 0, 0, 1, 0, 0, 0, 0, 0, 0, 0, 0, 0, 0],
        [0, 0, 0, 0, 1, 0, 0, 0, 0, 0, 0, 0, 0, 0, 0, 0],
        [0, 1, 1, 0, 0, 1, 0, 1, 1, 1, 0, 0, 0, 0, 0, 0],
        [0, 0, 0, 1, 1, 1, 1, 0, 0, 1, 0, 0, 0, 0, 0, 0],
        [0, 1, 1, 0, 0, 1, 0, 1, 1, 1, 0, 0, 0, 0, 0, 0],
        [0, 0, 0, 0, 1, 0, 0, 0, 0, 0, 0, 0, 0, 0, 0, 0],
        [0, 0, 0, 1, 0, 0, 0, 0, 0, 0, 0, 0, 0, 0, 0, 0],
    ]
}

/// The countdown after one iteration that started at `timeout`: at 0 it is
/// reset to `duration`, then it is decremented.
pub open spec fn next_timeout(timeout: int, duration: int) -> int {
    (if timeout == 0 {
        duration
    } else {
        timeout
    }) - 1
}

/// The countdown after `n` iterations that started at `initial`.
pub open spec fn timeout_after(initial: int, duration: int, n: nat) -> int
    decreases n,
{
    if n == 0 {
        initial
    } else {
        next_timeout(timeout_after(initial, duration, (n - 1) as nat), duration)
    }
}

/// How many of the first `n` iterations advanced the automaton: those that
/// found the countdown at 0.
pub open spec fn generations_after(initial: int, duration: int, n: nat) -> nat
    decreases n,
{
    if n == 0 {
        0
    } else {
        generations_after(initial, duration, (n - 1) as nat) + if timeout_after(
            initial,
            duration,
            (n - 1) as nat,
        ) == 0 {
            1nat
        } else {
            0nat
        }
    }
}

/// The decisions one loop iteration leaves to its caller, who performs them in
/// this order after the call.
pub struct Iteration {
    /// A generation was rendered and stepped in this iteration.
    pub advanced: bool,
    /// The display's refresh is to be serviced once.
    pub service_display: bool,
    /// The heartbeat output is to be toggled once.
    pub toggle_heartbeat: bool,
}

/// The cooperative loop's state: the grid and the frame countdown.
pub struct Life {
    pub state: Grid,
    pub frame_timeout: u32,
    pub frame_duration: u32,
}

impl Life {
    /// The grid is at rest, and a reset countdown has a step to go.
    pub open spec fn wf(&self) -> bool {
        at_rest(self.state) && self.frame_duration >= 1
    }

    /// Starts the automaton on `initial` and renders it once into `image`.
    pub fn new(initial: Grid, frame_duration: u32, initial_timeout: u32, image: &mut Grid) -> (life:
        Life)
        requires
            at_rest(initial),
            frame_duration >= 1,
        ensures
            life.wf(),
            life.state == initial,
            life.frame_timeout == initial_timeout,
            life.frame_duration == frame_duration,
            is_render_of(*final(image), initial),
    {
        show_state(&initial, image);
        Life { state: initial, frame_timeout: initial_timeout, frame_duration }
    }

    /// One iteration of the loop. When the countdown is at 0 the current grid
    /// is rendered into `image`, then stepped, and the countdown is reset; the
    /// countdown is then decremented. Whether or not a generation passed, the
    /// caller is to service the display once and toggle the heartbeat once.
    pub fn iterate(&mut self, image: &mut Grid) -> (it: Iteration)
        requires
            old(self).wf(),
        ensures
            final(self).wf(),
            it.advanced == (old(self).frame_timeout == 0),
            final(self).frame_duration == old(self).frame_duration,
            final(self).frame_timeout as int == next_timeout(
                old(self).frame_timeout as int,
                old(self).frame_duration as int,
            ),
            it.advanced ==> is_render_of(*final(image), old(self).state) && is_next_generation(
                old(self).state,
                final(self).state,
            ),
            !it.advanced ==> *final(image) == *old(image) && final(self).state == old(self).state,
            it.service_display,
            it.toggle_heartbeat,
    {
        let advanced = self.frame_timeout == 0;
        if advanced {
            show_state(&self.state, image);
            step_state(&mut self.state);
            self.frame_timeout = self.frame_duration;
        }
        self.frame_timeout = self.frame_timeout - 1;
        Iteration { advanced, service_display: true, toggle_heartbeat: true }
    }
}

/// How division by `d` moves when its dividend grows by one.
proof fn lemma_succ_div_mod(k: int, d: int)
    requires
        k >= 0,
        d >= 1,
    ensures
        k % d == d - 1 ==> (k + 1) % d == 0 && (k + 1) / d == k / d + 1,
        k % d != d - 1 ==> (k + 1) % d == k % d + 1 && (k + 1) / d == k / d,
{
    lemma_fundamental_div_mod(k, d);
    let q = k / d;
    assert((q + 1) * d == q * d + d) by (nonlinear_arith);
    assert(q * d == d * q) by (nonlinear_arith);
    if k % d == d - 1 {
        lemma_fundamental_div_mod_converse(k + 1, d, q + 1, 0);
    } else {
        lemma_fundamental_div_mod_converse(k + 1, d, q, k % d + 1);
    }
}

/// Where the countdown stands after `n` iterations.
proof fn lemma_timeout_after(initial: nat, duration: nat, n: nat)
    requires
        duration >= 1,
    ensures
        timeout_after(initial as int, duration as int, n) == if n <= initial {
            initial - n
        } else {
            duration - 1 - (n - initial - 1) % (duration as int)
        },
        generations_after(initial as int, duration as int, n) == if n <= initial {
            0
        } else {
            (n - initial - 1) / (duration as int) + 1
        },
    decreases n,
{
    let (t, d) = (initial as int, duration as int);
    if n > 0 {
        let m = (n - 1) as nat;
        lemma_timeout_after(initial, duration, m);
        if m > initial {
            lemma_fundamental_div_mod(m - initial - 1, d);
            lemma_succ_div_mod(m - initial - 1, d);
        } else if m == initial {
            lemma_fundamental_div_mod_converse(0, d, 0, 0);
        }
    }
}

/// Over `n` iterations from a countdown `initial` with frame duration
/// `duration`, the automaton advances no generation while `n <= initial`,
/// and `(n - initial - 1) / duration + 1` generations after that: the first
/// in iteration `initial + 1`, then one every `duration` iterations. Where
/// `n < initial` or `n - initial` is no multiple of `duration`, that count is
/// `(n - initial) / duration + 1` once `n >= initial`.
pub proof fn lemma_cadence(initial: nat, duration: nat, n: nat)
    requires
        duration >= 1,
    ensures
        generations_after(initial as int, duration as int, n) == if n <= initial {
            0
        } else {
            (n - initial - 1) / (duration as int) + 1
        },
        n < initial || (n - initial) % (duration as int) != 0 ==> generations_after(
            initial as int,
            duration as int,
            n,
        ) == if n < initial {
            0
        } else {
            (n - initial) / (duration as int) + 1
        },
{
    lemma_timeout_after(initial, duration, n);
    if n > initial {
        let k = n - initial - 1;
        lemma_succ_div_mod(k, duration as int);
        assert(k + 1 == n - initial);
    } else if n == initial {
        lemma_fundamental_div_mod_converse(0, duration as int, 0, 0);
    }
}

} // verus!
