//! Reachability probing: the sliding window of probe outcomes kept for each
//! probed address, and the loss rate and latency derived from it.
//!
//! The probing loop itself (connect, sleep, repeat) runs outside the library;
//! each round it hands the outcome of one probe to `PingWindow::record` and
//! the elapsed time to `PingData::update`.

use vstd::prelude::*;
use std::collections::VecDeque;

verus! {

/// The most outcomes a window keeps: once it holds more than 100, the oldest
/// is dropped before a new one is added.
pub open spec fn window_capacity() -> nat {
    101
}

/// The outcome of one probe.
#[derive(Debug)]
pub enum ProbeOutcome {
    /// The connection was established.
    Connected,
    /// The connection was refused: the host answered, so it counts as reached.
    Refused,
    /// Any other failure: the probe counts as lost.
    Failed,
}

pub open spec fn reached(o: ProbeOutcome) -> bool {
    !(o is Failed)
}

/// The number of lost probes (`false` entries) in `s`.
pub open spec fn lost_in(s: Seq<bool>) -> nat
    decreases s.len(),
{
    if s.len() == 0 {
        0
    } else {
        lost_in(s.drop_last()) + if s.last() {
            0nat
        } else {
            1nat
        }
    }
}

pub proof fn lemma_lost_in_bound(s: Seq<bool>)
    ensures
        lost_in(s) <= s.len(),
    decreases s.len(),
{
    if s.len() > 0 {
        lemma_lost_in_bound(s.drop_last());
    }
}

pub proof fn lemma_lost_in_drop_first(s: Seq<bool>)
    requires
        s.len() > 0,
    ensures
        lost_in(s) == lost_in(s.drop_first()) + if s[0] {
            0nat
        } else {
            1nat
        },
    decreases s.len(),
{
    if s.len() > 1 {
        lemma_lost_in_drop_first(s.drop_last());
        assert(s.drop_last().drop_first() =~= s.drop_first().drop_last());
    } else {
        assert(s.drop_first() =~= Seq::<bool>::empty());
        assert(s.drop_last() =~= Seq::<bool>::empty());
    }
}

/// The window after one more outcome: the oldest entry leaves a full window
/// first, then the new outcome is appended.
pub open spec fn window_after(s: Seq<bool>, ok: bool) -> Seq<bool> {
    let kept = if s.len() >= window_capacity() {
        s.drop_first()
    } else {
        s
    };
    kept.push(ok)
}

/// The window after recording `outcomes` in order, starting from an empty one.
pub open spec fn window_of(outcomes: Seq<bool>) -> Seq<bool>
    decreases outcomes.len(),
{
    if outcomes.len() == 0 {
        Seq::empty()
    } else {
        window_after(window_of(outcomes.drop_last()), outcomes.last())
    }
}

/// The window holds the most recent outcomes, at most `window_capacity()` of
/// them, in the order they were recorded.
pub proof fn law_window_keeps_latest(outcomes: Seq<bool>)
    ensures
        window_of(outcomes) == outcomes.skip(
            if outcomes.len() > window_capacity() {
                outcomes.len() - window_capacity()
            } else {
                0
            },
        ),
    decreases outcomes.len(),
{
    if outcomes.len() > 0 {
        let prev = outcomes.drop_last();
        law_window_keeps_latest(prev);
        if prev.len() >= window_capacity() {
            assert(window_of(outcomes) =~= outcomes.skip(outcomes.len() - window_capacity()));
        } else {
            assert(window_of(outcomes) =~= outcomes.skip(0));
        }
    } else {
        assert(window_of(outcomes) =~= outcomes.skip(0));
    }
}

/// The loss rate in percent that a window of this content reports, if it
/// holds enough outcomes (more than 30) to report one.
pub open spec fn loss_rate_of(s: Seq<bool>) -> Option<u32> {
    if s.len() > 30 {
        Some((lost_in(s) * 100 / s.len()) as u32)
    } else {
        None
    }
}

/// The most recent outcomes, at most `window_capacity()` of them.
pub open spec fn latest(outcomes: Seq<bool>) -> Seq<bool> {
    outcomes.skip(
        if outcomes.len() > window_capacity() {
            outcomes.len() - window_capacity()
        } else {
            0
        },
    )
}

/// The loss rate that an address's data holds after a run of probe rounds
/// with `outcomes`, each round recording its outcome in a window that started
/// empty and then refreshing the rate, which started at `initial`.
pub open spec fn lost_rate_after(initial: u32, outcomes: Seq<bool>) -> u32
    decreases outcomes.len(),
{
    if outcomes.len() == 0 {
        initial
    } else {
        match loss_rate_of(window_of(outcomes)) {
            Some(r) => r,
            None => lost_rate_after(initial, outcomes.drop_last()),
        }
    }
}

/// One more round refreshes the rate from the window after it, when the
/// window reports one, as `PingData::record_round` does.
pub proof fn law_round_step(initial: u32, history: Seq<bool>, ok: bool)
    ensures
        window_of(history.push(ok)) == window_after(window_of(history), ok),
        lost_rate_after(initial, history.push(ok)) == match loss_rate_of(
            window_after(window_of(history), ok),
        ) {
            Some(r) => r,
            None => lost_rate_after(initial, history),
        },
{
    assert(history.push(ok).drop_last() =~= history);
}

/// Over a run of probe rounds, the loss rate stays at its initial value for
/// the first 30 rounds; after that it is the percentage (rounded down) of lost
/// probes among the latest `window_capacity()` outcomes, so at most 100.
pub proof fn law_loss_rate_over_rounds(initial: u32, outcomes: Seq<bool>)
    ensures
        lost_rate_after(initial, outcomes) == if outcomes.len() > 30 {
            (lost_in(latest(outcomes)) * 100 / latest(outcomes).len()) as u32
        } else {
            initial
        },
        outcomes.len() > 30 ==> lost_rate_after(initial, outcomes) <= 100,
    decreases outcomes.len(),
{
    law_window_keeps_latest(outcomes);
    if outcomes.len() > 30 {
        let w = latest(outcomes);
        lemma_lost_in_bound(w);
        let l = lost_in(w);
        let n = w.len();
        assert(l * 100 / n <= 100) by (nonlinear_arith)
            requires
                l <= n,
                n > 30,
        ;
    } else if outcomes.len() > 0 {
        law_loss_rate_over_rounds(initial, outcomes.drop_last());
    }
}

/// The outcomes of the latest probes of one address.
pub struct PingWindow {
    samples: VecDeque<bool>,
    lost: u32,
}

impl PingWindow {
    /// The recorded outcomes, oldest first; `true` for a reached host.
    pub closed spec fn outcomes(&self) -> Seq<bool> {
        self.samples@
    }

    pub closed spec fn wf(&self) -> bool {
        &&& self.samples@.len() <= window_capacity()
        &&& self.lost == lost_in(self.samples@)
    }

    pub fn new() -> (w: Self)
        ensures
            w.wf(),
            w.outcomes() == Seq::<bool>::empty(),
    {
        PingWindow { samples: VecDeque::new(), lost: 0 }
    }

    /// Records the outcome of one probe.
    pub fn record(&mut self, outcome: ProbeOutcome)
        requires
            old(self).wf(),
        ensures
            final(self).wf(),
            final(self).outcomes() == window_after(old(self).outcomes(), reached(outcome)),
    {
        proof {
            lemma_lost_in_bound(self.samples@);
        }
        if self.samples.len() > 100 {
            let ghost before = self.samples@;
            if let Some(front) = self.samples.pop_front() {
                proof {
                    lemma_lost_in_drop_first(before);
                    assert(self.samples@ =~= before.drop_first());
                }
                if !front {
                    self.lost = self.lost - 1;
                }
            }
        }
        let ghost kept = self.samples@;
        proof {
            lemma_lost_in_bound(kept);
        }
        match outcome {
            ProbeOutcome::Connected | ProbeOutcome::Refused => {
                self.samples.push_back(true);
            },
            ProbeOutcome::Failed => {
                self.lost = self.lost + 1;
                self.samples.push_back(false);
            },
        }
        assert(self.samples@.drop_last() =~= kept);
    }

    /// The number of recorded outcomes.
    pub fn len(&self) -> (n: usize)
        requires
            self.wf(),
        ensures
            n == self.outcomes().len(),
    {
        self.samples.len()
    }

    /// The number of lost probes among the recorded outcomes.
    pub fn lost(&self) -> (n: u32)
        requires
            self.wf(),
        ensures
            n == lost_in(self.outcomes()),
    {
        self.lost
    }

    /// The percentage of lost probes, once more than 30 outcomes are recorded.
    pub fn loss_rate(&self) -> (r: Option<u32>)
        requires
            self.wf(),
        ensures
            r == loss_rate_of(self.outcomes()),
            r matches Some(x) ==> x <= 100,
    {
        let n = self.samples.len();
        if n > 30 {
            proof {
                lemma_lost_in_bound(self.samples@);
            }
            let l = self.lost;
            assert(l * 100 / (n as int) <= 100 && l * 100 <= 10100) by (nonlinear_arith)
                requires
                    l <= n,
                    n <= 101,
                    n > 30,
            ;
            Some(l * 100 / (n as u32))
        } else {
            None
        }
    }
}

/// What is known of one probed address: its loss rate in percent and the
/// duration of its latest probe in milliseconds.
#[derive(Debug)]
pub struct PingData {
    pub probe_uri: String,
    pub lost_rate: u32,
    pub ping_time: u32,
}

impl Default for PingData {
    fn default() -> (r: Self)
        ensures
            r.probe_uri@.len() == 0,
            r.lost_rate == 0,
            r.ping_time == 0,
    {
        PingData { probe_uri: String::new(), lost_rate: 0, ping_time: 0 }
    }
}

impl PingData {
    /// Takes in the result of a probe round: the probe took `elapsed_ms`
    /// milliseconds (capped at `u32::MAX`), and the loss rate is refreshed once
    /// the window reports one.
    pub fn update(&mut self, window: &PingWindow, elapsed_ms: u128)
        requires
            window.wf(),
        ensures
            final(self).ping_time == if elapsed_ms > u32::MAX as u128 {
                u32::MAX
            } else {
                elapsed_ms as u32
            },
            final(self).lost_rate == match loss_rate_of(window.outcomes()) {
                Some(r) => r,
                None => old(self).lost_rate,
            },
            final(self).probe_uri == old(self).probe_uri,
    {
        self.ping_time = if elapsed_ms > u32::MAX as u128 {
            u32::MAX
        } else {
            elapsed_ms as u32
        };
        if let Some(r) = window.loss_rate() {
            self.lost_rate = r;
        }
    }

    /// One probe round: records `outcome` in `window`, then takes in the
    /// round's duration and the window's loss rate.
    pub fn record_round(&mut self, window: &mut PingWindow, outcome: ProbeOutcome, elapsed_ms: u128)
        requires
            old(window).wf(),
        ensures
            final(window).wf(),
            final(window).outcomes() == window_after(old(window).outcomes(), reached(outcome)),
            final(self).ping_time == if elapsed_ms > u32::MAX as u128 {
                u32::MAX
            } else {
                elapsed_ms as u32
            },
            final(self).lost_rate == match loss_rate_of(final(window).outcomes()) {
                Some(r) => r,
                None => old(self).lost_rate,
            },
            final(self).probe_uri == old(self).probe_uri,
    {
        window.record(outcome);
        self.update(window, elapsed_ms);
    }
}

} // verus!
