//! The rotation scheduler: cycles through the vocabulary on a timed
//! cadence, shows an entry early on a "show now" signal, and stops
//! within one tick of the run flag going false.

use crate::entry::{body_spec, render, Entry};
use rand::seq::SliceRandom;
use vstd::arithmetic::div_mod::{
    lemma_add_mod_noop_right, lemma_mod_bound, lemma_mod_self_0, lemma_mod_sub_multiples_vanish,
    lemma_small_mod,
};
use vstd::prelude::*;

verus! {

/// Relies on rand's `SliceRandom::shuffle` (Fisher–Yates, in-place
/// swaps): the vector after the call holds exactly the same entries,
/// rearranged.
#[verifier::external_body]
fn shuffle_entries(entries: &mut Vec<Entry>)
    ensures
        final(entries)@.to_multiset() == old(entries)@.to_multiset(),
        final(entries)@.len() == old(entries)@.len(),
{
    entries.shuffle(&mut rand::thread_rng());
}

/// The scheduler's control state. Showing is transient: a step that
/// shows renders and hands out the payload synchronously and lands
/// back in `Waiting`.
#[derive(PartialEq, Eq, Structural, Clone, Copy, Debug)]
pub enum Phase {
    Idle,
    Waiting,
    Stopped,
}

/// One decision of the scheduler: what the loop around it must do
/// before stepping again.
pub enum Action {
    /// Hand this title and body to the notification sink.
    Show { title: String, body: String },
    /// Sleep one tick.
    Sleep,
    /// The scheduler has stopped: leave the loop.
    Exit,
}

/// The mathematical state of the scheduler: control phase, cursor into
/// the entry sequence, ticks waited so far in the current interval.
pub struct Cfg {
    pub phase: Phase,
    pub cursor: int,
    pub elapsed: int,
}

/// The abstract form of one decision: show the entry at an index,
/// sleep one tick, or exit.
pub enum StepAct {
    ShowAt(int),
    SleepTick,
    ExitLoop,
}

/// Well-formedness of a state over `n` entries and a given interval.
pub open spec fn cfg_wf(c: Cfg, n: int, interval: int) -> bool {
    &&& 0 <= c.cursor < n
    &&& 0 <= c.elapsed <= interval
    &&& 1 <= interval
}

/// One transition of the scheduler's state machine, at one decision
/// point: stopped stays stopped; a false run flag stops at once; from
/// `Idle`, or from `Waiting` on a consumed signal or a full interval,
/// the entry under the cursor is shown, the cursor advances by one
/// modulo `n` and a fresh interval starts; otherwise one tick of the
/// wait passes.
pub open spec fn cfg_step(c: Cfg, n: int, interval: int, running: bool, signal: bool) -> (Cfg,
    StepAct) {
    if c.phase is Stopped {
        (c, StepAct::ExitLoop)
    } else if !running {
        (Cfg { phase: Phase::Stopped, cursor: c.cursor, elapsed: c.elapsed }, StepAct::ExitLoop)
    } else if c.phase is Idle || signal || c.elapsed >= interval {
        (
            Cfg { phase: Phase::Waiting, cursor: (c.cursor + 1) % n, elapsed: 0 },
            StepAct::ShowAt(c.cursor),
        )
    } else {
        (
            Cfg { phase: c.phase, cursor: c.cursor, elapsed: c.elapsed + 1 },
            StepAct::SleepTick,
        )
    }
}

/// Whether an executable action is the given abstract one over these
/// entries: a shown payload is exactly the rendering of the entry at
/// the abstract index.
pub open spec fn action_matches(a: Action, k: StepAct, entries: Seq<Entry>) -> bool {
    match k {
        StepAct::ShowAt(i) => {
            &&& 0 <= i < entries.len()
            &&& (a matches Action::Show { title, body } && title@ == entries[i]@.word && body@
                == body_spec(entries[i]@))
        },
        StepAct::SleepTick => a is Sleep,
        StepAct::ExitLoop => a is Exit,
    }
}

/// The machine run over a whole script of per-step `(running, signal)`
/// inputs: the final state and the indices shown, in order.
pub open spec fn run_cfg(c: Cfg, n: int, interval: int, inputs: Seq<(bool, bool)>) -> (Cfg, Seq<
    int,
>)
    decreases inputs.len(),
{
    if inputs.len() == 0 {
        (c, Seq::empty())
    } else {
        let (c1, k) = cfg_step(c, n, interval, inputs[0].0, inputs[0].1);
        let (c2, shown) = run_cfg(c1, n, interval, inputs.drop_first());
        match k {
            StepAct::ShowAt(i) => (c2, seq![i] + shown),
            StepAct::SleepTick => (c2, shown),
            StepAct::ExitLoop => (c2, shown),
        }
    }
}

/// The ticks (one per second) in a whole number of minutes, where the
/// product fits the machine; an interval too large to count is refused.
pub fn ticks_of_minutes(minutes: u64) -> (r: Option<u64>)
    ensures
        r matches Some(t) ==> t == minutes * 60,
        r is None <==> minutes * 60 > u64::MAX,
{
    minutes.checked_mul(60)
}

/// The rotation scheduler: an ordered, optionally shuffled entry
/// sequence, a cursor that wraps modulo its length, and the wait
/// position inside the current interval.
pub struct Scheduler {
    pub entries: Vec<Entry>,
    pub interval_ticks: u64,
    pub cursor: usize,
    pub elapsed: u64,
    pub phase: Phase,
}

impl Scheduler {
    /// The scheduler's mathematical state.
    pub open spec fn cfg(self) -> Cfg {
        Cfg { phase: self.phase, cursor: self.cursor as int, elapsed: self.elapsed as int }
    }

    /// The number of entries.
    pub open spec fn n(self) -> int {
        self.entries@.len() as int
    }

    /// A scheduler holds at least one entry, a positive interval, a
    /// cursor inside the sequence and a wait not past the interval.
    pub open spec fn wf(self) -> bool {
        &&& self.entries@.len() > 0
        &&& cfg_wf(self.cfg(), self.n(), self.interval_ticks as int)
    }

    /// Construct a scheduler over a non-empty entry sequence, cursor
    /// on the first entry, idle, with nothing waited yet. The sequence
    /// is permuted once when `shuffle` is set (same entries, possibly
    /// another order) and kept exactly as given otherwise.
    pub fn new(entries: Vec<Entry>, interval_ticks: u64, shuffle: bool) -> (s: Scheduler)
        requires
            entries@.len() > 0,
            1 <= interval_ticks,
        ensures
            s.wf(),
            s.phase is Idle,
            s.cursor == 0,
            s.elapsed == 0,
            s.interval_ticks == interval_ticks,
            s.entries@.len() == entries@.len(),
            shuffle ==> s.entries@.to_multiset() == entries@.to_multiset(),
            !shuffle ==> s.entries@ == entries@,
    {
        let mut es = entries;
        if shuffle {
            shuffle_entries(&mut es);
        }
        Scheduler { entries: es, interval_ticks, cursor: 0, elapsed: 0, phase: Phase::Idle }
    }

    /// The startup decision: a scheduler exists only over a non-empty
    /// vocabulary. An empty one is a configuration error: the caller
    /// reports it and no scheduler is constructed.
    pub fn try_new(entries: Vec<Entry>, interval_ticks: u64, shuffle: bool) -> (r: Option<
        Scheduler,
    >)
        requires
            1 <= interval_ticks,
        ensures
            r is Some <==> entries@.len() > 0,
            r matches Some(s) ==> {
                &&& s.wf()
                &&& s.phase is Idle
                &&& s.cursor == 0
                &&& s.elapsed == 0
                &&& s.interval_ticks == interval_ticks
                &&& s.entries@.len() == entries@.len()
                &&& (shuffle ==> s.entries@.to_multiset() == entries@.to_multiset())
                &&& (!shuffle ==> s.entries@ == entries@)
            },
    {
        if entries.len() == 0 {
            None
        } else {
            Some(Scheduler::new(entries, interval_ticks, shuffle))
        }
    }

    /// One decision of the scheduler at one decision point (loop top
    /// or one wait tick): `running` is the run flag as read now,
    /// `signal` whether a pending "show now" was consumed for this
    /// step. The state moves exactly by `cfg_step`; a shown payload is
    /// the rendering of the entry the cursor stood on.
    pub fn step(&mut self, running: bool, signal: bool) -> (a: Action)
        requires
            old(self).wf(),
        ensures
            final(self).wf(),
            final(self).entries == old(self).entries,
            final(self).interval_ticks == old(self).interval_ticks,
            ({
                let (c2, k) = cfg_step(
                    old(self).cfg(),
                    old(self).n(),
                    old(self).interval_ticks as int,
                    running,
                    signal,
                );
                final(self).cfg() == c2 && action_matches(a, k, old(self).entries@)
            }),
    {
        if self.phase == Phase::Stopped {
            return Action::Exit;
        }
        if !running {
            self.phase = Phase::Stopped;
            return Action::Exit;
        }
        if self.phase == Phase::Idle || signal || self.elapsed >= self.interval_ticks {
            let idx = self.cursor;
            let count = self.entries.len();
            let (title, body) = render(&self.entries[idx]);
            proof {
                if idx + 1 == count {
                    lemma_mod_self_0(count as int);
                } else {
                    lemma_small_mod((idx + 1) as nat, count as nat);
                }
            }
            self.cursor = if idx + 1 == count {
                0
            } else {
                idx + 1
            };
            self.elapsed = 0;
            self.phase = Phase::Waiting;
            Action::Show { title, body }
        } else {
            self.elapsed = self.elapsed + 1;
            Action::Sleep
        }
    }

    /// Force-once mode: render the entry under the cursor — right
    /// after construction, the first entry — without touching any
    /// state. The caller shows it once and terminates; the waiting
    /// state is never entered.
    pub fn force_show(&self) -> (r: (String, String))
        requires
            self.wf(),
        ensures
            r.0@ == self.entries@[self.cfg().cursor]@.word,
            r.1@ == body_spec(self.entries@[self.cfg().cursor]@),
    {
        render(&self.entries[self.cursor])
    }

    /// Drive the scheduler through a script of `(running, signal)`
    /// inputs, one step per element, collecting every shown payload:
    /// the loop agrees with `run_cfg` step for step.
    pub fn run_script(&mut self, inputs: &Vec<(bool, bool)>) -> (shows: Vec<(String, String)>)
        requires
            old(self).wf(),
        ensures
            final(self).wf(),
            final(self).entries == old(self).entries,
            final(self).interval_ticks == old(self).interval_ticks,
            ({
                let (cf, shown) = run_cfg(
                    old(self).cfg(),
                    old(self).n(),
                    old(self).interval_ticks as int,
                    inputs@,
                );
                &&& final(self).cfg() == cf
                &&& shows@.len() == shown.len()
                &&& forall|j: int|
                    0 <= j < shown.len() ==> {
                        &&& 0 <= #[trigger] shown[j] < old(self).n()
                        &&& shows@[j].0@ == old(self).entries@[shown[j]]@.word
                        &&& shows@[j].1@ == body_spec(old(self).entries@[shown[j]]@)
                    }
            }),
    {
        let ghost c0 = self.cfg();
        let ghost n = self.n();
        let ghost interval = self.interval_ticks as int;
        let mut shows: Vec<(String, String)> = Vec::new();
        let ghost mut shown: Seq<int> = Seq::empty();
        let mut i: usize = 0;
        proof {
            assert(inputs@.skip(0) =~= inputs@);
            assert(shown + run_cfg(self.cfg(), n, interval, inputs@).1 =~= run_cfg(
                self.cfg(),
                n,
                interval,
                inputs@,
            ).1);
        }
        while i < inputs.len()
            invariant
                i <= inputs@.len(),
                self.wf(),
                self.entries == old(self).entries,
                self.interval_ticks == old(self).interval_ticks,
                n == old(self).n(),
                interval == old(self).interval_ticks as int,
                c0 == old(self).cfg(),
                run_cfg(c0, n, interval, inputs@).0 == run_cfg(
                    self.cfg(),
                    n,
                    interval,
                    inputs@.skip(i as int),
                ).0,
                run_cfg(c0, n, interval, inputs@).1 == shown + run_cfg(
                    self.cfg(),
                    n,
                    interval,
                    inputs@.skip(i as int),
                ).1,
                shows@.len() == shown.len(),
                forall|j: int|
                    0 <= j < shown.len() ==> {
                        &&& 0 <= #[trigger] shown[j] < n
                        &&& shows@[j].0@ == old(self).entries@[shown[j]]@.word
                        &&& shows@[j].1@ == body_spec(old(self).entries@[shown[j]]@)
                    },
            decreases inputs@.len() - i,
        {
            let ghost cprev = self.cfg();
            let ghost shown_before = shown;
            let pair = inputs[i];
            let a = self.step(pair.0, pair.1);
            proof {
                let tail = inputs@.skip(i as int);
                assert(tail[0] == inputs@[i as int]);
                assert(tail.drop_first() =~= inputs@.skip(i as int + 1));
            }
            match a {
                Action::Show { title, body } => {
                    proof {
                        shown = shown + seq![cprev.cursor];
                    }
                    shows.push((title, body));
                },
                Action::Sleep => {},
                Action::Exit => {},
            }
            proof {
                let tail = inputs@.skip(i as int);
                let next_tail = inputs@.skip(i as int + 1);
                let k = cfg_step(cprev, n, interval, tail[0].0, tail[0].1).1;
                let rest = run_cfg(self.cfg(), n, interval, next_tail).1;
                if k is ShowAt {
                    assert((shown_before + seq![cprev.cursor]) + rest =~= shown_before + (seq![
                        cprev.cursor,
                    ] + rest));
                }
            }
            i = i + 1;
        }
        proof {
            assert(inputs@.skip(i as int) =~= Seq::<(bool, bool)>::empty());
            assert(shown + Seq::<int>::empty() =~= shown);
        }
        shows
    }
}

/// Cancellation responsiveness: at any decision point — loop top or a
/// single wait tick — a false run flag makes the very next decision an
/// exit, with the machine stopped; the wait never runs on to the full
/// interval.
pub proof fn lemma_cancellation_within_one_tick(
    c: Cfg,
    n: int,
    interval: int,
    signal: bool,
)
    ensures
        cfg_step(c, n, interval, false, signal).1 is ExitLoop,
        cfg_step(c, n, interval, false, signal).0.phase is Stopped,
{
}

/// An early show preserves sequence order: a waiting scheduler that
/// observes a consumed signal shows exactly the entry a full interval
/// would have shown, advances the cursor the same way, and starts the
/// next interval fresh — the wait is only shortened, never skipped
/// over an entry.
pub proof fn lemma_early_show_preserves_order(c: Cfg, n: int, interval: int)
    requires
        c.phase is Waiting,
    ensures
        cfg_step(c, n, interval, true, true) == cfg_step(
            Cfg { phase: c.phase, cursor: c.cursor, elapsed: interval },
            n,
            interval,
            true,
            false,
        ),
        cfg_step(c, n, interval, true, true).1 == StepAct::ShowAt(c.cursor),
{
}

proof fn lemma_mod_window(x: int, n: int)
    requires
        0 < n,
        0 <= x < 2 * n,
    ensures
        x % n == if x < n {
            x
        } else {
            x - n
        },
{
    if x < n {
        lemma_small_mod(x as nat, n as nat);
    } else {
        lemma_mod_sub_multiples_vanish(x, n);
        lemma_small_mod((x - n) as nat, n as nat);
    }
}

/// A run whose every step reads a true run flag and a pending signal
/// shows one entry per step, walking the cursor forward by one modulo
/// `n` each time.
proof fn lemma_run_all_signals(c: Cfg, n: int, interval: int, inputs: Seq<(bool, bool)>)
    requires
        1 <= n,
        0 <= c.cursor < n,
        !(c.phase is Stopped),
        forall|i: int| 0 <= i < inputs.len() ==> inputs[i] == (true, true),
    ensures
        ({
            let (cf, shown) = run_cfg(c, n, interval, inputs);
            &&& shown.len() == inputs.len()
            &&& cf.cursor == (c.cursor + inputs.len()) % n
            &&& 0 <= cf.cursor < n
            &&& !(cf.phase is Stopped)
            &&& forall|j: int| 0 <= j < inputs.len() ==> #[trigger] shown[j] == (c.cursor + j) % n
        }),
    decreases inputs.len(),
{
    if inputs.len() == 0 {
        lemma_small_mod(c.cursor as nat, n as nat);
    } else {
        assert(inputs[0] == (true, true));
        let (c1, k) = cfg_step(c, n, interval, true, true);
        lemma_mod_bound(c.cursor + 1, n);
        lemma_run_all_signals(c1, n, interval, inputs.drop_first());
        let (cf, shown) = run_cfg(c, n, interval, inputs);
        let shown1 = run_cfg(c1, n, interval, inputs.drop_first()).1;
        lemma_add_mod_noop_right(inputs.len() - 1, c.cursor + 1, n);
        assert(cf.cursor == (c.cursor + inputs.len()) % n);
        assert forall|j: int| 0 <= j < inputs.len() implies #[trigger] shown[j] == (c.cursor + j)
            % n by {
            if j == 0 {
                lemma_small_mod(c.cursor as nat, n as nat);
            } else {
                assert(shown[j] == shown1[j - 1]);
                lemma_add_mod_noop_right(j - 1, c.cursor + 1, n);
            }
        }
    }
}

/// Full rotation: from any live state, `n` consecutive shows — one per
/// step, as under a persistent signal — walk the cursor once round the
/// sequence: every index is shown exactly once, in sequence order, and
/// the cursor returns to its starting position.
pub proof fn lemma_full_rotation(c: Cfg, n: int, interval: int, inputs: Seq<(bool, bool)>)
    requires
        1 <= n,
        0 <= c.cursor < n,
        !(c.phase is Stopped),
        inputs.len() == n,
        forall|i: int| 0 <= i < inputs.len() ==> inputs[i] == (true, true),
    ensures
        ({
            let (cf, shown) = run_cfg(c, n, interval, inputs);
            &&& shown.len() == n
            &&& cf.cursor == c.cursor
            &&& forall|j: int| 0 <= j < n ==> #[trigger] shown[j] == (c.cursor + j) % n
            &&& forall|j: int, k: int| 0 <= j < k < n ==> shown[j] != shown[k]
        }),
{
    lemma_run_all_signals(c, n, interval, inputs);
    lemma_mod_sub_multiples_vanish(c.cursor + n, n);
    lemma_small_mod(c.cursor as nat, n as nat);
    let (cf, shown) = run_cfg(c, n, interval, inputs);
    assert forall|j: int, k: int| 0 <= j < k < n implies shown[j] != shown[k] by {
        lemma_mod_window(c.cursor + j, n);
        lemma_mod_window(c.cursor + k, n);
    }
}

} // verus!
