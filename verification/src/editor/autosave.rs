//! Autosave policy: save after the idle time **or** once enough characters
//! changed; meanwhile keep a throttled swap copy. Decides only; never touches disk.
use vstd::prelude::*;

use std::time::Instant;

verus! {

/// `std::time::Instant`, carried through as an opaque value.
#[verifier::external_type_specification]
#[verifier::external_body]
pub struct ExInstant(Instant);

/// What to do now.
#[derive(Debug, Clone, Copy, PartialEq, Eq, Structural)]
pub enum Action {
    /// Nothing.
    Idle,
    /// Write the swap copy only.
    WriteSwap,
    /// Save the text (and drop the swap copy).
    Save,
}

/// Minimum spacing between two swap writes, in milliseconds.
pub const SWAP_INTERVAL_MS: u64 = 500;

pub struct AutoSave {
    idle_ms: u64,
    words_threshold: usize,
    /// Time of the last edit.
    last_edit: Option<Instant>,
    last_swap: Option<Instant>,
}

/// Whole milliseconds from `earlier` to `now`: a function of the two readings
/// alone (zero when `earlier` is the later one).
pub uninterp spec fn elapsed_ms(now: Instant, earlier: Instant) -> u128;

/// `Instant::duration_since` then `Duration::as_millis`: the whole milliseconds
/// from `earlier` to `now`, which the two readings decide (zero when `earlier`
/// is later; it never panics). How many there are between two readings is not
/// stated: that is the clock's.
#[verifier::external_body]
pub(crate) fn millis_since(now: Instant, earlier: Instant) -> (r: u128)
    ensures
        r == elapsed_ms(now, earlier),
{
    now.duration_since(earlier).as_millis()
}

/// Milliseconds since the reading `t`, when there is one.
pub open spec fn since(now: Instant, t: Option<Instant>) -> Option<int> {
    match t {
        Some(t) => Some(elapsed_ms(now, t) as int),
        None => None,
    }
}

/// The decision, given how long ago the last edit and the last swap write were.
pub open spec fn spec_decide(
    dirty: bool,
    has_edit: bool,
    changed_chars: int,
    words_threshold: int,
    since_edit_ms: int,
    idle_ms: int,
    since_swap_ms: Option<int>,
) -> Action {
    if !dirty || !has_edit {
        Action::Idle
    } else if changed_chars >= words_threshold {
        Action::Save
    } else if since_edit_ms >= idle_ms {
        Action::Save
    } else if since_swap_ms is None || since_swap_ms.unwrap() >= SWAP_INTERVAL_MS {
        Action::WriteSwap
    } else {
        Action::Idle
    }
}

pub open spec fn opt_int(o: Option<u128>) -> Option<int> {
    match o {
        Some(v) => Some(v as int),
        None => None,
    }
}

impl AutoSave {
    pub fn new(idle_ms: u64, words_threshold: usize) -> (r: Self)
        ensures
            r.idle_ms() == idle_ms,
            r.words_threshold() == words_threshold,
            r.last_edit() is None,
            r.last_swap() is None,
    {
        AutoSave { idle_ms, words_threshold, last_edit: None, last_swap: None }
    }

    pub closed spec fn idle_ms(&self) -> u64 {
        self.idle_ms
    }

    pub closed spec fn words_threshold(&self) -> usize {
        self.words_threshold
    }

    pub closed spec fn last_edit(&self) -> Option<Instant> {
        self.last_edit
    }

    pub closed spec fn last_swap(&self) -> Option<Instant> {
        self.last_swap
    }

    /// The buffer was edited at `now`.
    pub fn on_edit(&mut self, now: Instant)
        ensures
            final(self).last_edit() == Some(now),
            final(self).last_swap() == old(self).last_swap(),
            final(self).idle_ms() == old(self).idle_ms(),
            final(self).words_threshold() == old(self).words_threshold(),
    {
        self.last_edit = Some(now);
    }

    /// The text was saved: both clocks reset.
    pub fn on_saved(&mut self)
        ensures
            final(self).last_edit() is None,
            final(self).last_swap() is None,
            final(self).idle_ms() == old(self).idle_ms(),
            final(self).words_threshold() == old(self).words_threshold(),
    {
        self.last_edit = None;
        self.last_swap = None;
    }

    /// What to do now, given the milliseconds since the last edit and since the last
    /// swap write (`None` when none was written). A swap decision records `now`.
    pub fn decide(
        &mut self,
        now: Instant,
        dirty: bool,
        changed_chars: usize,
        since_edit_ms: u128,
        since_swap_ms: Option<u128>,
    ) -> (r: Action)
        ensures
            r == spec_decide(
                dirty,
                old(self).last_edit() is Some,
                changed_chars as int,
                old(self).words_threshold() as int,
                since_edit_ms as int,
                old(self).idle_ms() as int,
                opt_int(since_swap_ms),
            ),
            final(self).last_swap() == (if r == Action::WriteSwap {
                Some(now)
            } else {
                old(self).last_swap()
            }),
            final(self).last_edit() == old(self).last_edit(),
            final(self).idle_ms() == old(self).idle_ms(),
            final(self).words_threshold() == old(self).words_threshold(),
    {
        if !dirty || self.last_edit.is_none() {
            return Action::Idle;
        }
        if changed_chars >= self.words_threshold {
            return Action::Save;
        }
        if since_edit_ms >= self.idle_ms as u128 {
            return Action::Save;
        }
        let due = match since_swap_ms {
            None => true,
            Some(t) => t >= SWAP_INTERVAL_MS as u128,
        };
        if due {
            self.last_swap = Some(now);
            return Action::WriteSwap;
        }
        Action::Idle
    }

    /// What to do now, at the clock reading `now`. `dirty` and `changed_chars`
    /// come from the buffer; the idle time is the time from the last edit to
    /// `now`, and the swap spacing the time from the last swap write to `now`.
    pub fn poll(&mut self, now: Instant, dirty: bool, changed_chars: usize) -> (r: Action)
        ensures
            r == spec_decide(
                dirty,
                old(self).last_edit() is Some,
                changed_chars as int,
                old(self).words_threshold() as int,
                match since(now, old(self).last_edit()) {
                    Some(ms) => ms,
                    None => 0,
                },
                old(self).idle_ms() as int,
                since(now, old(self).last_swap()),
            ),
            !dirty ==> r == Action::Idle,
            old(self).last_edit() is None ==> r == Action::Idle,
            dirty && old(self).last_edit() is Some && changed_chars >= old(self).words_threshold()
                ==> r == Action::Save,
            final(self).last_swap() == (if r == Action::WriteSwap {
                Some(now)
            } else {
                old(self).last_swap()
            }),
            final(self).last_edit() == old(self).last_edit(),
            final(self).idle_ms() == old(self).idle_ms(),
            final(self).words_threshold() == old(self).words_threshold(),
    {
        let since_edit: u128 = match self.last_edit {
            Some(t) => millis_since(now, t),
            None => 0,
        };
        let since_swap: Option<u128> = match self.last_swap {
            Some(t) => Some(millis_since(now, t)),
            None => None,
        };
        let r = self.decide(now, dirty, changed_chars, since_edit, since_swap);
        assert(opt_int(since_swap) == since(now, old(self).last_swap()));
        r
    }
}

} // verus!
