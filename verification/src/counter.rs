//! The counter of one group: the hour that is open, its running count, and
//! the counts of the hours of the window before it.

use std::collections::VecDeque;
use vstd::prelude::*;

use crate::clock::{current_hour, is_reading, ClockError};
use crate::sorting::rearranges;
use crate::stats::{
    lemma_samples_len, lemma_total_bound, lemma_total_rearranged, samples, total, Stat,
};

verus! {

/// Number of finished hours that a counter retains: thirty days.
pub const BACKLOG_SIZE: usize = 720;

/// `n` hours without data.
pub open spec fn gaps(n: nat) -> Seq<Option<u32>> {
    Seq::new(n, |i: int| None::<u32>)
}

/// The window that follows `history` once `elapsed` hours have passed, the
/// first of which closes with the count `closing`.
///
/// The oldest `elapsed` entries leave, the closed count comes in behind the
/// rest, and the hours after it are gaps. Once a whole window has passed
/// nothing is kept, not even the closed count.
pub open spec fn window_after(history: Seq<Option<u32>>, closing: u32, elapsed: int) -> Seq<
    Option<u32>,
> {
    if elapsed >= BACKLOG_SIZE {
        gaps(BACKLOG_SIZE as nat)
    } else {
        history.skip(elapsed) + seq![Some(closing)] + gaps((elapsed - 1) as nat)
    }
}

/// What a counter holds, as plain mathematical values.
///
/// `history` runs from the oldest retained hour to the hour just before
/// `hour`; an entry is the count of its hour, or `None` where the hour has no
/// data.
#[verifier::ext_equal]
pub struct CounterState {
    /// The absolute hour that is open.
    pub hour: u64,
    /// The finished hours of the window, oldest first.
    pub history: Seq<Option<u32>>,
    /// The count that the open hour has reached.
    pub live: u32,
}

impl CounterState {
    /// The history spans exactly the window.
    pub open spec fn wf(self) -> bool {
        self.history.len() == BACKLOG_SIZE
    }

    /// A counter that is first used in the hour `now`.
    pub open spec fn fresh(now: u64) -> CounterState {
        CounterState { hour: now, history: gaps(BACKLOG_SIZE as nat), live: 0 }
    }

    /// The counter once the clock has reached the hour `now`.
    ///
    /// Within the open hour nothing changes. Otherwise the window moves on
    /// by the hours that have passed, closing the open count, the open hour
    /// becomes `now`, and its count starts at zero: the three change
    /// together or not at all.
    pub open spec fn rolled(self, now: u64) -> CounterState
        recommends
            self.hour <= now,
    {
        if now <= self.hour {
            self
        } else {
            CounterState {
                hour: now,
                history: window_after(self.history, self.live, now - self.hour),
                live: 0,
            }
        }
    }

    /// The counter after `delta` more events in the open hour.
    pub open spec fn incremented(self, delta: u32) -> CounterState
        recommends
            self.live + delta <= u32::MAX,
    {
        CounterState { live: (self.live + delta) as u32, ..self }
    }

    /// The counter after the increments `deltas`, made one after another, all
    /// while the clock reads the hour `now`.
    pub open spec fn counted(self, now: u64, deltas: Seq<u32>) -> CounterState
        decreases deltas.len(),
    {
        if deltas.len() == 0 {
            self
        } else {
            self.counted(now, deltas.drop_last()).rolled(now).incremented(deltas.last())
        }
    }

    /// The counter that a stored record stands for, if the record is sound:
    /// its history must span exactly the window.
    pub open spec fn restored(hour: u64, history: Seq<Option<u32>>, live: u32) -> Option<
        CounterState,
    > {
        if history.len() == BACKLOG_SIZE {
            Some(CounterState { hour, history, live })
        } else {
            None
        }
    }

    /// The counter that a process starts from in the hour `now`: the stored
    /// one brought to `now` where there is a sound record, a fresh one
    /// otherwise.
    pub open spec fn resumed(record: Option<CounterState>, now: u64) -> CounterState {
        match record {
            Some(stored) => stored.rolled(now),
            None => CounterState::fresh(now),
        }
    }

    /// Increments within the open hour add up: after any run of them the open
    /// count has grown by the sum of the deltas, and the hour and the history
    /// are what they were.
    pub proof fn lemma_increments_add_up(self, deltas: Seq<u32>)
        requires
            self.live + total(deltas) <= u32::MAX,
        ensures
            self.counted(self.hour, deltas) == (CounterState {
                live: (self.live + total(deltas)) as u32,
                ..self
            }),
        decreases deltas.len(),
    {
        if deltas.len() > 0 {
            lemma_total_bound(deltas.drop_last());
            self.lemma_increments_add_up(deltas.drop_last());
        }
    }

    /// No increment is lost to the order in which increments arrive: two runs
    /// of the same deltas within the open hour, in whatever order, leave the
    /// same counter.
    pub proof fn lemma_increments_commute(self, first: Seq<u32>, second: Seq<u32>)
        requires
            rearranges(first, second),
            self.live + total(first) <= u32::MAX,
        ensures
            self.counted(self.hour, first) == self.counted(self.hour, second),
    {
        lemma_total_rearranged(first, second);
        self.lemma_increments_add_up(first);
        self.lemma_increments_add_up(second);
    }

    /// Rolling forward by `k` hours, with `k` at least one and less than the
    /// window: the `k` oldest entries leave, `k` entries are appended, and
    /// the length stays that of the window. The first appended entry is the
    /// count that was open at the moment of the rollover, and the other
    /// `k - 1` are gaps. The new open hour is `now` and starts at zero.
    pub proof fn lemma_roll_within_window(self, now: u64)
        requires
            self.wf(),
            1 <= now - self.hour < BACKLOG_SIZE,
        ensures
            ({
                let k = now - self.hour;
                let after = self.rolled(now);
                &&& after.hour == now
                &&& after.live == 0
                &&& after.history.len() == BACKLOG_SIZE
                &&& forall|i: int|
                    0 <= i < BACKLOG_SIZE - k ==> after.history[i] == self.history[i + k]
                &&& after.history[BACKLOG_SIZE - k] == Some(self.live)
                &&& forall|i: int|
                    BACKLOG_SIZE - k < i < BACKLOG_SIZE ==> after.history[i] == None::<u32>
            }),
    {
    }

    /// Rolling forward by a whole window or more leaves nothing but gaps, in
    /// a history that still has the length of the window; no sample is left
    /// for the statistics.
    pub proof fn lemma_roll_beyond_window(self, now: u64)
        requires
            self.wf(),
            now - self.hour >= BACKLOG_SIZE,
        ensures
            ({
                let after = self.rolled(now);
                &&& after.hour == now
                &&& after.live == 0
                &&& after.history.len() == BACKLOG_SIZE
                &&& forall|i: int| 0 <= i < BACKLOG_SIZE ==> after.history[i] == None::<u32>
                &&& samples(after.history).len() == 0
            }),
    {
        lemma_samples_len(self.rolled(now).history);
    }

    /// Rolling forward keeps the counter well formed and ends in the hour
    /// `now`, which is never before the hour it started from; within the open
    /// hour it changes nothing.
    pub proof fn lemma_roll_preserves(self, now: u64)
        requires
            self.wf(),
            self.hour <= now,
        ensures
            self.rolled(now).wf(),
            self.rolled(now).hour == now,
            self.hour == now ==> self.rolled(now) == self,
    {
    }

    /// A counter comes back from its own record unchanged: the hour, the
    /// history and the open count of a well-formed counter restore to that
    /// counter.
    pub proof fn lemma_record_round_trip(self)
        requires
            self.wf(),
        ensures
            CounterState::restored(self.hour, self.history, self.live) == Some(self),
    {
    }
}

/// A counter as it is stored: the open hour, the history with its gaps, and
/// the open count. A record comes from outside and may be unsound.
#[derive(Clone, Debug, PartialEq, Eq)]
pub struct Record {
    /// The absolute hour that was open when the record was written.
    pub current_hour: u64,
    /// The finished hours before it, oldest first.
    pub log: VecDeque<Option<u32>>,
    /// The count that the open hour had reached.
    pub current: u32,
}

impl Record {
    /// The counter that this record stands for, if the record is sound.
    pub open spec fn state(&self) -> Option<CounterState> {
        CounterState::restored(self.current_hour, self.log@, self.current)
    }
}

/// The counter that an optional stored record stands for, if it is there and
/// sound.
pub open spec fn stored_state(record: Option<Record>) -> Option<CounterState> {
    match record {
        Some(stored) => stored.state(),
        None => None,
    }
}

/// Why a stored record gives no counter.
#[derive(Clone, Copy, Debug, PartialEq, Eq, Structural)]
pub enum ReadError {
    /// The record's history does not span the window.
    Malformed,
    /// The clock cannot be used to bring the record up to date.
    Clock(ClockError),
}

/// The counter of one group.
#[derive(Debug)]
pub struct GuildJoins {
    current_hour: u64,
    log: VecDeque<Option<u32>>,
    current: u32,
}

impl View for GuildJoins {
    type V = CounterState;

    closed spec fn view(&self) -> CounterState {
        CounterState { hour: self.current_hour, history: self.log@, live: self.current }
    }
}

/// Builds the window that follows `log` once `elapsed` hours have passed,
/// the first of which closes with the count `closing`.
fn next_window(log: &VecDeque<Option<u32>>, closing: u32, elapsed: u64) -> (next: VecDeque<
    Option<u32>,
>)
    requires
        log@.len() == BACKLOG_SIZE,
        elapsed >= 1,
    ensures
        next@ == window_after(log@, closing, elapsed as int),
        next@.len() == BACKLOG_SIZE,
{
    let mut next: VecDeque<Option<u32>> = VecDeque::with_capacity(BACKLOG_SIZE);
    if elapsed < BACKLOG_SIZE as u64 {
        let first: usize = elapsed as usize;
        let mut kept: usize = first;
        while kept < BACKLOG_SIZE
            invariant
                first <= kept <= BACKLOG_SIZE,
                log@.len() == BACKLOG_SIZE,
                next@ == log@.subrange(first as int, kept as int),
            decreases BACKLOG_SIZE - kept,
        {
            next.push_back(log[kept]);
            kept = kept + 1;
        }
        next.push_back(Some(closing));
    }
    let ghost head = next@;
    let mut filled: usize = next.len();
    while filled < BACKLOG_SIZE
        invariant
            head.len() <= filled <= BACKLOG_SIZE,
            next@ == head + gaps((filled - head.len()) as nat),
        decreases BACKLOG_SIZE - filled,
    {
        next.push_back(None);
        filled = filled + 1;
    }
    next
}

impl GuildJoins {
    /// Every counter is well formed: its history spans exactly the window.
    #[verifier::type_invariant]
    pub open spec fn well_formed(&self) -> bool {
        self@.wf()
    }

    /// A counter that is first used in the hour `now`: nothing recorded, and
    /// nothing counted yet.
    pub fn new_at(now: u64) -> (counter: GuildJoins)
        ensures
            counter@ == CounterState::fresh(now),
    {
        let mut log: VecDeque<Option<u32>> = VecDeque::with_capacity(BACKLOG_SIZE);
        let mut filled: usize = 0;
        while filled < BACKLOG_SIZE
            invariant
                filled <= BACKLOG_SIZE,
                log@ == gaps(filled as nat),
            decreases BACKLOG_SIZE - filled,
        {
            log.push_back(None);
            filled = filled + 1;
        }
        GuildJoins { current_hour: now, log, current: 0 }
    }

    /// The counter that `record` stands for, or `None` if the record's
    /// history does not span the window.
    pub fn from_record(record: Record) -> (counter: Option<GuildJoins>)
        ensures
            match counter {
                Some(c) => record.state() == Some(c@),
                None => record.state() is None,
            },
    {
        if record.log.len() == BACKLOG_SIZE {
            Some(
                GuildJoins {
                    current_hour: record.current_hour,
                    log: record.log,
                    current: record.current,
                },
            )
        } else {
            None
        }
    }

    /// The record of this counter, which `from_record` makes the same
    /// counter of again.
    pub fn into_record(self) -> (record: Record)
        ensures
            record.state() == Some(self@),
    {
        proof {
            use_type_invariant(&self);
        }
        Record { current_hour: self.current_hour, log: self.log, current: self.current }
    }

    /// A copy of the record of this counter, for storing it while it stays
    /// in use.
    pub fn record(&self) -> (record: Record)
        ensures
            record.state() == Some(self@),
    {
        proof {
            use_type_invariant(self);
        }
        let mut log: VecDeque<Option<u32>> = VecDeque::with_capacity(BACKLOG_SIZE);
        let mut copied: usize = 0;
        while copied < BACKLOG_SIZE
            invariant
                copied <= BACKLOG_SIZE,
                self.log@.len() == BACKLOG_SIZE,
                log@ == self.log@.take(copied as int),
            decreases BACKLOG_SIZE - copied,
        {
            log.push_back(self.log[copied]);
            copied = copied + 1;
        }
        assert(log@ == self.log@);
        Record { current_hour: self.current_hour, log, current: self.current }
    }

    /// The absolute hour that is open.
    pub fn current_hour(&self) -> (hour: u64)
        ensures
            hour == self@.hour,
    {
        self.current_hour
    }

    /// The count that the open hour has reached.
    pub fn current(&self) -> (live: u32)
        ensures
            live == self@.live,
    {
        self.current
    }

    /// The finished hours of the window, oldest first.
    pub fn log(&self) -> (history: &VecDeque<Option<u32>>)
        ensures
            history@ == self@.history,
            history@.len() == BACKLOG_SIZE,
    {
        proof {
            use_type_invariant(self);
        }
        &self.log
    }

    /// Brings the counter to the hour `now`, and says whether that changed
    /// it. The clock does not run backwards: `now` is not before the open
    /// hour.
    ///
    /// The next window is built aside and put in place whole, so that the
    /// counter never holds a history of another length, not even for a
    /// moment.
    pub fn roll_forward(&mut self, now: u64) -> (changed: bool)
        requires
            old(self)@.hour <= now,
        ensures
            final(self)@ == old(self)@.rolled(now),
            changed == (old(self)@.hour != now),
    {
        proof {
            use_type_invariant(&*self);
        }
        if self.current_hour == now {
            return false;
        }
        let elapsed: u64 = now - self.current_hour;
        self.log = next_window(&self.log, self.current, elapsed);
        self.current_hour = now;
        self.current = 0;
        true
    }

    /// Counts `delta` more events at the hour `now`: the counter is brought
    /// to `now` first. Gives the count that the open hour has reached, and
    /// whether the hour changed.
    pub fn add_at(&mut self, delta: u32, now: u64) -> (outcome: (u32, bool))
        requires
            old(self)@.hour <= now,
            old(self)@.rolled(now).live + delta <= u32::MAX,
        ensures
            final(self)@ == old(self)@.rolled(now).incremented(delta),
            outcome.0 == final(self)@.live,
            outcome.1 == (old(self)@.hour != now),
    {
        let changed = self.roll_forward(now);
        proof {
            use_type_invariant(&*self);
        }
        self.current = self.current + delta;
        (self.current, changed)
    }

    /// The statistics of the window as it stands, beside the open count.
    pub fn summary(&self) -> (stat: Stat)
        ensures
            stat.summarizes(self@.history, self@.live),
    {
        proof {
            use_type_invariant(self);
        }
        Stat::compute(&self.log, self.current)
    }

    /// The statistics at the hour `now`: the counter is brought to `now`
    /// first. Also says whether the hour changed.
    pub fn stat_at(&mut self, now: u64) -> (outcome: (Stat, bool))
        requires
            old(self)@.hour <= now,
        ensures
            final(self)@ == old(self)@.rolled(now),
            outcome.0.summarizes(final(self)@.history, final(self)@.live),
            outcome.1 == (old(self)@.hour != now),
    {
        let changed = self.roll_forward(now);
        (self.summary(), changed)
    }

    /// Makes a counter of a stored record and brings it to the hour `now`.
    /// Also says whether that changed the record.
    ///
    /// A record whose history does not span the window is `Malformed`; a
    /// sound one whose hour lies after `now` is a `Regression` of the clock.
    pub fn read_at(record: Record, now: u64) -> (loaded: Result<(GuildJoins, bool), ReadError>)
        ensures
            match loaded {
                Ok((counter, changed)) => {
                    &&& record.state() matches Some(stored)
                    &&& stored.hour <= now
                    &&& counter@ == stored.rolled(now)
                    &&& changed == (stored.hour != now)
                },
                Err(ReadError::Malformed) => record.state() is None,
                Err(ReadError::Clock(e)) => {
                    &&& record.state() matches Some(stored)
                    &&& now < stored.hour
                    &&& e == ClockError::Regression
                },
            },
    {
        match GuildJoins::from_record(record) {
            None => Err(ReadError::Malformed),
            Some(stored) => {
                if now < stored.current_hour {
                    Err(ReadError::Clock(ClockError::Regression))
                } else {
                    let mut counter = stored;
                    let changed = counter.roll_forward(now);
                    Ok((counter, changed))
                }
            },
        }
    }

    /// The counter that a process starts from in the hour `now`: the stored
    /// record brought to `now` if there is a sound one, a fresh counter if
    /// there is none or it is malformed. Also says whether a stored record
    /// was changed by bringing it to `now`.
    ///
    /// A sound record whose hour lies after `now` is a `Regression` of the
    /// clock, and gives no counter.
    pub fn read_or_new_at(record: Option<Record>, now: u64) -> (loaded: Result<
        (GuildJoins, bool),
        ClockError,
    >)
        ensures
            match loaded {
                Ok((counter, changed)) => {
                    &&& counter@ == CounterState::resumed(stored_state(record), now)
                    &&& stored_state(record) matches Some(stored) ==> stored.hour <= now
                    &&& changed == (stored_state(record) matches Some(stored) && stored.hour != now)
                },
                Err(e) => {
                    &&& e == ClockError::Regression
                    &&& stored_state(record) matches Some(stored) && now < stored.hour
                },
            },
    {
        match record {
            None => Ok((GuildJoins::new_at(now), false)),
            Some(stored) => {
                match GuildJoins::read_at(stored, now) {
                    Ok(loaded) => Ok(loaded),
                    Err(ReadError::Malformed) => Ok((GuildJoins::new_at(now), false)),
                    Err(ReadError::Clock(e)) => Err(e),
                }
            },
        }
    }

    /// A counter that is first used now: the open hour is the one that the
    /// wall clock is in.
    pub fn new() -> (counter: Result<GuildJoins, ClockError>)
        ensures
            match counter {
                Ok(c) => c@ == CounterState::fresh(c@.hour),
                Err(e) => e == ClockError::BeforeEpoch,
            },
    {
        match current_hour() {
            Ok(now) => Ok(GuildJoins::new_at(now)),
            Err(e) => Err(e),
        }
    }

    /// Brings the counter to the hour that the wall clock is in, and says
    /// whether that changed it.
    ///
    /// Whatever the clock says, the counter and the outcome are those that
    /// `roll_forward_on` gives for what was read: a fault of the clock, or an
    /// hour before the open one, leaves the counter as it was.
    pub fn update_to_latest_hour(&mut self) -> (changed: Result<bool, ClockError>)
        ensures
            exists|reading: Result<u64, ClockError>|
                is_reading(reading) && #[trigger] old(self)@.rolls_on(
                    reading,
                    final(self)@,
                    changed,
                ),
    {
        let reading = current_hour();
        self.roll_forward_on(reading)
    }

    /// Counts `delta` more events in the hour that the wall clock is in.
    /// Gives the count that the open hour has reached, and whether the hour
    /// changed.
    ///
    /// When the clock cannot be read, or reads an hour before the open one,
    /// nothing is counted.
    ///
    /// Whatever the clock says, the counter and the outcome are those that
    /// `add_on` gives for what was read: for a reading of an hour that is
    /// not before the open one, the counter rolled forward to that hour and
    /// incremented by `delta`; for any other reading, the counter as it was
    /// and the fault of the clock.
    ///
    /// The open count must be able to take `delta` more, whether or not the
    /// hour turns: a caller cannot know what the clock will say, and within
    /// the open hour the count goes on from where it stands.
    pub fn add(&mut self, delta: u32) -> (outcome: Result<(u32, bool), ClockError>)
        requires
            old(self)@.live + delta <= u32::MAX,
        ensures
            exists|reading: Result<u64, ClockError>|
                is_reading(reading) && #[trigger] old(self)@.adds_on(
                    delta,
                    reading,
                    final(self)@,
                    outcome,
                ),
    {
        let reading = current_hour();
        self.add_on(delta, reading)
    }

    /// The statistics in the hour that the wall clock is in. Also says
    /// whether the hour changed.
    ///
    /// When the clock cannot be read, or reads an hour before the open one,
    /// the counter is left as it was.
    ///
    /// Whatever the clock says, the counter and the outcome are those that
    /// `stat_on` gives for what was read: for a reading of an hour that is
    /// not before the open one, the counter rolled forward to that hour and
    /// the summary of its window; for any other reading, the counter as it
    /// was and the fault of the clock.
    ///
    /// The statistics are those of the window after the rollover, so the
    /// hour that has just closed is among the samples, and the open count
    /// beside them is that of the hour that was read.
    pub fn stat(&mut self) -> (outcome: Result<(Stat, bool), ClockError>)
        ensures
            exists|reading: Result<u64, ClockError>|
                is_reading(reading) && #[trigger] old(self)@.stats_on(
                    reading,
                    final(self)@,
                    outcome,
                ),
    {
        let reading = current_hour();
        self.stat_on(reading)
    }

    /// Makes a counter of a stored record and brings it to the hour that the
    /// wall clock is in. Also says whether that changed the record.
    ///
    /// A record whose history does not span the window is `Malformed`,
    /// whatever the clock says; a sound record gives a counter unless the
    /// clock cannot be read or reads an hour before the record's.
    pub fn read(record: Record) -> (loaded: Result<(GuildJoins, bool), ReadError>)
        ensures
            loaded matches Err(ReadError::Malformed) <==> record.state() is None,
            loaded matches Ok((counter, changed)) ==> {
                &&& record.state() matches Some(stored)
                &&& stored.hour <= counter@.hour
                &&& counter@ == stored.rolled(counter@.hour)
                &&& changed == (stored.hour != counter@.hour)
            },
    {
        if record.log.len() != BACKLOG_SIZE {
            return Err(ReadError::Malformed);
        }
        match current_hour() {
            Ok(now) => GuildJoins::read_at(record, now),
            Err(e) => Err(ReadError::Clock(e)),
        }
    }

    /// The counter that a process starts from now: the stored record brought
    /// to the hour that the wall clock is in if there is a sound one, a fresh
    /// counter otherwise. Also says whether a stored record was changed.
    ///
    /// There is no counter when the clock cannot be read, or reads an hour
    /// before that of a sound record.
    pub fn read_or_new(record: Option<Record>) -> (loaded: Result<(GuildJoins, bool), ClockError>)
        ensures
            match loaded {
                Ok((counter, changed)) => {
                    &&& counter@ == CounterState::resumed(stored_state(record), counter@.hour)
                    &&& stored_state(record) matches Some(stored) ==> stored.hour <= counter@.hour
                    &&& changed == (stored_state(record) matches Some(stored) && stored.hour
                        != counter@.hour)
                },
                Err(e) => e == ClockError::Regression ==> stored_state(record) is Some,
            },
    {
        match current_hour() {
            Ok(now) => GuildJoins::read_or_new_at(record, now),
            Err(e) => Err(e),
        }
    }

    /// Whether a reading of the clock can move this counter: the hour to
    /// move to, or the fault. An hour before the open one is a `Regression`.
    pub fn reached(&self, reading: Result<u64, ClockError>) -> (arrival: Result<u64, ClockError>)
        ensures
            arrival == self@.reached(reading),
    {
        match reading {
            Ok(now) => {
                if now < self.current_hour {
                    Err(ClockError::Regression)
                } else {
                    Ok(now)
                }
            },
            Err(e) => Err(e),
        }
    }

    /// Brings the counter to the hour of `reading`, and says whether that
    /// changed it. A reading that is a fault, or an hour before the open one,
    /// leaves the counter as it was and comes back as the error.
    pub fn roll_forward_on(&mut self, reading: Result<u64, ClockError>) -> (changed: Result<
        bool,
        ClockError,
    >)
        ensures
            old(self)@.rolls_on(reading, final(self)@, changed),
    {
        match self.reached(reading) {
            Ok(now) => Ok(self.roll_forward(now)),
            Err(e) => Err(e),
        }
    }

    /// Counts `delta` more events at the hour of `reading`, and gives the
    /// count that the open hour has reached and whether the hour changed. A
    /// reading that is a fault, or an hour before the open one, leaves the
    /// counter as it was and comes back as the error.
    pub fn add_on(&mut self, delta: u32, reading: Result<u64, ClockError>) -> (outcome: Result<
        (u32, bool),
        ClockError,
    >)
        requires
            old(self)@.live + delta <= u32::MAX,
        ensures
            old(self)@.adds_on(delta, reading, final(self)@, outcome),
    {
        match self.reached(reading) {
            Ok(now) => Ok(self.add_at(delta, now)),
            Err(e) => Err(e),
        }
    }

    /// The statistics at the hour of `reading`, and whether the hour
    /// changed. A reading that is a fault, or an hour before the open one,
    /// leaves the counter as it was and comes back as the error.
    pub fn stat_on(&mut self, reading: Result<u64, ClockError>) -> (outcome: Result<
        (Stat, bool),
        ClockError,
    >)
        ensures
            old(self)@.stats_on(reading, final(self)@, outcome),
    {
        match self.reached(reading) {
            Ok(now) => Ok(self.stat_at(now)),
            Err(e) => Err(e),
        }
    }
}

impl CounterState {
    /// What a reading of the clock means to this counter: the hour to move
    /// to, or the fault. A fault of the clock stays what it is, and an hour
    /// before the open one is a `Regression`.
    pub open spec fn reached(self, reading: Result<u64, ClockError>) -> Result<u64, ClockError> {
        match reading {
            Ok(now) => if now < self.hour {
                Err(ClockError::Regression)
            } else {
                Ok(now)
            },
            Err(e) => Err(e),
        }
    }

    /// `after` and `changed` are what rolling forward on `reading` leaves and
    /// gives: the counter rolled to the hour that was reached and whether
    /// that is another hour, or the counter as it was and the error.
    pub open spec fn rolls_on(
        self,
        reading: Result<u64, ClockError>,
        after: CounterState,
        changed: Result<bool, ClockError>,
    ) -> bool {
        match self.reached(reading) {
            Ok(now) => after == self.rolled(now) && changed == Ok::<bool, ClockError>(
                self.hour != now,
            ),
            Err(e) => after == self && changed == Err::<bool, ClockError>(e),
        }
    }

    /// `after` and `outcome` are what counting `delta` on `reading` leaves
    /// and gives: the counter rolled to the hour that was reached and
    /// incremented, with its open count and whether that is another hour, or
    /// the counter as it was and the error.
    pub open spec fn adds_on(
        self,
        delta: u32,
        reading: Result<u64, ClockError>,
        after: CounterState,
        outcome: Result<(u32, bool), ClockError>,
    ) -> bool {
        match self.reached(reading) {
            Ok(now) => after == self.rolled(now).incremented(delta) && outcome == Ok::<
                (u32, bool),
                ClockError,
            >((after.live, self.hour != now)),
            Err(e) => after == self && outcome == Err::<(u32, bool), ClockError>(e),
        }
    }

    /// `after` and `outcome` are what taking the statistics on `reading`
    /// leaves and gives: the counter rolled to the hour that was reached,
    /// with the summary of its window and whether that is another hour, or
    /// the counter as it was and the error.
    pub open spec fn stats_on(
        self,
        reading: Result<u64, ClockError>,
        after: CounterState,
        outcome: Result<(Stat, bool), ClockError>,
    ) -> bool {
        match self.reached(reading) {
            Ok(now) => {
                &&& after == self.rolled(now)
                &&& outcome matches Ok((stat, moved))
                &&& stat.summarizes(after.history, after.live)
                &&& moved == (self.hour != now)
            },
            Err(e) => after == self && outcome == Err::<(Stat, bool), ClockError>(e),
        }
    }
}

} // verus!
