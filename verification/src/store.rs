//! The counters of all groups, keyed by group.
//!
//! An entry comes into being when its group is first touched, from a stored
//! record if there is one, and stays for good.

use std::collections::HashMap;
use vstd::prelude::*;
use vstd::std_specs::hash::group_hash_axioms;
use vstd::std_specs::iter::IteratorSpec;

use crate::clock::{current_hour, is_reading, ClockError};
use crate::counter::{stored_state, CounterState, GuildJoins, Record};
use crate::stats::Stat;

verus! {

/// The counters of all groups that were touched so far.
#[derive(Debug)]
pub struct GuildJoinsMap {
    counters: HashMap<u64, GuildJoins>,
}

impl View for GuildJoinsMap {
    type V = Map<u64, CounterState>;

    closed spec fn view(&self) -> Map<u64, CounterState> {
        self.counters@.map_values(|counter: GuildJoins| counter@)
    }
}

/// The counter that a touch of `guild` at the hour `now` works on: the
/// group's own counter brought to `now`, or a fresh one for a group that has
/// none.
pub open spec fn touched(counters: Map<u64, CounterState>, guild: u64, now: u64) -> CounterState {
    CounterState::resumed(counters.get(guild), now)
}

/// The counters after `delta` more events for `guild` at the hour `now`: the
/// counter of `guild` is the touched one with `delta` counted, and every
/// other group has the counter it had.
pub open spec fn counted_for(
    counters: Map<u64, CounterState>,
    guild: u64,
    delta: u32,
    now: u64,
) -> Map<u64, CounterState> {
    counters.insert(guild, touched(counters, guild, now).incremented(delta))
}

/// Counting for one group does not reach another: events for two different
/// groups, counted in either order, leave the same counters.
pub proof fn lemma_groups_independent(
    counters: Map<u64, CounterState>,
    first: (u64, u32, u64),
    second: (u64, u32, u64),
)
    requires
        first.0 != second.0,
    ensures
        counted_for(counted_for(counters, first.0, first.1, first.2), second.0, second.1, second.2)
            == counted_for(
            counted_for(counters, second.0, second.1, second.2),
            first.0,
            first.1,
            first.2,
        ),
        counted_for(counters, first.0, first.1, first.2).get(second.0) == counters.get(second.0),
{
    let one_two = counted_for(
        counted_for(counters, first.0, first.1, first.2),
        second.0,
        second.1,
        second.2,
    );
    let two_one = counted_for(
        counted_for(counters, second.0, second.1, second.2),
        first.0,
        first.1,
        first.2,
    );
    assert(one_two =~= two_one);
}

impl GuildJoinsMap {
    /// The counter of `guild`, if it has one, is not ahead of `now`, and its
    /// open count can take `delta` more at `now`.
    pub open spec fn accepts(&self, guild: u64, delta: u32, now: u64) -> bool {
        self@.contains_key(guild) ==> {
            &&& self@[guild].hour <= now
            &&& self@[guild].rolled(now).live + delta <= u32::MAX
        }
    }

    /// A store without counters.
    pub fn new() -> (store: GuildJoinsMap)
        ensures
            store@ == Map::<u64, CounterState>::empty(),
    {
        broadcast use group_hash_axioms;

        let store = GuildJoinsMap { counters: HashMap::new() };
        assert(store@ =~= Map::<u64, CounterState>::empty());
        store
    }

    /// Whether `guild` has a counter.
    pub fn contains(&self, guild: u64) -> (known: bool)
        ensures
            known == self@.contains_key(guild),
    {
        broadcast use group_hash_axioms;

        self.counters.contains_key(&guild)
    }

    /// The counter of `guild`, if it has one.
    pub fn get(&self, guild: u64) -> (counter: Option<&GuildJoins>)
        ensures
            match counter {
                Some(c) => self@.contains_key(guild) && c@ == self@[guild] && c@.wf(),
                None => !self@.contains_key(guild),
            },
    {
        broadcast use group_hash_axioms;

        let counter = self.counters.get(&guild);
        proof {
            if let Some(c) = counter {
                use_type_invariant(c);
            }
        }
        counter
    }

    /// The number of groups that have a counter.
    pub fn len(&self) -> (count: usize)
        ensures
            count == self@.dom().len(),
    {
        broadcast use group_hash_axioms;

        assert(self@.dom() =~= self.counters@.dom());
        self.counters.len()
    }

    /// Gives `guild` its counter at the hour `now`, unless it has one: the
    /// stored record brought to `now` if `record` holds a sound one, a fresh
    /// counter otherwise. Says whether a stored record was taken in and
    /// changed by bringing it to `now`.
    ///
    /// A group that has a counter keeps it, whatever `record` holds. A sound
    /// record whose hour lies after `now` is a `Regression` of the clock, and
    /// leaves the store as it was.
    pub fn enroll_at(&mut self, guild: u64, record: Option<Record>, now: u64) -> (changed: Result<
        bool,
        ClockError,
    >)
        ensures
            match changed {
                Ok(moved) => {
                    if old(self)@.contains_key(guild) {
                        final(self)@ == old(self)@ && !moved
                    } else {
                        &&& final(self)@ == old(self)@.insert(
                            guild,
                            CounterState::resumed(stored_state(record), now),
                        )
                        &&& stored_state(record) matches Some(stored) ==> stored.hour <= now
                        &&& moved == (stored_state(record) matches Some(stored) && stored.hour
                            != now)
                    }
                },
                Err(e) => {
                    &&& final(self)@ == old(self)@
                    &&& e == ClockError::Regression
                    &&& !old(self)@.contains_key(guild)
                    &&& stored_state(record) matches Some(stored) && now < stored.hour
                },
            },
    {
        broadcast use group_hash_axioms;

        if self.counters.contains_key(&guild) {
            return Ok(false);
        }
        match GuildJoins::read_or_new_at(record, now) {
            Ok((counter, moved)) => {
                self.counters.insert(guild, counter);
                assert(self@ =~= old(self)@.insert(guild, counter@));
                Ok(moved)
            },
            Err(e) => Err(e),
        }
    }

    /// Counts `delta` more events for `guild` at the hour `now`, and gives
    /// the group's statistics after that. Also says whether the open hour of
    /// a counter that was there changed.
    ///
    /// A group without a counter gets a fresh one first. The counters of all
    /// other groups stay as they are.
    pub fn add_at(&mut self, guild: u64, delta: u32, now: u64) -> (outcome: (Stat, bool))
        requires
            old(self).accepts(guild, delta, now),
        ensures
            final(self)@ == counted_for(old(self)@, guild, delta, now),
            outcome.0.summarizes(final(self)@[guild].history, final(self)@[guild].live),
            outcome.1 == (old(self)@.contains_key(guild) && old(self)@[guild].hour != now),
    {
        broadcast use group_hash_axioms;

        let mut counter = match self.counters.remove(&guild) {
            Some(counter) => counter,
            None => GuildJoins::new_at(now),
        };
        let (_, moved) = counter.add_at(delta, now);
        let stat = counter.summary();
        self.counters.insert(guild, counter);
        assert(self@ =~= old(self)@.insert(guild, counter@));
        (stat, moved)
    }

    /// The statistics of `guild` at the hour `now`, with nothing counted:
    /// `add_at` with a delta of zero.
    pub fn query_at(&mut self, guild: u64, now: u64) -> (outcome: (Stat, bool))
        requires
            old(self)@.contains_key(guild) ==> old(self)@[guild].hour <= now,
        ensures
            final(self)@ == old(self)@.insert(guild, touched(old(self)@, guild, now)),
            outcome.0.summarizes(final(self)@[guild].history, final(self)@[guild].live),
            outcome.1 == (old(self)@.contains_key(guild) && old(self)@[guild].hour != now),
    {
        self.add_at(guild, 0, now)
    }

    /// Gives `guild` its counter in the hour that the wall clock is in,
    /// unless it has one: `enroll_at` at that hour. The clock is only read for
    /// a group without a counter.
    ///
    /// When the clock cannot be read, or reads an hour before that of a sound
    /// record, the store is left as it was.
    pub fn enroll(&mut self, guild: u64, record: Option<Record>) -> (changed: Result<
        bool,
        ClockError,
    >)
        ensures
            match changed {
                Ok(moved) => {
                    if old(self)@.contains_key(guild) {
                        final(self)@ == old(self)@ && !moved
                    } else {
                        let now = final(self)@[guild].hour;
                        &&& final(self)@.contains_key(guild)
                        &&& final(self)@ == old(self)@.insert(
                            guild,
                            CounterState::resumed(stored_state(record), now),
                        )
                        &&& stored_state(record) matches Some(stored) ==> stored.hour <= now
                        &&& moved == (stored_state(record) matches Some(stored) && stored.hour
                            != now)
                    }
                },
                Err(_) => final(self)@ == old(self)@ && !old(self)@.contains_key(guild),
            },
    {
        if self.contains(guild) {
            return Ok(false);
        }
        match current_hour() {
            Ok(now) => self.enroll_at(guild, record, now),
            Err(e) => Err(e),
        }
    }

    /// Counts `delta` more events for `guild` in the hour that the wall clock
    /// is in, and gives the group's statistics after that: `add_on` with what
    /// the clock reads.
    ///
    /// When the clock cannot be read, or reads an hour before the open hour
    /// of the group's counter, nothing is counted and the store is left as it
    /// was.
    pub fn add(&mut self, guild: u64, delta: u32) -> (outcome: Result<(Stat, bool), ClockError>)
        requires
            old(self)@.contains_key(guild) ==> old(self)@[guild].live + delta <= u32::MAX,
        ensures
            exists|reading: Result<u64, ClockError>|
                is_reading(reading) && #[trigger] counts_on(
                    old(self)@,
                    guild,
                    delta,
                    reading,
                    final(self)@,
                    outcome,
                ),
    {
        let reading = current_hour();
        self.add_on(guild, delta, reading)
    }

    /// What a reading of the clock means to `guild`: the hour that its counter
    /// moves to, or the fault. An hour before the open one is a `Regression`;
    /// a group without a counter has no open hour to fall behind.
    pub fn arrival(&self, guild: u64, reading: Result<u64, ClockError>) -> (hour:
        Result<u64, ClockError>)
        ensures
            hour == arrival(self@, guild, reading),
    {
        match self.get(guild) {
            Some(counter) => counter.reached(reading),
            None => reading,
        }
    }

    /// The statistics of `guild` in the hour that the wall clock is in, with
    /// nothing counted: `add` with a delta of zero.
    pub fn query(&mut self, guild: u64) -> (outcome: Result<(Stat, bool), ClockError>)
        ensures
            exists|reading: Result<u64, ClockError>|
                is_reading(reading) && #[trigger] counts_on(
                    old(self)@,
                    guild,
                    0,
                    reading,
                    final(self)@,
                    outcome,
                ),
    {
        self.add(guild, 0)
    }

    /// Counts `delta` more events for `guild` at the hour of `reading`, and
    /// gives the group's statistics after that: `add_at` at that hour. Also
    /// says whether the open hour of a counter that was there changed.
    ///
    /// A reading that is a fault, or an hour before the open hour of the
    /// group's counter, leaves the store as it was and comes back as the
    /// error. A group without a counter has no open hour to fall behind.
    pub fn add_on(&mut self, guild: u64, delta: u32, reading: Result<u64, ClockError>) -> (outcome:
        Result<(Stat, bool), ClockError>)
        requires
            old(self)@.contains_key(guild) ==> old(self)@[guild].live + delta <= u32::MAX,
        ensures
            counts_on(old(self)@, guild, delta, reading, final(self)@, outcome),
    {
        match self.arrival(guild, reading) {
            Ok(now) => Ok(self.add_at(guild, delta, now)),
            Err(e) => Err(e),
        }
    }

    /// The groups that have a counter, each once, in no particular order:
    /// the counters that a flush of the whole store has to write.
    pub fn guilds(&self) -> (listed: Vec<u64>)
        ensures
            listed@.no_duplicates(),
            listed@.to_set() == self@.dom(),
            listed@.len() == self@.dom().len(),
    {
        broadcast use group_hash_axioms;

        let ghost all = self.counters.keys().remaining().unref();
        let mut listed: Vec<u64> = Vec::new();
        for guild in walk: self.counters.keys()
            invariant
                walk.seq().unref() == all,
                listed@ == all.take(walk.index()),
        {
            listed.push(*guild);
        }
        proof {
            assert(listed@ =~= all);
            assert(self@.dom() =~= self.counters@.dom());
            assert forall|i: int, j: int| 0 <= i < j < all.len() implies all[i] != all[j] by {
                let keys = self.counters.keys().remaining();
                assert(keys[i] != keys[j]);
            }
        }
        listed
    }

    /// The record of every counter beside its group, each group once, in no
    /// particular order: what a flush of the whole store has to write.
    pub fn records(&self) -> (listed: Vec<(u64, Record)>)
        ensures
            listed@.len() == self@.dom().len(),
            forall|i: int, j: int| 0 <= i < j < listed@.len() ==> listed@[i].0 != listed@[j].0,
            forall|i: int|
                0 <= i < listed@.len() ==> self@.contains_key(#[trigger] listed@[i].0)
                    && listed@[i].1.state() == Some(self@[listed@[i].0]),
            forall|guild: u64|
                self@.contains_key(guild) ==> exists|i: int|
                    0 <= i < listed@.len() && #[trigger] listed@[i].0 == guild,
    {
        let guilds = self.guilds();
        let mut listed: Vec<(u64, Record)> = Vec::new();
        let mut done: usize = 0;
        while done < guilds.len()
            invariant
                done <= guilds@.len(),
                listed@.len() == done,
                guilds@.to_set() == self@.dom(),
                forall|i: int| 0 <= i < done ==> (#[trigger] listed@[i]).0 == guilds@[i],
                forall|i: int|
                    0 <= i < done ==> (#[trigger] listed@[i]).1.state() == Some(self@[guilds@[i]]),
            decreases guilds@.len() - done,
        {
            let guild: u64 = guilds[done];
            assert(guilds@.to_set().contains(guilds@[done as int]));
            if let Some(counter) = self.get(guild) {
                listed.push((guild, counter.record()));
            }
            done = done + 1;
        }
        proof {
            assert forall|guild: u64| self@.contains_key(guild) implies exists|i: int|
                0 <= i < listed@.len() && #[trigger] listed@[i].0 == guild by {
                assert(guilds@.to_set().contains(guild));
                let i = choose|i: int| 0 <= i < guilds@.len() && guilds@[i] == guild;
                assert(listed@[i].0 == guild);
            }
            assert forall|i: int| 0 <= i < listed@.len() implies self@.contains_key(
                #[trigger] listed@[i].0,
            ) && listed@[i].1.state() == Some(self@[listed@[i].0]) by {
                assert(guilds@.to_set().contains(guilds@[i]));
            }
        }
        listed
    }
}

/// What a reading of the clock means to `guild`: the hour that its counter
/// moves to, or the fault. A group without a counter takes the reading as it
/// is.
pub open spec fn arrival(
    counters: Map<u64, CounterState>,
    guild: u64,
    reading: Result<u64, ClockError>,
) -> Result<u64, ClockError> {
    match counters.get(guild) {
        Some(counter) => counter.reached(reading),
        None => reading,
    }
}

/// `after` and `outcome` are what counting `delta` for `guild` on `reading`
/// leaves and gives: the counters after the count at the hour that was
/// reached, with the statistics of the group and whether a counter that was
/// there changed its hour, or the counters as they were and the error.
pub open spec fn counts_on(
    counters: Map<u64, CounterState>,
    guild: u64,
    delta: u32,
    reading: Result<u64, ClockError>,
    after: Map<u64, CounterState>,
    outcome: Result<(Stat, bool), ClockError>,
) -> bool {
    match arrival(counters, guild, reading) {
        Ok(now) => {
            &&& after == counted_for(counters, guild, delta, now)
            &&& outcome matches Ok((stat, moved))
            &&& stat.summarizes(after[guild].history, after[guild].live)
            &&& moved == (counters.contains_key(guild) && counters[guild].hour != now)
        },
        Err(e) => after == counters && outcome == Err::<(Stat, bool), ClockError>(e),
    }
}

} // verus!
