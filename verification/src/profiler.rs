//! Timing of named code intervals in the migration path.
//!
//! A `DroppedObject` times one interval and records it under its name when it ends; a
//! `MergeDroppedObject` times an interval that continues the last one recorded, which
//! must have the same name, and adds its time to it.

use std::time::Instant;
use vstd::prelude::*;

verus! {

/// A point in time.
#[verifier::external_type_specification]
#[verifier::external_body]
pub struct ExInstant(Instant);

/// `Instant::now`: the current time. Nothing is claimed of it.
#[verifier::external_body]
fn instant_now() -> Instant {
    Instant::now()
}

/// `Instant::elapsed`, as nanoseconds (`Duration::as_nanos`): the time since `begin`.
/// Nothing is claimed of it.
#[verifier::external_body]
fn elapsed_nanos(begin: &Instant) -> u128 {
    begin.elapsed().as_nanos()
}

/// Whether `a` and `b` hold the same characters.
pub fn same_name(a: &str, b: &str) -> (r: bool)
    ensures
        r == (a@ == b@),
{
    let n = a.unicode_len();
    if n != b.unicode_len() {
        return false;
    }
    let mut i: usize = 0;
    while i < n
        invariant
            n == a@.len(),
            n == b@.len(),
            i <= n,
            forall|k: int| 0 <= k < i ==> a@[k] == b@[k],
        decreases n - i,
    {
        if a.get_char(i) != b.get_char(i) {
            return false;
        }
        i = i + 1;
    }
    assert(a@ =~= b@);
    true
}

/// The intervals profiled so far, in the order they ended: a name and a time in
/// nanoseconds.
pub struct ProfilerData {
    entries: Vec<(&'static str, u128)>,
}

impl ProfilerData {
    /// The intervals recorded, as (name, nanoseconds).
    pub closed spec fn entries(&self) -> Seq<(Seq<char>, u128)> {
        self.entries@.map_values(|e: (&'static str, u128)| (e.0@, e.1))
    }

    /// No interval recorded.
    pub fn new() -> (d: ProfilerData)
        ensures
            d.entries() == Seq::<(Seq<char>, u128)>::empty(),
    {
        let d = ProfilerData { entries: Vec::new() };
        assert(d.entries() =~= Seq::<(Seq<char>, u128)>::empty());
        d
    }

    /// Records an interval named `name` that took `nanos` nanoseconds.
    pub fn record(&mut self, name: &'static str, nanos: u128)
        ensures
            final(self).entries() == old(self).entries().push((name@, nanos)),
    {
        self.entries.push((name, nanos));
        assert(self.entries() =~= old(self).entries().push((name@, nanos)));
    }

    /// Whether the last interval recorded is named `name`.
    pub fn last_is(&self, name: &str) -> (r: bool)
        ensures
            r == (self.entries().len() > 0 && self.entries().last().0 == name@),
    {
        let n = self.entries.len();
        if n == 0 {
            return false;
        }
        let (last, _) = self.entries[n - 1];
        same_name(last, name)
    }

    /// Adds `nanos` nanoseconds to the last interval recorded; the sum saturates at the
    /// largest `u128`, far beyond what a `Duration` holds.
    pub fn merge_into_last(&mut self, nanos: u128)
        requires
            old(self).entries().len() > 0,
        ensures
            ({
                let e = old(self).entries();
                let last = e.last();
                final(self).entries() == e.update(e.len() - 1, (last.0, last.1.saturating_add(nanos)))
            }),
    {
        let n = self.entries.len();
        let (name, total) = self.entries[n - 1];
        self.entries.set(n - 1, (name, total.saturating_add(nanos)));
        proof {
            let e = old(self).entries();
            assert(self.entries() =~= e.update(e.len() - 1, (e.last().0, e.last().1.saturating_add(nanos))));
        }
    }

    /// The number of intervals recorded.
    pub fn len(&self) -> (n: usize)
        ensures
            n == self.entries().len(),
    {
        self.entries.len()
    }

    /// The interval recorded at `index`.
    pub fn entry(&self, index: usize) -> (e: (&'static str, u128))
        requires
            index < self.entries().len(),
        ensures
            (e.0@, e.1) == self.entries()[index as int],
    {
        self.entries[index]
    }
}

/// An interval being timed, recorded under its name when it ends.
pub struct DroppedObject {
    name: &'static str,
    begin: Instant,
}

impl DroppedObject {
    /// The name the interval is recorded under.
    pub closed spec fn name(&self) -> Seq<char> {
        self.name@
    }

    /// Starts timing an interval named `name`.
    pub fn begin(name: &'static str) -> (d: DroppedObject)
        ensures
            d.name() == name@,
    {
        DroppedObject { name, begin: instant_now() }
    }

    /// Ends the interval and records it in `data`, with the time it took.
    pub fn end(self, data: &mut ProfilerData)
        ensures
            final(data).entries().len() == old(data).entries().len() + 1,
            final(data).entries().drop_last() == old(data).entries(),
            final(data).entries().last().0 == self.name(),
    {
        let nanos = elapsed_nanos(&self.begin);
        data.record(self.name, nanos);
        assert(data.entries().drop_last() =~= old(data).entries());
    }
}

/// An interval being timed that continues the last one recorded.
pub struct MergeDroppedObject {
    begin: Instant,
}

impl MergeDroppedObject {
    /// Starts timing an interval that continues the last one recorded in `data`, which
    /// is named `name`.
    pub fn begin(name: &'static str, data: &ProfilerData) -> (m: MergeDroppedObject)
        requires
            data.entries().len() > 0,
            data.entries().last().0 == name@,
    {
        MergeDroppedObject { begin: instant_now() }
    }

    /// Ends the interval and adds the time it took to the last one recorded in `data`.
    pub fn end(self, data: &mut ProfilerData)
        requires
            old(data).entries().len() > 0,
        ensures
            final(data).entries().len() == old(data).entries().len(),
            final(data).entries().drop_last() == old(data).entries().drop_last(),
            final(data).entries().last().0 == old(data).entries().last().0,
            final(data).entries().last().1 >= old(data).entries().last().1,
    {
        let nanos = elapsed_nanos(&self.begin);
        data.merge_into_last(nanos);
        proof {
            let e = old(data).entries();
            assert(data.entries().drop_last() =~= e.drop_last());
        }
    }
}

} // verus!
