//! A bounded log of recent routing decisions, kept only while enabled.

use vstd::prelude::*;
use std::collections::VecDeque;

verus! {

/// One routing decision.
#[derive(Debug)]
pub struct RoutingRecord {
    pub network: String,
    pub source: String,
    pub destination: String,
    pub inbound_tag: String,
    pub outbound_tag: String,
    pub timestamp: u64,
}

impl Clone for RoutingRecord {
    fn clone(&self) -> (r: Self)
        ensures
            r == *self,
    {
        RoutingRecord {
            network: self.network.clone(),
            source: self.source.clone(),
            destination: self.destination.clone(),
            inbound_tag: self.inbound_tag.clone(),
            outbound_tag: self.outbound_tag.clone(),
            timestamp: self.timestamp,
        }
    }
}

/// The number of records kept: the configured maximum, and at least one.
pub open spec fn capacity(max_records: usize) -> nat {
    if max_records == 0 {
        1
    } else {
        max_records as nat
    }
}

/// The last `cap` entries of `s` (all of them when there are fewer).
pub open spec fn keep_last<T>(s: Seq<T>, cap: nat) -> Seq<T> {
    if s.len() > cap {
        s.skip(s.len() - cap)
    } else {
        s
    }
}

/// The routing history.
pub struct RoutingHistory {
    max_records: usize,
    enabled: bool,
    records: VecDeque<RoutingRecord>,
}

impl RoutingHistory {
    pub closed spec fn spec_enabled(&self) -> bool {
        self.enabled
    }

    pub closed spec fn max_records(&self) -> usize {
        self.max_records
    }

    /// The kept records, oldest first.
    pub closed spec fn records(&self) -> Seq<RoutingRecord> {
        self.records@
    }

    /// A disabled history keeps no records.
    pub open spec fn wf(&self) -> bool {
        self.spec_enabled() || self.records().len() == 0
    }

    /// A disabled, empty history.
    pub fn new() -> (h: Self)
        ensures
            !h.spec_enabled(),
            h.max_records() == 0,
            h.records() == Seq::<RoutingRecord>::empty(),
            h.wf(),
    {
        RoutingHistory { max_records: 0, enabled: false, records: VecDeque::new() }
    }

    /// Switches recording on or off and sets the maximum; switching off
    /// discards every record.
    pub fn set_enabled(&mut self, enabled: bool, max_records: usize)
        ensures
            final(self).spec_enabled() == enabled,
            final(self).max_records() == max_records,
            final(self).records() == if enabled {
                old(self).records()
            } else {
                Seq::<RoutingRecord>::empty()
            },
            old(self).wf() ==> final(self).wf(),
    {
        self.enabled = enabled;
        self.max_records = max_records;
        if !enabled {
            self.records.clear();
        }
    }

    /// Whether recording is on.
    pub fn is_enabled(&self) -> (r: bool)
        ensures
            r == self.spec_enabled(),
    {
        self.enabled
    }

    /// Records `record` when enabled, then drops the oldest records beyond
    /// the capacity.
    pub fn add(&mut self, record: RoutingRecord)
        ensures
            final(self).spec_enabled() == old(self).spec_enabled(),
            final(self).max_records() == old(self).max_records(),
            final(self).records() == if old(self).spec_enabled() {
                keep_last(old(self).records().push(record), capacity(old(self).max_records()))
            } else {
                old(self).records()
            },
            old(self).wf() ==> final(self).wf(),
    {
        if !self.is_enabled() {
            return;
        }
        self.records.push_back(record);
        let max = self.max_records;
        let max = if max == 0 {
            1
        } else {
            max
        };
        let ghost s = self.records@;
        while self.records.len() > max
            invariant
                max == capacity(old(self).max_records()),
                s == old(self).records().push(record),
                s.len() >= self.records@.len(),
                self.records@ == s.skip(s.len() - self.records@.len()),
                self.records@.len() >= max || self.records@ == s,
                self.enabled == old(self).enabled,
                self.max_records == old(self).max_records,
            decreases self.records@.len(),
        {
            let ghost before = self.records@;
            self.records.pop_front();
            assert(self.records@ == s.skip(s.len() - self.records@.len()));
        }
        proof {
            if s.len() <= max {
                assert(self.records@ == s);
            } else {
                assert(self.records@.len() == max);
            }
            assert(s.skip(0) == s);
        }
    }

    /// A copy of the kept records, oldest first.
    pub fn get_records(&self) -> (r: Vec<RoutingRecord>)
        ensures
            r@ == self.records(),
    {
        let mut r: Vec<RoutingRecord> = Vec::new();
        let mut i: usize = 0;
        while i < self.records.len()
            invariant
                i <= self.records@.len(),
                r@ == self.records@.take(i as int),
            decreases self.records@.len() - i,
        {
            r.push(self.records[i].clone());
            i = i + 1;
            assert(r@ == self.records@.take(i as int));
        }
        assert(self.records@.take(self.records@.len() as int) == self.records@);
        r
    }

    /// Law of the routing history: after a record is added to an enabled
    /// history, it is the newest record, at most `max(1, max_records)` records
    /// are kept, and they are the newest ones in their original order.
    pub proof fn law_add_keeps_newest(&self, record: RoutingRecord, after: Seq<RoutingRecord>)
        requires
            self.spec_enabled(),
            after == keep_last(self.records().push(record), capacity(self.max_records())),
        ensures
            after.len() > 0,
            after.last() == record,
            after.len() <= capacity(self.max_records()),
            after.len() == if self.records().len() + 1 > capacity(self.max_records()) {
                capacity(self.max_records())
            } else {
                self.records().len() + 1
            },
            forall|i: int|
                0 <= i < after.len() ==> #[trigger] after[i] == self.records().push(record)[
                    self.records().len() + 1 - after.len() + i
                ],
    {
    }
}

} // verus!
