//! The NAT session table: which datagram sources have an open UDP session,
//! when each was last active, and which sessions time out.

use vstd::prelude::*;
use crate::session::{IpAddr, SocksAddr};
use crate::text::{str_chars, string_from_chars};

verus! {

/// The source of a datagram: address, port, and the id of the stream that
/// carries it, if any.
#[derive(Clone, Copy, Debug, PartialEq, Eq, Hash)]
pub struct DatagramSource {
    pub address: IpAddr,
    pub port: u16,
    pub stream_id: Option<u64>,
}

fn ip_eq(a: &IpAddr, b: &IpAddr) -> (r: bool)
    ensures
        r == (*a == *b),
{
    match (a, b) {
        (IpAddr::V4(x), IpAddr::V4(y)) => {
            let mut i: usize = 0;
            while i < 4
                invariant
                    i <= 4,
                    *a == IpAddr::V4(*x),
                    *b == IpAddr::V4(*y),
                    forall|j: int| 0 <= j < i ==> x@[j] == y@[j],
                decreases 4 - i,
            {
                if x[i] != y[i] {
                    assert(x@[i as int] != y@[i as int]);
                    assert(*x != *y);
                    return false;
                }
                i = i + 1;
            }
            assert(*x =~= *y);
            true
        },
        (IpAddr::V6(x), IpAddr::V6(y)) => {
            let mut i: usize = 0;
            while i < 16
                invariant
                    i <= 16,
                    *a == IpAddr::V6(*x),
                    *b == IpAddr::V6(*y),
                    forall|j: int| 0 <= j < i ==> x@[j] == y@[j],
                decreases 16 - i,
            {
                if x[i] != y[i] {
                    assert(x@[i as int] != y@[i as int]);
                    assert(*x != *y);
                    return false;
                }
                i = i + 1;
            }
            assert(*x =~= *y);
            true
        },
        _ => false,
    }
}

fn source_eq(a: &DatagramSource, b: &DatagramSource) -> (r: bool)
    ensures
        r == (*a == *b),
{
    ip_eq(&a.address, &b.address) && a.port == b.port && match (a.stream_id, b.stream_id) {
        (Some(x), Some(y)) => x == y,
        (None, None) => true,
        _ => false,
    }
}

/// What a new UDP session is dispatched with.
#[derive(Debug)]
pub struct UdpSessionInfo {
    pub source_ip: IpAddr,
    pub source_port: u16,
    pub destination: SocksAddr,
    pub inbound_tag: String,
}

/// The session a first datagram from `src` to `destination` opens: the
/// inbound's own session when it gave one (with `inbound_tag` when its tag is
/// empty), otherwise a session from `src` to `destination` tagged
/// `inbound_tag`.
pub fn session_for(
    given: Option<UdpSessionInfo>,
    src: &DatagramSource,
    destination: SocksAddr,
    inbound_tag: &str,
) -> (s: UdpSessionInfo)
    ensures
        match given {
            Some(g) => s.source_ip == g.source_ip && s.source_port == g.source_port && s.destination
                == g.destination && s.inbound_tag@ == (if g.inbound_tag@.len() == 0 {
                inbound_tag@
            } else {
                g.inbound_tag@
            }),
            None => s.source_ip == src.address && s.source_port == src.port && s.destination
                == destination && s.inbound_tag@ == inbound_tag@,
        },
{
    match given {
        Some(g) => {
            if str_chars(g.inbound_tag.as_str()).len() == 0 {
                let tag = string_from_chars(str_chars(inbound_tag).as_slice());
                UdpSessionInfo { inbound_tag: tag, ..g }
            } else {
                g
            }
        },
        None => UdpSessionInfo {
            source_ip: src.address,
            source_port: src.port,
            destination,
            inbound_tag: string_from_chars(str_chars(inbound_tag).as_slice()),
        },
    }
}

/// One open session.
#[derive(Clone, Copy, Debug)]
pub struct NatEntry {
    pub source: DatagramSource,
    /// When the session was last active, in milliseconds of a monotonic clock.
    pub last_active: u64,
}

/// What to do with a datagram from a client.
#[derive(Clone, Copy, Debug, PartialEq, Eq, Structural)]
pub enum UplinkAction {
    /// The session exists: forward the datagram on it.
    Forward,
    /// The session was just recorded: open it (dispatch an outbound), then
    /// forward the datagram.
    Open,
}

/// Whether a session last active at `last` has timed out at `now` (both in
/// milliseconds): the whole seconds elapsed, counted as zero when the clock
/// reads earlier than `last`, reach `timeout_secs`.
pub open spec fn expired(last: u64, now: u64, timeout_secs: u64) -> bool {
    (if now >= last { (now - last) / 1000 } else { 0 }) >= timeout_secs
}

/// The index of the entry for `src`, or -1.
pub open spec fn index_of(s: Seq<NatEntry>, src: DatagramSource) -> int
    decreases s.len(),
{
    if s.len() == 0 {
        -1
    } else if s.last().source == src {
        s.len() - 1
    } else {
        index_of(s.drop_last(), src)
    }
}

/// The entries still fresh at `now`, in order.
pub open spec fn fresh_entries(s: Seq<NatEntry>, now: u64, timeout_secs: u64) -> Seq<NatEntry>
    decreases s.len(),
{
    if s.len() == 0 {
        s
    } else {
        let rest = fresh_entries(s.drop_last(), now, timeout_secs);
        if expired(s.last().last_active, now, timeout_secs) {
            rest
        } else {
            rest.push(s.last())
        }
    }
}

/// The sources of the entries that time out at `now`, in order.
pub open spec fn expired_sources(s: Seq<NatEntry>, now: u64, timeout_secs: u64) -> Seq<DatagramSource>
    decreases s.len(),
{
    if s.len() == 0 {
        Seq::empty()
    } else {
        let rest = expired_sources(s.drop_last(), now, timeout_secs);
        if expired(s.last().last_active, now, timeout_secs) {
            rest.push(s.last().source)
        } else {
            rest
        }
    }
}

/// Law of expiry: the sessions that time out and the sessions that stay
/// split the table: their numbers add up to the table's, every session that
/// timed out has its source returned, and every returned source belongs to a
/// session that timed out.
pub proof fn law_expired_sources(s: Seq<NatEntry>, now: u64, timeout_secs: u64)
    ensures
        expired_sources(s, now, timeout_secs).len() + fresh_entries(s, now, timeout_secs).len() == s.len(),
        forall|i: int|
            0 <= i < s.len() && expired(#[trigger] s[i].last_active, now, timeout_secs)
                ==> expired_sources(s, now, timeout_secs).contains(s[i].source),
        forall|j: int|
            0 <= j < expired_sources(s, now, timeout_secs).len() ==> exists|i: int|
                0 <= i < s.len() && expired(s[i].last_active, now, timeout_secs) && #[trigger] expired_sources(
                    s,
                    now,
                    timeout_secs,
                )[j] == s[i].source,
    decreases s.len(),
{
    if s.len() > 0 {
        let t = s.drop_last();
        law_expired_sources(t, now, timeout_secs);
        let g = expired_sources(s, now, timeout_secs);
        let gt = expired_sources(t, now, timeout_secs);
        assert forall|i: int|
            0 <= i < s.len() && expired(#[trigger] s[i].last_active, now, timeout_secs) implies g.contains(
            s[i].source,
        ) by {
            if i < s.len() - 1 {
                assert(t[i] == s[i]);
                assert(gt.contains(t[i].source));
                let k = choose|k: int| 0 <= k < gt.len() && gt[k] == t[i].source;
                assert(g[k] == gt[k]);
            } else {
                assert(g[g.len() - 1] == s[i].source);
            }
        }
        assert forall|j: int| 0 <= j < g.len() implies exists|i: int|
            0 <= i < s.len() && expired(s[i].last_active, now, timeout_secs) && #[trigger] g[j] == s[i].source by {
            if j < gt.len() {
                assert(g[j] == gt[j]);
                let i = choose|i: int|
                    0 <= i < t.len() && expired(t[i].last_active, now, timeout_secs) && #[trigger] gt[j] == t[i].source;
                assert(t[i] == s[i]);
            } else {
                assert(g[j] == s[s.len() - 1].source);
            }
        }
    }
}

/// No source has two entries.
pub open spec fn distinct_sources(s: Seq<NatEntry>) -> bool {
    forall|i: int, j: int|
        0 <= i < s.len() && 0 <= j < s.len() && i != j ==> #[trigger] s[i].source != #[trigger] s[j].source
}

proof fn lemma_index_of(s: Seq<NatEntry>, src: DatagramSource)
    ensures
        -1 <= index_of(s, src) < s.len(),
        index_of(s, src) >= 0 ==> s[index_of(s, src)].source == src,
        index_of(s, src) == -1 ==> forall|i: int| 0 <= i < s.len() ==> #[trigger] s[i].source != src,
    decreases s.len(),
{
    if s.len() > 0 && s.last().source != src {
        lemma_index_of(s.drop_last(), src);
        assert forall|i: int| 0 <= i < s.len() - 1 implies #[trigger] s[i] == s.drop_last()[i] by {}
    }
}

proof fn lemma_index_of_found(s: Seq<NatEntry>, src: DatagramSource, k: int)
    requires
        distinct_sources(s),
        0 <= k < s.len(),
        s[k].source == src,
    ensures
        index_of(s, src) == k,
    decreases s.len(),
{
    if k < s.len() - 1 {
        assert(s.last().source != src);
        let t = s.drop_last();
        assert(t[k] == s[k]);
        assert(distinct_sources(t)) by {
            assert forall|i: int, j: int|
                0 <= i < t.len() && 0 <= j < t.len() && i != j implies #[trigger] t[i].source
                != #[trigger] t[j].source by {
                assert(t[i] == s[i] && t[j] == s[j]);
            }
        }
        lemma_index_of_found(t, src, k);
    }
}

proof fn lemma_fresh_distinct(s: Seq<NatEntry>, now: u64, timeout_secs: u64)
    requires
        distinct_sources(s),
    ensures
        distinct_sources(fresh_entries(s, now, timeout_secs)),
        forall|i: int| 0 <= i < fresh_entries(s, now, timeout_secs).len() ==> exists|j: int|
            0 <= j < s.len() && #[trigger] fresh_entries(s, now, timeout_secs)[i] == s[j],
    decreases s.len(),
{
    if s.len() > 0 {
        let t = s.drop_last();
        assert(distinct_sources(t)) by {
            assert forall|i: int, j: int|
                0 <= i < t.len() && 0 <= j < t.len() && i != j implies #[trigger] t[i].source
                != #[trigger] t[j].source by {
                assert(t[i] == s[i] && t[j] == s[j]);
            }
        }
        lemma_fresh_distinct(t, now, timeout_secs);
        let rest = fresh_entries(t, now, timeout_secs);
        assert forall|i: int| 0 <= i < rest.len() implies exists|j: int|
            0 <= j < s.len() && #[trigger] rest[i] == s[j] by {
            let j = choose|j: int| 0 <= j < t.len() && #[trigger] rest[i] == t[j];
            assert(s[j] == t[j]);
        }
        if !expired(s.last().last_active, now, timeout_secs) {
            let r = rest.push(s.last());
            assert forall|i: int, j: int|
                0 <= i < r.len() && 0 <= j < r.len() && i != j implies #[trigger] r[i].source
                != #[trigger] r[j].source by {
                if i == r.len() - 1 {
                    let k = choose|k: int| 0 <= k < t.len() && #[trigger] rest[j] == t[k];
                    assert(s[k] == t[k]);
                } else if j == r.len() - 1 {
                    let k = choose|k: int| 0 <= k < t.len() && #[trigger] rest[i] == t[k];
                    assert(s[k] == t[k]);
                }
            }
            assert forall|i: int| 0 <= i < r.len() implies exists|j: int|
                0 <= j < s.len() && #[trigger] r[i] == s[j] by {
                if i == r.len() - 1 {
                    assert(r[i] == s[s.len() - 1]);
                } else {
                    assert(r[i] == rest[i]);
                }
            }
        }
    }
}

/// The NAT session table.
pub struct NatSessions {
    entries: Vec<NatEntry>,
}

impl NatSessions {
    /// The open sessions, in the order they were opened.
    pub closed spec fn sessions(&self) -> Seq<NatEntry> {
        self.entries@
    }

    /// No source has two sessions.
    pub open spec fn wf(&self) -> bool {
        distinct_sources(self.sessions())
    }

    /// An empty table.
    pub fn new() -> (t: Self)
        ensures
            t.sessions() == Seq::<NatEntry>::empty(),
            t.wf(),
    {
        NatSessions { entries: Vec::new() }
    }

    /// The number of open sessions.
    pub fn len(&self) -> (n: usize)
        ensures
            n == self.sessions().len(),
    {
        self.entries.len()
    }

    fn find(&self, src: &DatagramSource) -> (r: Option<usize>)
        requires
            self.wf(),
        ensures
            match r {
                Some(i) => i == index_of(self.sessions(), *src) && i < self.sessions().len(),
                None => index_of(self.sessions(), *src) == -1,
            },
    {
        proof {
            lemma_index_of(self.entries@, *src);
        }
        let mut i: usize = 0;
        while i < self.entries.len()
            invariant
                i <= self.entries@.len(),
                distinct_sources(self.entries@),
                forall|j: int| 0 <= j < i ==> #[trigger] self.entries@[j].source != *src,
            decreases self.entries@.len() - i,
        {
            if source_eq(&self.entries[i].source, src) {
                proof {
                    lemma_index_of_found(self.entries@, *src, i as int);
                }
                return Some(i);
            }
            i = i + 1;
        }
        proof {
            if index_of(self.entries@, *src) >= 0 {
                let k = index_of(self.entries@, *src);
                assert(self.entries@[k].source == *src);
            }
        }
        None
    }

    /// Whether `src` has an open session.
    pub fn contains(&self, src: &DatagramSource) -> (r: bool)
        requires
            self.wf(),
        ensures
            r == (index_of(self.sessions(), *src) >= 0),
    {
        self.find(src).is_some()
    }

    /// A datagram from `src` arrives at `now`: the session's activity is
    /// updated, or a session is recorded and must be opened.
    pub fn on_uplink(&mut self, src: &DatagramSource, now: u64) -> (a: UplinkAction)
        requires
            old(self).wf(),
        ensures
            final(self).wf(),
            index_of(old(self).sessions(), *src) >= 0 ==> a == UplinkAction::Forward
                && final(self).sessions() == old(self).sessions().update(
                index_of(old(self).sessions(), *src),
                NatEntry { source: *src, last_active: now },
            ),
            index_of(old(self).sessions(), *src) < 0 ==> a == UplinkAction::Open
                && final(self).sessions() == old(self).sessions().push(
                NatEntry { source: *src, last_active: now },
            ),
    {
        match self.find(src) {
            Some(i) => {
                proof {
                    lemma_index_of(old(self).entries@, *src);
                }
                self.entries.set(i, NatEntry { source: *src, last_active: now });
                proof {
                    let s = self.entries@;
                    assert forall|p: int, q: int|
                        0 <= p < s.len() && 0 <= q < s.len() && p != q implies #[trigger] s[p].source
                        != #[trigger] s[q].source by {
                        if p != i && q != i {
                            assert(s[p] == old(self).entries@[p] && s[q] == old(self).entries@[q]);
                        } else if p == i {
                            assert(s[q] == old(self).entries@[q]);
                            assert(old(self).entries@[p].source == *src);
                        } else {
                            assert(s[p] == old(self).entries@[p]);
                            assert(old(self).entries@[q].source == *src);
                        }
                    }
                }
                UplinkAction::Forward
            },
            None => {
                proof {
                    lemma_index_of(old(self).entries@, *src);
                }
                self.entries.push(NatEntry { source: *src, last_active: now });
                proof {
                    let s = self.entries@;
                    assert forall|p: int, q: int|
                        0 <= p < s.len() && 0 <= q < s.len() && p != q implies #[trigger] s[p].source
                        != #[trigger] s[q].source by {
                        if p < s.len() - 1 && q < s.len() - 1 {
                            assert(s[p] == old(self).entries@[p] && s[q] == old(self).entries@[q]);
                        } else if p == s.len() - 1 {
                            assert(s[q] == old(self).entries@[q]);
                        } else {
                            assert(s[p] == old(self).entries@[p]);
                        }
                    }
                }
                UplinkAction::Open
            },
        }
    }

    /// A reply for `src` arrives at `now` from port `from_port`: the
    /// session's activity is updated, except for replies from port 53 (DNS),
    /// which leave it as it was.
    pub fn on_downlink(&mut self, src: &DatagramSource, from_port: u16, now: u64)
        requires
            old(self).wf(),
        ensures
            final(self).wf(),
            final(self).sessions() == if from_port != 53 && index_of(old(self).sessions(), *src) >= 0 {
                old(self).sessions().update(
                    index_of(old(self).sessions(), *src),
                    NatEntry { source: *src, last_active: now },
                )
            } else {
                old(self).sessions()
            },
    {
        if from_port == 53 {
            return;
        }
        match self.find(src) {
            Some(i) => {
                proof {
                    lemma_index_of(old(self).entries@, *src);
                }
                self.entries.set(i, NatEntry { source: *src, last_active: now });
                proof {
                    let s = self.entries@;
                    assert forall|p: int, q: int|
                        0 <= p < s.len() && 0 <= q < s.len() && p != q implies #[trigger] s[p].source
                        != #[trigger] s[q].source by {
                        if p != i && q != i {
                            assert(s[p] == old(self).entries@[p] && s[q] == old(self).entries@[q]);
                        } else if p == i {
                            assert(s[q] == old(self).entries@[q]);
                            assert(old(self).entries@[p].source == *src);
                        } else {
                            assert(s[p] == old(self).entries@[p]);
                            assert(old(self).entries@[q].source == *src);
                        }
                    }
                }
            },
            None => {},
        }
    }

    /// Closes the session of `src`, if any (its outbound failed or its
    /// downlink ended).
    pub fn remove(&mut self, src: &DatagramSource)
        requires
            old(self).wf(),
        ensures
            final(self).wf(),
            final(self).sessions() == if index_of(old(self).sessions(), *src) >= 0 {
                old(self).sessions().remove(index_of(old(self).sessions(), *src))
            } else {
                old(self).sessions()
            },
    {
        match self.find(src) {
            Some(i) => {
                self.entries.remove(i);
                proof {
                    let s = self.entries@;
                    let o = old(self).entries@;
                    assert forall|p: int, q: int|
                        0 <= p < s.len() && 0 <= q < s.len() && p != q implies #[trigger] s[p].source
                        != #[trigger] s[q].source by {
                        let pp = if p < i { p } else { p + 1 };
                        let qq = if q < i { q } else { q + 1 };
                        assert(s[p] == o[pp] && s[q] == o[qq]);
                    }
                }
            },
            None => {},
        }
    }

    /// Drops every session that has timed out at `now`; returns
    /// the sources of the dropped sessions, whose outbounds are to be closed.
    pub fn expire(&mut self, now: u64, timeout_secs: u64) -> (gone: Vec<DatagramSource>)
        requires
            old(self).wf(),
        ensures
            final(self).wf(),
            final(self).sessions() == fresh_entries(old(self).sessions(), now, timeout_secs),
            gone@ == expired_sources(old(self).sessions(), now, timeout_secs),
    {
        let mut kept: Vec<NatEntry> = Vec::new();
        let mut gone: Vec<DatagramSource> = Vec::new();
        let mut i: usize = 0;
        let ghost s = self.entries@;
        while i < self.entries.len()
            invariant
                i <= s.len(),
                s == self.entries@,
                kept@ == fresh_entries(s.take(i as int), now, timeout_secs),
                gone@ == expired_sources(s.take(i as int), now, timeout_secs),
            decreases s.len() - i,
        {
            let e = self.entries[i];
            proof {
                assert(s.take(i + 1).drop_last() == s.take(i as int));
                assert(s.take(i + 1).last() == e);
            }
            let elapsed: u64 = if now >= e.last_active { (now - e.last_active) / 1000 } else { 0 };
            let idle = elapsed >= timeout_secs;
            if idle {
                gone.push(e.source);
            } else {
                kept.push(e);
            }
            i = i + 1;
        }
        proof {
            assert(s.take(s.len() as int) == s);
            lemma_fresh_distinct(s, now, timeout_secs);
            law_expired_sources(s, now, timeout_secs);
        }
        self.entries = kept;
        gone
    }

    /// Law of the NAT table: after expiry no remaining session has timed out,
    /// every remaining session was open before, and every session that was
    /// open and has not timed out remains.
    pub proof fn law_expire(s: Seq<NatEntry>, now: u64, timeout_secs: u64)
        ensures
            forall|i: int| 0 <= i < fresh_entries(s, now, timeout_secs).len() ==> !expired(
                #[trigger] fresh_entries(s, now, timeout_secs)[i].last_active,
                now,
                timeout_secs,
            ),
            forall|i: int| 0 <= i < s.len() && !expired(#[trigger] s[i].last_active, now, timeout_secs)
                ==> fresh_entries(s, now, timeout_secs).contains(s[i]),
            forall|i: int| 0 <= i < fresh_entries(s, now, timeout_secs).len() ==> s.contains(
                #[trigger] fresh_entries(s, now, timeout_secs)[i],
            ),
        decreases s.len(),
    {
        if s.len() > 0 {
            let t = s.drop_last();
            Self::law_expire(t, now, timeout_secs);
            let rest = fresh_entries(t, now, timeout_secs);
            let f = fresh_entries(s, now, timeout_secs);
            assert forall|i: int| 0 <= i < s.len() && !expired(#[trigger] s[i].last_active, now, timeout_secs)
                implies f.contains(s[i]) by {
                if i < s.len() - 1 {
                    assert(t[i] == s[i]);
                    assert(rest.contains(t[i]));
                    let k = choose|k: int| 0 <= k < rest.len() && rest[k] == t[i];
                    if !expired(s.last().last_active, now, timeout_secs) {
                        assert(f[k] == rest[k]);
                    }
                } else {
                    assert(f[f.len() - 1] == s[i]);
                }
            }
            assert forall|i: int| 0 <= i < f.len() implies s.contains(#[trigger] f[i]) by {
                if i < rest.len() {
                    assert(f[i] == rest[i]);
                    assert(t.contains(rest[i]));
                    let k = choose|k: int| 0 <= k < t.len() && t[k] == rest[i];
                    assert(s[k] == t[k]);
                } else {
                    assert(f[i] == s[s.len() - 1]);
                }
            }
            assert forall|i: int| 0 <= i < f.len() implies !expired(#[trigger] f[i].last_active, now, timeout_secs) by {
                if i < rest.len() {
                    assert(f[i] == rest[i]);
                }
            }
        }
    }
}

} // verus!
