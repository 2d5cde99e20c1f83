//! Fake DNS: answers `A`/`AAAA`/`HTTPS` queries for accepted domains with
//! addresses from the private range 198.18.0.0/16, and remembers which domain
//! each handed-out address stands for.

use vstd::prelude::*;
use std::collections::HashMap;
use vstd::hash_map::StringHashMap;
use crate::dns::{
    decode_request, dns_decode, dns_encode, encode_response, DnsARecord, DnsARecordModel,
    DnsQuery, DnsQueryModel, DnsRequest, DnsRequestModel, DnsResponse, DnsResponseModel,
    DNS_CLASS_IN, OP_CODE_QUERY, RECORD_TYPE_A, RECORD_TYPE_AAAA, RECORD_TYPE_HTTPS,
    RESPONSE_CODE_NO_ERROR, labels_view, queries_view,
};
use crate::session::IpAddr;
use crate::text::{contains_chars, contains_seq, str_chars, string_from_chars, sub_chars};

verus! {

broadcast use vstd::std_specs::hash::group_hash_axioms;

/// Whether the filters list the domains that get fake answers, or the ones
/// that do not.
#[derive(Clone, Copy, Debug, PartialEq, Eq, Structural)]
pub enum FakeDnsMode {
    Include,
    Exclude,
}

/// Why no fake answer was produced.
#[derive(Clone, Copy, Debug, PartialEq, Eq, Structural)]
pub enum FakeDnsError {
    /// The request is not a DNS message.
    Decode,
    /// The request holds no question.
    NoQueries,
    /// The question's class is not `IN`.
    UnsupportedClass,
    /// The question's type is not `A`, `AAAA` or `HTTPS`.
    UnsupportedType,
    /// The filters do not accept the domain.
    NotAccepted,
    /// The answer could not be encoded.
    Encode,
    /// No usable next address was found.
    CursorExhausted,
}

/// First address of the fake range, 198.18.0.0.
pub const MIN_CURSOR: u32 = 0xc612_0000;

/// Last address of the fake range, 198.18.255.255.
pub const MAX_CURSOR: u32 = 0xc612_ffff;

/// The big-endian value of four octets.
pub open spec fn be_value(o: Seq<u8>) -> int {
    o[0] * 16777216 + o[1] * 65536 + o[2] * 256 + o[3]
}

/// The octets of an IPv4 address given as a number (`Ipv4Addr::from(u32)`).
pub fn u32_to_ip(ip: u32) -> (o: [u8; 4])
    ensures
        be_value(o@) == ip,
{
    let a = (ip >> 24) as u8;
    let b = ((ip >> 16) & 0xff) as u8;
    let c = ((ip >> 8) & 0xff) as u8;
    let d = (ip & 0xff) as u8;
    assert(a * 16777216 + b * 65536 + c * 256 + d == ip) by (bit_vector)
        requires
            a == (ip >> 24) as u8,
            b == ((ip >> 16) & 0xff) as u8,
            c == ((ip >> 8) & 0xff) as u8,
            d == (ip & 0xff) as u8,
    ;
    let o = [a, b, c, d];
    assert(o@ == seq![a, b, c, d]);
    o
}

/// The number for the octets of an IPv4 address (`u32::from_be_bytes`).
pub fn ip_to_u32(o: &[u8; 4]) -> (ip: u32)
    ensures
        ip == be_value(o@),
{
    let a = o[0];
    let b = o[1];
    let c = o[2];
    let d = o[3];
    let r = ((a as u32) << 24) | ((b as u32) << 16) | ((c as u32) << 8) | (d as u32);
    assert(r == a * 16777216 + b * 65536 + c * 256 + d) by (bit_vector)
        requires
            r == ((a as u32) << 24) | ((b as u32) << 16) | ((c as u32) << 8) | (d as u32),
    ;
    r
}

/// The last octet of the address numbered `ip`.
pub open spec fn last_octet(ip: u32) -> int {
    (ip % 256) as int
}

/// An address that is neither a network (`.0`) nor a broadcast (`.255`) address.
pub open spec fn usable(ip: u32) -> bool {
    last_octet(ip) != 0 && last_octet(ip) != 255
}

/// One step of the cursor, wrapping from the last address to the first.
pub open spec fn step(c: u32) -> u32 {
    if c + 1 > MAX_CURSOR {
        MIN_CURSOR
    } else {
        (c + 1) as u32
    }
}

/// The cursor after `prepare_next_cursor`: the first usable address among
/// the next three steps.
pub open spec fn next_cursor(c: u32) -> u32 {
    let a = step(c);
    let b = step(a);
    if usable(a) {
        a
    } else if usable(b) {
        b
    } else {
        step(b)
    }
}

/// The domain the filters accept; `*` matches every domain.
pub open spec fn accepts(mode: FakeDnsMode, filters: Seq<Seq<char>>, domain: Seq<char>) -> bool {
    let hit = exists|i: int|
        0 <= i < filters.len() && (contains_seq(domain, #[trigger] filters[i]) || filters[i]
            == seq!['*']);
    match mode {
        FakeDnsMode::Include => hit,
        FakeDnsMode::Exclude => !hit,
    }
}

/// Law of the filters: a filter anywhere in the list that occurs in the
/// domain, or is `*`, decides: Include mode accepts the domain and Exclude
/// mode refuses it; when no filter does, Include refuses and Exclude accepts.
pub proof fn law_accept_by_any_filter(mode: FakeDnsMode, filters: Seq<Seq<char>>, domain: Seq<char>)
    ensures
        forall|i: int|
            #![trigger filters[i]]
            0 <= i < filters.len() && (contains_seq(domain, filters[i]) || filters[i] == seq!['*'])
                ==> accepts(mode, filters, domain) == (mode == FakeDnsMode::Include),
        (forall|i: int|
            #![trigger filters[i]]
            0 <= i < filters.len() ==> !contains_seq(domain, filters[i]) && filters[i] != seq!['*'])
            ==> accepts(mode, filters, domain) == (mode == FakeDnsMode::Exclude),
{
}

/// Law of the filters: in Include mode adding a filter never turns an
/// accepted domain away; in Exclude mode it never lets a refused one in.
pub proof fn law_filters_monotone(mode: FakeDnsMode, filters: Seq<Seq<char>>, f: Seq<char>, domain: Seq<char>)
    ensures
        mode == FakeDnsMode::Include && accepts(mode, filters, domain) ==> accepts(mode, filters.push(f), domain),
        mode == FakeDnsMode::Exclude && !accepts(mode, filters, domain) ==> !accepts(mode, filters.push(f), domain),
{
    law_accept_by_any_filter(mode, filters, domain);
    law_accept_by_any_filter(mode, filters.push(f), domain);
    if mode == FakeDnsMode::Include && accepts(mode, filters, domain) || mode == FakeDnsMode::Exclude
        && !accepts(mode, filters, domain) {
        let i = choose|i: int|
            0 <= i < filters.len() && (contains_seq(domain, #[trigger] filters[i]) || filters[i] == seq!['*']);
        assert(filters.push(f)[i] == filters[i]);
    }
}

/// The domain of a question: the ASCII name without the final '.' of a fully
/// qualified name.
pub open spec fn query_domain_of(q: DnsQueryModel) -> Seq<char> {
    if q.is_fqdn && q.ascii.len() > 0 {
        q.ascii.drop_last()
    } else {
        q.ascii
    }
}

/// The response to `req` when its first question is answered with `ip`.
pub open spec fn fake_response(req: DnsRequestModel, ip: u32, ttl: u32) -> DnsResponseModel {
    let q = req.queries[0];
    let is_query = req.op_code == OP_CODE_QUERY;
    DnsResponseModel {
        id: req.id,
        op_code: req.op_code,
        recursion_desired: is_query && req.recursion_desired,
        checking_disabled: is_query && req.checking_disabled,
        response_code: RESPONSE_CODE_NO_ERROR,
        queries: seq![q],
        answers: if q.query_type == RECORD_TYPE_A {
            seq![
                DnsARecordModel {
                    labels: q.labels,
                    ttl: ttl,
                    address: ip_octets(ip),
                },
            ]
        } else {
            Seq::empty()
        },
    }
}

/// The four octets of `ip`, as a sequence.
pub open spec fn ip_octets(ip: u32) -> Seq<u8> {
    seq![(ip / 16777216) as u8, ((ip / 65536) % 256) as u8, ((ip / 256) % 256) as u8, (ip % 256) as u8]
}

/// The two maps are inverse to each other.
pub open spec fn paired(im: Map<u32, Seq<char>>, dm: Map<Seq<char>, u32>) -> bool {
    &&& forall|ip: u32| #[trigger] im.contains_key(ip) ==> dm.contains_key(im[ip]) && dm[im[ip]] == ip
    &&& forall|d: Seq<char>| #[trigger] dm.contains_key(d) ==> im.contains_key(dm[d]) && im[dm[d]] == d
}

proof fn lemma_pairing_after_allocate(im: Map<u32, Seq<char>>, dm: Map<Seq<char>, u32>, c: u32, d: Seq<char>)
    requires
        paired(im, dm),
        !dm.contains_key(d),
    ensures
        paired(
            im.insert(c, d),
            (if im.contains_key(c) {
                dm.remove(im[c])
            } else {
                dm
            }).insert(d, c),
        ),
{
    let nim = im.insert(c, d);
    let mid = if im.contains_key(c) {
        dm.remove(im[c])
    } else {
        dm
    };
    let ndm = mid.insert(d, c);
    assert forall|ip: u32| #[trigger] nim.contains_key(ip) implies ndm.contains_key(nim[ip]) && ndm[nim[ip]] == ip by {
        if ip != c {
            assert(im.contains_key(ip));
            let e = im[ip];
            assert(dm[e] == ip);
            assert(e != d);
            if im.contains_key(c) {
                assert(e != im[c]);
            }
        }
    }
    assert forall|e: Seq<char>| #[trigger] ndm.contains_key(e) implies nim.contains_key(ndm[e]) && nim[ndm[e]] == e by {
        if e != d {
            assert(dm.contains_key(e));
            let ip = dm[e];
            assert(im[ip] == e);
            if ip == c {
                assert(im.contains_key(c) && im[c] == e);
                assert(!mid.contains_key(e));
            }
        }
    }
}

/// The effect of pairing the cursor's address with `d`.
pub open spec fn allocated(before: FakeDns, after: FakeDns, d: Seq<char>) -> bool {
    let c = before.cursor();
    &&& after.ip_map() == before.ip_map().insert(c, d)
    &&& after.domain_map() == (if before.ip_map().contains_key(c) {
        before.domain_map().remove(before.ip_map()[c])
    } else {
        before.domain_map()
    }).insert(d, c)
    &&& after.cursor() == next_cursor(c)
}

/// The pairing and the cursor are as they were.
pub open spec fn unchanged(before: FakeDns, after: FakeDns) -> bool {
    &&& after.ip_map() == before.ip_map()
    &&& after.domain_map() == before.domain_map()
    &&& after.cursor() == before.cursor()
}

/// The effect of answering `req` on the state: the first question's domain
/// is paired with the cursor's address when the answer succeeds and the
/// domain had no address yet; otherwise nothing changes. Filters, mode and
/// TTL never change.
pub open spec fn plan_effect(before: FakeDns, after: FakeDns, req: DnsRequestModel) -> bool {
    let d = query_domain_of(req.queries[0]);
    &&& after.filters() == before.filters()
    &&& after.mode() == before.mode()
    &&& after.ttl() == before.ttl()
    &&& if plan_outcome(before, req) is Ok && !before.domain_map().contains_key(d) {
        allocated(before, after, d)
    } else {
        unchanged(before, after)
    }
}

/// The decision on a decoded request, in the state `s`: the error, or the
/// response carrying the domain's address (its paired one, or the cursor's).
pub open spec fn plan_outcome(s: FakeDns, req: DnsRequestModel) -> Result<DnsResponseModel, FakeDnsError> {
    if req.queries.len() == 0 {
        Err(FakeDnsError::NoQueries)
    } else {
        let q = req.queries[0];
        let d = query_domain_of(q);
        if q.query_class != DNS_CLASS_IN {
            Err(FakeDnsError::UnsupportedClass)
        } else if q.query_type != RECORD_TYPE_A && q.query_type != RECORD_TYPE_AAAA
            && q.query_type != RECORD_TYPE_HTTPS {
            Err(FakeDnsError::UnsupportedType)
        } else if !accepts(s.mode(), s.filters(), d) {
            Err(FakeDnsError::NotAccepted)
        } else {
            let ip = if s.domain_map().contains_key(d) {
                s.domain_map()[d]
            } else {
                s.cursor()
            };
            Ok(fake_response(req, ip, s.ttl()))
        }
    }
}

proof fn lemma_last_octet(o: Seq<u8>, v: u32)
    requires
        o.len() == 4,
        be_value(o) == v,
    ensures
        o[3] == last_octet(v),
{
    let a = o[0];
    let b = o[1];
    let c = o[2];
    let d = o[3];
    assert((a * 16777216 + b * 65536 + c * 256 + d) % 256 == d) by (nonlinear_arith)
        requires
            0 <= a < 256,
            0 <= b < 256,
            0 <= c < 256,
            0 <= d < 256,
    {
        assert(a * 16777216 + b * 65536 + c * 256 + d == (a * 65536 + b * 256 + c) * 256 + d);
    }
}

proof fn lemma_ip_octets(o: Seq<u8>, v: u32)
    requires
        o.len() == 4,
        be_value(o) == v,
    ensures
        o == ip_octets(v),
{
    let a = o[0];
    let b = o[1];
    let c = o[2];
    let d = o[3];
    assert(v / 16777216 == a && (v / 65536) % 256 == b && (v / 256) % 256 == c && v % 256 == d)
        by (bit_vector)
        requires
            v == a * 16777216 + b * 65536 + c * 256 + d,
    ;
    assert(o =~= ip_octets(v));
}

proof fn lemma_three_steps_usable(c: u32)
    requires
        MIN_CURSOR <= c <= MAX_CURSOR,
    ensures
        usable(step(c)) || usable(step(step(c))) || usable(step(step(step(c)))),
{
    let a = step(c);
    let b = step(a);
    assert(MIN_CURSOR % 256 == 0);
    assert(MAX_CURSOR % 256 == 255);
    if !usable(a) && !usable(b) {
        if a % 256 == 255 {
            assert(b % 256 == 0);
        } else {
            assert(a % 256 == 0);
            assert(b == a + 1);
        }
        assert(step(b) == b + 1);
    }
}

/// Law of addresses: the octets of a number and the number of four octets
/// are inverse to each other (what `u32_to_ip` and `ip_to_u32` compute).
pub proof fn law_address_roundtrip(v: u32, o: Seq<u8>)
    requires
        o.len() == 4,
    ensures
        be_value(ip_octets(v)) == v,
        0 <= be_value(o) <= u32::MAX,
        ip_octets(be_value(o) as u32) == o,
{
    let q = v as int;
    assert(q / 16777216 < 256);
    assert(q == (q / 16777216) * 16777216 + ((q / 65536) % 256) * 65536 + ((q / 256) % 256) * 256 + q % 256);
    let (w, x, y, z) = (o[0], o[1], o[2], o[3]);
    assert(w * 16777216 + x * 65536 + y * 256 + z <= 0xffff_ffff) by (nonlinear_arith)
        requires
            w < 256,
            x < 256,
            y < 256,
            z < 256,
    ;
    lemma_ip_octets(o, be_value(o) as u32);
}

/// Law of the cursor: from any address of the fake range, the next cursor
/// lies in the range and is neither a `.0` nor a `.255` address.
pub proof fn law_next_cursor(c: u32)
    requires
        MIN_CURSOR <= c <= MAX_CURSOR,
    ensures
        MIN_CURSOR <= next_cursor(c) <= MAX_CURSOR,
        usable(next_cursor(c)),
{
    lemma_three_steps_usable(c);
}

/// Law of fake DNS answers: a question of class IN (1) and type A (1), AAAA
/// (28) or HTTPS (65) whose domain the filters accept is answered with a
/// NOERROR response that echoes the request's id and question and carries
/// one record for A, none otherwise; afterwards the domain is paired with an
/// address. An accepted class and type with a refused domain is refused as
/// not accepted, and any other type of class IN as unsupported.
pub proof fn law_supported_questions(before: FakeDns, after: FakeDns, req: DnsRequestModel)
    requires
        before.wf(),
        plan_effect(before, after, req),
        req.queries.len() > 0,
        req.queries[0].query_class == 1,
    ensures
        (req.queries[0].query_type == 1 || req.queries[0].query_type == 28 || req.queries[0].query_type == 65)
            && accepts(before.mode(), before.filters(), query_domain_of(req.queries[0])) ==> {
            &&& plan_outcome(before, req) is Ok
            &&& plan_outcome(before, req)->Ok_0.id == req.id
            &&& plan_outcome(before, req)->Ok_0.response_code == 0
            &&& plan_outcome(before, req)->Ok_0.queries == seq![req.queries[0]]
            &&& plan_outcome(before, req)->Ok_0.answers.len() == (if req.queries[0].query_type == 1 {
                1int
            } else {
                0int
            })
            &&& after.domain_map().contains_key(query_domain_of(req.queries[0]))
        },
        (req.queries[0].query_type == 1 || req.queries[0].query_type == 28 || req.queries[0].query_type == 65)
            && !accepts(before.mode(), before.filters(), query_domain_of(req.queries[0]))
            ==> plan_outcome(before, req) == Err::<DnsResponseModel, FakeDnsError>(FakeDnsError::NotAccepted),
        !(req.queries[0].query_type == 1 || req.queries[0].query_type == 28 || req.queries[0].query_type
            == 65) ==> plan_outcome(before, req) == Err::<DnsResponseModel, FakeDnsError>(
            FakeDnsError::UnsupportedType,
        ),
{
    if plan_outcome(before, req) is Ok {
        FakeDns::law_answer_is_paired(before, after, req);
    }
}

/// The fake DNS state: the two directions of the domain/address pairing, the
/// next address to hand out, and the filters.
pub struct FakeDns {
    ip_to_domain: HashMap<u32, String>,
    domain_to_ip: StringHashMap<u32>,
    cursor: u32,
    min_cursor: u32,
    max_cursor: u32,
    ttl: u32,
    filters: Vec<String>,
    mode: FakeDnsMode,
}

impl FakeDns {
    /// Address number to domain.
    pub closed spec fn ip_map(&self) -> Map<u32, Seq<char>> {
        Map::new(|k: u32| self.ip_to_domain@.contains_key(k), |k: u32| self.ip_to_domain@[k]@)
    }

    /// Domain to address number.
    pub closed spec fn domain_map(&self) -> Map<Seq<char>, u32> {
        self.domain_to_ip@
    }

    pub closed spec fn cursor(&self) -> u32 {
        self.cursor
    }

    pub closed spec fn ttl(&self) -> u32 {
        self.ttl
    }

    pub closed spec fn mode(&self) -> FakeDnsMode {
        self.mode
    }

    pub closed spec fn filters(&self) -> Seq<Seq<char>> {
        Seq::new(self.filters@.len(), |i: int| self.filters@[i]@)
    }

    /// The state invariant: the two maps are inverse to each other, every
    /// handed-out address and the cursor lie in the fake range.
    pub closed spec fn wf(&self) -> bool {
        &&& self.min_cursor == MIN_CURSOR
        &&& self.max_cursor == MAX_CURSOR
        &&& MIN_CURSOR <= self.cursor <= MAX_CURSOR
        &&& self.ttl == 1
        &&& paired(self.ip_map(), self.domain_map())
        &&& forall|ip: u32| #[trigger] self.ip_map().contains_key(ip) ==> MIN_CURSOR <= ip <= MAX_CURSOR
    }

    /// Law of fake DNS (what an answer gives, the reverse lookup gives back):
    /// after a request is answered, its domain is paired with the address
    /// the answer carries (the one it had, or the cursor's), and that address
    /// is paired with the domain.
    pub proof fn law_answer_is_paired(before: FakeDns, after: FakeDns, req: DnsRequestModel)
        requires
            before.wf(),
            plan_effect(before, after, req),
            plan_outcome(before, req) is Ok,
        ensures
            after.domain_map().contains_key(query_domain_of(req.queries[0])),
            after.domain_map()[query_domain_of(req.queries[0])] == (if before.domain_map().contains_key(
                query_domain_of(req.queries[0]),
            ) {
                before.domain_map()[query_domain_of(req.queries[0])]
            } else {
                before.cursor()
            }),
            after.ip_map().contains_key(after.domain_map()[query_domain_of(req.queries[0])]),
            after.ip_map()[after.domain_map()[query_domain_of(req.queries[0])]] == query_domain_of(
                req.queries[0],
            ),
            req.queries[0].query_type == RECORD_TYPE_A ==> plan_outcome(before, req)->Ok_0.answers
                =~= seq![
                DnsARecordModel {
                    labels: req.queries[0].labels,
                    ttl: before.ttl(),
                    address: ip_octets(after.domain_map()[query_domain_of(req.queries[0])]),
                },
            ],
    {
        let d = query_domain_of(req.queries[0]);
        if before.domain_map().contains_key(d) {
            assert(before.ip_map().contains_key(before.domain_map()[d]));
        }
    }

    /// Law of fake DNS: in every reachable state each handed-out address stands
    /// for exactly one domain and each domain for exactly one address, and all
    /// of them lie in the fake range (so `is_fake_ip` holds of them).
    pub proof fn law_pairing(&self)
        requires
            self.wf(),
        ensures
            paired(self.ip_map(), self.domain_map()),
            forall|ip: u32| #[trigger] self.ip_map().contains_key(ip) ==> MIN_CURSOR <= ip <= MAX_CURSOR,
            forall|d: Seq<char>| #[trigger] self.domain_map().contains_key(d) ==> MIN_CURSOR <= self.domain_map()[d] <= MAX_CURSOR,
            MIN_CURSOR <= self.cursor() <= MAX_CURSOR,
            self.ttl() == 1,
    {
        assert forall|d: Seq<char>| #[trigger] self.domain_map().contains_key(d) implies MIN_CURSOR <= self.domain_map()[d] <= MAX_CURSOR by {
            assert(self.ip_map().contains_key(self.domain_map()[d]));
        }
    }

    /// A new fake DNS with no pairing yet and no filters.
    pub fn new(mode: FakeDnsMode) -> (f: Self)
        ensures
            f.wf(),
            f.ip_map() == Map::<u32, Seq<char>>::empty(),
            f.domain_map() == Map::<Seq<char>, u32>::empty(),
            f.cursor() == MIN_CURSOR,
            f.filters() == Seq::<Seq<char>>::empty(),
            f.mode() == mode,
            f.ttl() == 1,
    {
        let min_cursor = ip_to_u32(&[198, 18, 0, 0]);
        let max_cursor = ip_to_u32(&[198, 18, 255, 255]);
        let f = FakeDns {
            ip_to_domain: HashMap::new(),
            domain_to_ip: StringHashMap::new(),
            cursor: min_cursor,
            min_cursor,
            max_cursor,
            ttl: 1,
            filters: Vec::new(),
            mode,
        };
        assert(f.ip_map() =~= Map::<u32, Seq<char>>::empty());
        assert(f.filters() =~= Seq::<Seq<char>>::empty());
        f
    }

    /// Appends a filter.
    pub fn add_filter(&mut self, filter: String)
        requires
            old(self).wf(),
        ensures
            final(self).wf(),
            final(self).filters() == old(self).filters().push(filter@),
            final(self).ip_map() == old(self).ip_map(),
            final(self).domain_map() == old(self).domain_map(),
            final(self).cursor() == old(self).cursor(),
            final(self).mode() == old(self).mode(),
            final(self).ttl() == old(self).ttl(),
    {
        self.filters.push(filter);
        assert(self.filters() =~= old(self).filters().push(filter@));
    }

    /// The domain paired with `ip`, if any (never for an IPv6 address).
    pub fn query_domain(&self, ip: &IpAddr) -> (r: Option<String>)
        ensures
            r matches Some(d) ==> (ip matches IpAddr::V4(o) && self.ip_map().contains_key(
                be_value(o@) as u32,
            ) && d@ == self.ip_map()[be_value(o@) as u32]),
            r is None ==> !(ip matches IpAddr::V4(o) && self.ip_map().contains_key(
                be_value(o@) as u32,
            )),
    {
        match ip {
            IpAddr::V4(o) => {
                let k = ip_to_u32(o);
                match self.ip_to_domain.get(&k) {
                    Some(d) => Some(d.clone()),
                    None => None,
                }
            },
            IpAddr::V6(_) => None,
        }
    }

    /// The fake address paired with `domain`, if any.
    pub fn query_fake_ip(&self, domain: &str) -> (r: Option<IpAddr>)
        ensures
            r matches Some(a) ==> (self.domain_map().contains_key(domain@) && (a matches IpAddr::V4(
                o,
            ) && be_value(o@) == self.domain_map()[domain@])),
            r is None ==> !self.domain_map().contains_key(domain@),
    {
        match self.domain_to_ip.get(domain) {
            Some(v) => Some(IpAddr::V4(u32_to_ip(*v))),
            None => None,
        }
    }

    /// Whether `ip` lies in the fake range.
    pub fn is_fake_ip(&self, ip: &IpAddr) -> (r: bool)
        requires
            self.wf(),
        ensures
            r == (ip matches IpAddr::V4(o) && MIN_CURSOR <= be_value(o@) <= MAX_CURSOR),
    {
        match ip {
            IpAddr::V4(o) => {
                let v = ip_to_u32(o);
                v >= self.min_cursor && v <= self.max_cursor
            },
            IpAddr::V6(_) => false,
        }
    }

    /// Whether the filters accept `domain` (see [`accepts`]).
    pub fn accept(&self, domain: &str) -> (r: bool)
        ensures
            r == accepts(self.mode(), self.filters(), domain@),
    {
        let d = str_chars(domain);
        let mut i: usize = 0;
        while i < self.filters.len()
            invariant
                i <= self.filters@.len(),
                d@ == domain@,
                forall|j: int|
                    0 <= j < i ==> !(contains_seq(domain@, #[trigger] self.filters()[j])
                        || self.filters()[j] == seq!['*']),
            decreases self.filters@.len() - i,
        {
            let f = str_chars(self.filters[i].as_str());
            let star = f.len() == 1 && f[0] == '*';
            if star || contains_chars(&d, &f) {
                proof {
                    assert(self.filters()[i as int] == f@);
                    if star {
                        assert(f@ == seq!['*']);
                    }
                }
                return match self.mode {
                    FakeDnsMode::Exclude => false,
                    FakeDnsMode::Include => true,
                };
            }
            proof {
                assert(self.filters()[i as int] == f@);
                assert(f@ != seq!['*']) by {
                    if f@ == seq!['*'] {
                        assert(f@.len() == 1 && f@[0] == '*');
                    }
                }
            }
            i = i + 1;
        }
        match self.mode {
            FakeDnsMode::Exclude => true,
            FakeDnsMode::Include => false,
        }
    }

    /// Advances the cursor to the next usable address (skipping `.0` and
    /// `.255`, wrapping at the end of the range).
    pub fn prepare_next_cursor(&mut self) -> (r: Result<(), FakeDnsError>)
        requires
            old(self).wf(),
        ensures
            r is Ok,
            final(self).wf(),
            final(self).cursor() == next_cursor(old(self).cursor()),
            final(self).ip_map() == old(self).ip_map(),
            final(self).domain_map() == old(self).domain_map(),
            final(self).filters() == old(self).filters(),
            final(self).mode() == old(self).mode(),
            final(self).ttl() == old(self).ttl(),
    {
        let ghost c0 = self.cursor;
        let mut n: u32 = 0;
        while n < 3
            invariant
                n <= 3,
                c0 == old(self).cursor,
                old(self).wf(),
                MIN_CURSOR <= self.cursor <= MAX_CURSOR,
                self.min_cursor == MIN_CURSOR,
                self.max_cursor == MAX_CURSOR,
                n == 1 ==> self.cursor == step(c0) && !usable(step(c0)),
                n == 2 ==> self.cursor == step(step(c0)) && !usable(step(c0)) && !usable(
                    step(step(c0)),
                ),
                n == 0 ==> self.cursor == c0,
                n == 3 ==> !usable(step(c0)) && !usable(step(step(c0))) && !usable(
                    step(step(step(c0))),
                ),
                self.ip_to_domain == old(self).ip_to_domain,
                self.domain_to_ip == old(self).domain_to_ip,
                self.filters == old(self).filters,
                self.mode == old(self).mode,
                self.ttl == old(self).ttl,
            decreases 3 - n,
        {
            self.cursor = self.cursor + 1;
            if self.cursor > self.max_cursor {
                self.cursor = self.min_cursor;
            }
            let o = u32_to_ip(self.cursor);
            proof {
                lemma_last_octet(o@, self.cursor);
            }
            if o[3] == 0 || o[3] == 255 {
                n = n + 1;
                continue;
            }
            proof {
                assert(usable(self.cursor));
                assert(self.cursor == next_cursor(c0));
                assert(self.ip_map() == old(self).ip_map());
                assert(self.wf());
            }
            return Ok(());
        }
        proof {
            lemma_three_steps_usable(c0);
        }
        Err(FakeDnsError::CursorExhausted)
    }

    /// Pairs the cursor's address with `domain` (unpairing whatever domain had
    /// it), and advances the cursor.
    pub fn allocate_ip(&mut self, domain: &str) -> (r: Result<[u8; 4], FakeDnsError>)
        requires
            old(self).wf(),
            !old(self).domain_map().contains_key(domain@),
        ensures
            final(self).wf(),
            r matches Ok(o) && be_value(o@) == old(self).cursor(),
            final(self).ip_map() == old(self).ip_map().insert(old(self).cursor(), domain@),
            final(self).domain_map() == (if old(self).ip_map().contains_key(old(self).cursor()) {
                old(self).domain_map().remove(old(self).ip_map()[old(self).cursor()])
            } else {
                old(self).domain_map()
            }).insert(domain@, old(self).cursor()),
            final(self).cursor() == next_cursor(old(self).cursor()),
            final(self).filters() == old(self).filters(),
            final(self).mode() == old(self).mode(),
            final(self).ttl() == old(self).ttl(),
    {
        let ghost im = self.ip_map();
        let ghost dm = self.domain_map();
        let c = self.cursor;
        let name = domain.to_owned();
        let prev = self.ip_to_domain.insert(c, name);
        match prev {
            Some(prev_domain) => {
                self.domain_to_ip.remove(prev_domain.as_str());
            },
            None => {},
        }
        let name2 = domain.to_owned();
        self.domain_to_ip.insert(name2, c);
        proof {
            let nim = im.insert(c, domain@);
            let ndm = (if im.contains_key(c) {
                dm.remove(im[c])
            } else {
                dm
            }).insert(domain@, c);
            assert(self.ip_map() =~= nim);
            assert(self.domain_map() =~= ndm);
            lemma_pairing_after_allocate(im, dm, c, domain@);
        }
        let ip = u32_to_ip(c);
        self.prepare_next_cursor()?;
        Ok(ip)
    }

    /// Decides the answer to a decoded request: checks the question, the
    /// filters, and pairs the domain with an address if it has none yet.
    pub fn plan_response(&mut self, req: &DnsRequest) -> (r: Result<DnsResponse, FakeDnsError>)
        requires
            old(self).wf(),
        ensures
            final(self).wf(),
            match r {
                Ok(resp) => plan_outcome(*old(self), req@) == Ok::<DnsResponseModel, FakeDnsError>(resp@),
                Err(e) => plan_outcome(*old(self), req@) == Err::<DnsResponseModel, FakeDnsError>(e),
            },
            plan_effect(*old(self), *final(self), req@),
            r is Ok ==> final(self).domain_map().contains_key(query_domain_of(req@.queries[0])),
    {
        if req.queries.len() == 0 {
            return Err(FakeDnsError::NoQueries);
        }
        let query = &req.queries[0];
        if query.query_class != DNS_CLASS_IN {
            return Err(FakeDnsError::UnsupportedClass);
        }
        let t = query.query_type;
        if t != RECORD_TYPE_A && t != RECORD_TYPE_AAAA && t != RECORD_TYPE_HTTPS {
            return Err(FakeDnsError::UnsupportedType);
        }
        let ascii = str_chars(query.ascii.as_str());
        let domain_chars = if query.is_fqdn && ascii.len() > 0 {
            sub_chars(&ascii, 0, ascii.len() - 1)
        } else {
            sub_chars(&ascii, 0, ascii.len())
        };
        proof {
            assert(ascii@.subrange(0, ascii@.len() as int) == ascii@);
            assert(ascii@.len() > 0 ==> ascii@.subrange(0, ascii@.len() - 1) == ascii@.drop_last());
            assert(domain_chars@ == query_domain_of(req@.queries[0]));
        }
        let domain = string_from_chars(domain_chars.as_slice());
        if !self.accept(domain.as_str()) {
            return Err(FakeDnsError::NotAccepted);
        }
        let ghost before = *self;
        let octets = match self.query_fake_ip(domain.as_str()) {
            Some(IpAddr::V4(o)) => o,
            Some(IpAddr::V6(_)) => {
                return Err(FakeDnsError::NoQueries);
            },
            None => self.allocate_ip(domain.as_str())?,
        };
        proof {
            assert(self.domain_map().contains_key(domain@));
            assert(be_value(octets@) == self.domain_map()[domain@]);
            lemma_ip_octets(octets@, self.domain_map()[domain@]);
        }
        let is_query = req.op_code == OP_CODE_QUERY;
        let echo = copy_query(query);
        let mut answers: Vec<DnsARecord> = Vec::new();
        if query.query_type == RECORD_TYPE_A {
            answers.push(
                DnsARecord {
                    labels: copy_labels(&query.labels),
                    ttl: self.ttl,
                    address: octets,
                },
            );
        }
        let mut queries: Vec<DnsQuery> = Vec::new();
        queries.push(echo);
        let resp = DnsResponse {
            id: req.id,
            op_code: req.op_code,
            recursion_desired: is_query && req.recursion_desired,
            checking_disabled: is_query && req.checking_disabled,
            response_code: RESPONSE_CODE_NO_ERROR,
            queries,
            answers,
        };
        proof {
            let q = req@.queries[0];
            assert(resp@.queries =~= seq![q]);
            assert(resp@.answers =~= fake_response(req@, self.domain_map()[domain@], self.ttl).answers);
            assert(resp@ == fake_response(req@, self.domain_map()[domain@], before.ttl()));
        }
        Ok(resp)
    }

    /// Answers a raw DNS request with a fake address for its first question;
    /// see [`plan_outcome`] for the decisions, and `dns_decode`/`dns_encode`
    /// for the wire format.
    pub fn generate_fake_response(&mut self, request: &[u8]) -> (r: Result<Vec<u8>, FakeDnsError>)
        requires
            old(self).wf(),
        ensures
            final(self).wf(),
            dns_decode(request@) is None ==> r == Err::<Vec<u8>, FakeDnsError>(FakeDnsError::Decode)
                && unchanged(*old(self), *final(self)) && final(self).filters() == old(self).filters()
                && final(self).mode() == old(self).mode() && final(self).ttl() == old(self).ttl(),
            dns_decode(request@) matches Some(req) ==> plan_effect(*old(self), *final(self), req),
            dns_decode(request@) matches Some(req) ==> match plan_outcome(*old(self), req) {
                Err(e) => r == Err::<Vec<u8>, FakeDnsError>(e),
                Ok(resp) => match dns_encode(resp) {
                    Some(b) => r matches Ok(out) && out@ == b,
                    None => r == Err::<Vec<u8>, FakeDnsError>(FakeDnsError::Encode),
                },
            },
    {
        let req = match decode_request(request) {
            Ok(m) => m,
            Err(_) => {
                return Err(FakeDnsError::Decode);
            },
        };
        let resp = self.plan_response(&req)?;
        match encode_response(&resp) {
            Ok(b) => Ok(b),
            Err(_) => Err(FakeDnsError::Encode),
        }
    }
}

/// A copy of a list of labels.
fn copy_labels(l: &Vec<Vec<u8>>) -> (r: Vec<Vec<u8>>)
    ensures
        labels_view(r@) == labels_view(l@),
{
    let mut r: Vec<Vec<u8>> = Vec::new();
    let mut i: usize = 0;
    while i < l.len()
        invariant
            i <= l@.len(),
            r@.len() == i,
            forall|j: int| 0 <= j < i ==> #[trigger] r@[j]@ == l@[j]@,
        decreases l@.len() - i,
    {
        r.push(copy_bytes(&l[i]));
        i = i + 1;
    }
    assert(labels_view(r@) =~= labels_view(l@));
    r
}

fn copy_bytes(b: &Vec<u8>) -> (r: Vec<u8>)
    ensures
        r@ == b@,
{
    let mut r: Vec<u8> = Vec::new();
    let mut i: usize = 0;
    while i < b.len()
        invariant
            i <= b@.len(),
            r@ == b@.take(i as int),
        decreases b@.len() - i,
    {
        r.push(b[i]);
        i = i + 1;
        assert(r@ == b@.take(i as int));
    }
    assert(b@.take(b@.len() as int) == b@);
    r
}

/// A copy of a question.
fn copy_query(q: &DnsQuery) -> (r: DnsQuery)
    ensures
        r@ == q@,
{
    DnsQuery {
        labels: copy_labels(&q.labels),
        is_fqdn: q.is_fqdn,
        ascii: q.ascii.clone(),
        query_type: q.query_type,
        query_class: q.query_class,
    }
}

} // verus!
