//! ROG (gRPC) client settings and address parsing.

use vstd::prelude::*;
use crate::text::{decimal_chars, decimal_text, push_str, str_chars, string_from_chars, sub_chars};

verus! {

/// Keep-alive interval used when none is configured, in seconds.
pub const DEFAULT_KEEP_ALIVE_INTERVAL_SECS: u64 = 30;

/// Keep-alive timeout used when none is configured, in seconds.
pub const DEFAULT_KEEP_ALIVE_TIMEOUT_SECS: u64 = 20;

/// Whether keep-alive pings are sent while idle, when not configured.
pub const DEFAULT_KEEP_ALIVE_WHILE_IDLE: bool = true;

/// HTTP/2 keep-alive settings of a ROG client.
#[derive(Clone, Copy, Debug)]
pub struct ClientOptions {
    pub keep_alive: bool,
    pub keep_alive_interval_secs: u64,
    pub keep_alive_timeout_secs: u64,
    pub keep_alive_while_idle: bool,
}

/// `value`, or `default_value` when `value` is zero.
pub fn nonzero_or_default(value: u32, default_value: u64) -> (r: u64)
    ensures
        r == if value == 0 {
            default_value
        } else {
            value as u64
        },
{
    if value == 0 {
        default_value
    } else {
        value as u64
    }
}

impl ClientOptions {
    /// Options from configuration, zero durations and a missing idle flag
    /// taking the defaults.
    pub fn new(
        keep_alive: bool,
        keep_alive_interval_secs: u32,
        keep_alive_timeout_secs: u32,
        keep_alive_while_idle: Option<bool>,
    ) -> (o: Self)
        ensures
            o.keep_alive == keep_alive,
            o.keep_alive_interval_secs == if keep_alive_interval_secs == 0 {
                DEFAULT_KEEP_ALIVE_INTERVAL_SECS
            } else {
                keep_alive_interval_secs as u64
            },
            o.keep_alive_timeout_secs == if keep_alive_timeout_secs == 0 {
                DEFAULT_KEEP_ALIVE_TIMEOUT_SECS
            } else {
                keep_alive_timeout_secs as u64
            },
            o.keep_alive_while_idle == match keep_alive_while_idle {
                Some(b) => b,
                None => DEFAULT_KEEP_ALIVE_WHILE_IDLE,
            },
    {
        ClientOptions {
            keep_alive,
            keep_alive_interval_secs: nonzero_or_default(
                keep_alive_interval_secs,
                DEFAULT_KEEP_ALIVE_INTERVAL_SECS,
            ),
            keep_alive_timeout_secs: nonzero_or_default(
                keep_alive_timeout_secs,
                DEFAULT_KEEP_ALIVE_TIMEOUT_SECS,
            ),
            keep_alive_while_idle: match keep_alive_while_idle {
                Some(b) => b,
                None => DEFAULT_KEEP_ALIVE_WHILE_IDLE,
            },
        }
    }
}

impl Default for ClientOptions {
    fn default() -> (o: Self)
        ensures
            !o.keep_alive,
            o.keep_alive_interval_secs == DEFAULT_KEEP_ALIVE_INTERVAL_SECS,
            o.keep_alive_timeout_secs == DEFAULT_KEEP_ALIVE_TIMEOUT_SECS,
            o.keep_alive_while_idle == DEFAULT_KEEP_ALIVE_WHILE_IDLE,
    {
        ClientOptions {
            keep_alive: false,
            keep_alive_interval_secs: DEFAULT_KEEP_ALIVE_INTERVAL_SECS,
            keep_alive_timeout_secs: DEFAULT_KEEP_ALIVE_TIMEOUT_SECS,
            keep_alive_while_idle: DEFAULT_KEEP_ALIVE_WHILE_IDLE,
        }
    }
}

/// Why an address was refused.
#[derive(Clone, Copy, Debug, PartialEq, Eq, Structural)]
pub enum AddressError {
    /// No ':' separates host and port.
    InvalidFormat,
    /// The port is not a decimal number in `0..=65535`.
    InvalidPort,
    /// The host is empty.
    EmptyHost,
}

/// The index of the last occurrence of `c` in `s`, or -1.
pub open spec fn last_index_of(s: Seq<char>, c: char) -> int
    decreases s.len(),
{
    if s.len() == 0 {
        -1
    } else if s.last() == c {
        s.len() - 1
    } else {
        last_index_of(s.drop_last(), c)
    }
}

pub open spec fn is_digit(c: char) -> bool {
    '0' <= c && c <= '9'
}

pub open spec fn digit_value(c: char) -> nat {
    (c as u32 - '0' as u32) as nat
}

/// The value of a string of decimal digits.
pub open spec fn decimal(d: Seq<char>) -> nat
    decreases d.len(),
{
    if d.len() == 0 {
        0
    } else {
        decimal(d.drop_last()) * 10 + digit_value(d.last())
    }
}

/// Every character is a decimal digit.
pub open spec fn all_digits(d: Seq<char>) -> bool {
    forall|i: int| 0 <= i < d.len() ==> is_digit(#[trigger] d[i])
}

/// `t` without one leading '+'.
pub open spec fn unsigned_digits(t: Seq<char>) -> Seq<char> {
    if t.len() > 0 && t[0] == '+' {
        t.skip(1)
    } else {
        t
    }
}

/// `u16::from_str`: an optional '+', then one or more decimal digits whose
/// value fits in 16 bits.
pub open spec fn parse_u16_spec(t: Seq<char>) -> Option<u16> {
    let digits = unsigned_digits(t);
    if digits.len() == 0 || !all_digits(digits) || decimal(digits) > 65535 {
        None
    } else {
        Some(decimal(digits) as u16)
    }
}

/// What `parse_address` returns for `s`: host and port split at the last ':'.
pub open spec fn parse_address_spec(s: Seq<char>) -> Result<(Seq<char>, u16), AddressError> {
    let i = last_index_of(s, ':');
    if i < 0 {
        Err(AddressError::InvalidFormat)
    } else {
        match parse_u16_spec(s.skip(i + 1)) {
            None => Err(AddressError::InvalidPort),
            Some(port) => if i == 0 {
                Err(AddressError::EmptyHost)
            } else {
                Ok((s.take(i), port))
            },
        }
    }
}

proof fn lemma_last_index_is(s: Seq<char>, c: char, k: int)
    requires
        -1 <= k < s.len(),
        k >= 0 ==> s[k] == c,
        forall|j: int| k < j < s.len() ==> #[trigger] s[j] != c,
    ensures
        last_index_of(s, c) == k,
    decreases s.len(),
{
    if s.len() > 0 && k < s.len() - 1 {
        assert(s.last() != c);
        assert forall|j: int| k < j < s.len() - 1 implies #[trigger] s.drop_last()[j] != c by {
            assert(s.drop_last()[j] == s[j]);
        }
        lemma_last_index_is(s.drop_last(), c, k);
    }
}

proof fn lemma_decimal_grows(d: Seq<char>, k: int)
    requires
        0 <= k <= d.len(),
    ensures
        decimal(d) >= decimal(d.take(k)),
    decreases d.len() - k,
{
    if k < d.len() {
        lemma_decimal_grows(d, k + 1);
        assert(d.take(k + 1).drop_last() == d.take(k));
        assert(decimal(d.take(k + 1)) == decimal(d.take(k)) * 10 + digit_value(d.take(k + 1).last()));
    } else {
        assert(d.take(k) == d);
    }
}

/// `u16::from_str` on the characters `t[from..]`.
fn parse_u16_chars(t: &Vec<char>, from: usize) -> (r: Option<u16>)
    requires
        from <= t@.len(),
    ensures
        r == parse_u16_spec(t@.skip(from as int)),
{
    let ghost u = t@.skip(from as int);
    let mut start = from;
    if from < t.len() && t[from] == '+' {
        start = from + 1;
    }
    let ghost digits = t@.skip(start as int);
    proof {
        assert(digits == unsigned_digits(u));
    }
    if start == t.len() {
        return None;
    }
    let mut acc: u32 = 0;
    let mut i = start;
    while i < t.len()
        invariant
            start <= i <= t@.len(),
            start < t@.len(),
            digits == t@.skip(start as int),
            u == t@.skip(from as int),
            digits == unsigned_digits(u),
            acc == decimal(t@.subrange(start as int, i as int)),
            acc <= 65535,
            forall|j: int| start <= j < i ==> is_digit(#[trigger] t@[j]),
        decreases t@.len() - i,
    {
        let c = t[i];
        if c < '0' || c > '9' {
            proof {
                assert(digits[i - start] == c);
                assert(!is_digit(digits[i - start]));
            }
            return None;
        }
        let ghost prev = t@.subrange(start as int, i as int);
        let next = acc * 10 + ((c as u32) - ('0' as u32));
        proof {
            let cur = t@.subrange(start as int, i + 1);
            assert(cur.drop_last() == prev);
            assert(cur.last() == c);
        }
        if next > 65535 {
            proof {
                assert(t@.subrange(start as int, i + 1) == digits.take(i + 1 - start));
                lemma_decimal_grows(digits, i + 1 - start);
                assert(decimal(t@.subrange(start as int, i + 1)) == next);
            }
            return None;
        }
        acc = next;
        i = i + 1;
    }
    proof {
        assert(t@.subrange(start as int, t@.len() as int) == digits);
        assert forall|j: int| 0 <= j < digits.len() implies is_digit(#[trigger] digits[j]) by {
            assert(digits[j] == t@[j + start]);
        }
    }
    Some(acc as u16)
}

/// Splits `host:port` at the last ':' (so an IPv6 host may contain colons)
/// and parses the port.
pub fn parse_address(addr: &str) -> (r: Result<(String, u16), AddressError>)
    ensures
        match r {
            Ok((host, port)) => parse_address_spec(addr@) == Ok::<(Seq<char>, u16), AddressError>((host@, port)),
            Err(e) => parse_address_spec(addr@) == Err::<(Seq<char>, u16), AddressError>(e),
        },
{
    let cs = str_chars(addr);
    let mut i = cs.len();
    while i > 0 && cs[i - 1] != ':'
        invariant
            i <= cs@.len(),
            forall|j: int| i <= j < cs@.len() ==> #[trigger] cs@[j] != ':',
        decreases i,
    {
        i = i - 1;
    }
    proof {
        lemma_last_index_is(cs@, ':', i - 1);
    }
    if i == 0 {
        return Err(AddressError::InvalidFormat);
    }
    let port = match parse_u16_chars(&cs, i) {
        Some(p) => p,
        None => {
            return Err(AddressError::InvalidPort);
        },
    };
    if i - 1 == 0 {
        return Err(AddressError::EmptyHost);
    }
    let host_chars = sub_chars(&cs, 0, i - 1);
    let host = string_from_chars(host_chars.as_slice());
    assert(cs@.subrange(0, i - 1) == cs@.take(i - 1));
    Ok((host, port))
}

/// The URL of a ROG server: `https` on port 443, `http` otherwise.
pub open spec fn endpoint_text(address: Seq<char>, port: u16) -> Seq<char> {
    (if port == 443 {
        "https"@
    } else {
        "http"@
    }) + "://"@ + address + ":"@ + decimal_text(port as int)
}

/// The URL the gRPC client of a ROG outbound connects to.
pub fn endpoint_url(address: &str, port: u16) -> (u: String)
    ensures
        u@ == endpoint_text(address@, port),
{
    let mut v: Vec<char> = Vec::new();
    if port == 443 {
        push_str(&mut v, "https");
    } else {
        push_str(&mut v, "http");
    }
    push_str(&mut v, "://");
    push_str(&mut v, address);
    push_str(&mut v, ":");
    let mut digits = decimal_chars(port as i32);
    v.append(&mut digits);
    assert(v@ =~= endpoint_text(address@, port));
    string_from_chars(v.as_slice())
}

/// `b[lo..hi]`.
fn byte_range(b: &Vec<u8>, lo: usize, hi: usize) -> (r: Vec<u8>)
    requires
        lo <= hi <= b@.len(),
    ensures
        r@ == b@.subrange(lo as int, hi as int),
{
    let mut r: Vec<u8> = Vec::new();
    let mut i = lo;
    while i < hi
        invariant
            lo <= i <= hi <= b@.len(),
            r@ == b@.subrange(lo as int, i as int),
        decreases hi - i,
    {
        r.push(b[i]);
        i = i + 1;
        assert(r@ == b@.subrange(lo as int, i as int));
    }
    r
}

/// What a ROG stream has received and not yet handed to its reader: the
/// payload of the last response and how far it has been read.
pub struct StreamReadBuffer {
    buffer: Vec<u8>,
    pos: usize,
}

impl StreamReadBuffer {
    /// The bytes received and not yet read.
    pub closed spec fn pending(&self) -> Seq<u8> {
        self.buffer@.skip(self.pos as int)
    }

    /// The read position lies in the payload, and a payload read to its end
    /// is dropped.
    #[verifier::type_invariant]
    spec fn inv(&self) -> bool {
        &&& self.pos <= self.buffer@.len()
        &&& self.pos == self.buffer@.len() ==> self.buffer@.len() == 0
    }

    /// An empty buffer.
    pub fn new() -> (b: Self)
        ensures
            b.pending() == Seq::<u8>::empty(),
    {
        let b = StreamReadBuffer { buffer: Vec::new(), pos: 0 };
        assert(b.pending() =~= Seq::<u8>::empty());
        b
    }

    /// The read of at most `max` bytes from `buffer[pos..]`, and the state
    /// left behind.
    fn consume(buffer: Vec<u8>, pos: usize, max: usize) -> (r: (Vec<u8>, Self))
        requires
            pos <= buffer@.len(),
        ensures
            r.0@ == buffer@.skip(pos as int).take(
                if buffer@.len() - pos < max { buffer@.len() - pos } else { max as int },
            ),
            r.1.pending() == buffer@.skip(pos as int).skip(r.0@.len() as int),
    {
        let available = buffer.len() - pos;
        let n = if available < max {
            available
        } else {
            max
        };
        let out = byte_range(&buffer, pos, pos + n);
        assert(out@ == buffer@.skip(pos as int).take(n as int));
        let end = pos + n;
        if end >= buffer.len() {
            let rest = StreamReadBuffer { buffer: Vec::new(), pos: 0 };
            assert(rest.pending() =~= buffer@.skip(pos as int).skip(n as int));
            (out, rest)
        } else {
            let rest = StreamReadBuffer { buffer, pos: end };
            assert(rest.pending() =~= buffer@.skip(pos as int).skip(n as int));
            (out, rest)
        }
    }

    /// Reads at most `max` buffered bytes; `None` when nothing is buffered
    /// and the next response must be awaited.
    pub fn read_buffered(&mut self, max: usize) -> (r: Option<Vec<u8>>)
        ensures
            old(self).pending().len() == 0 ==> r is None && final(self).pending() == old(self).pending(),
            old(self).pending().len() > 0 ==> (r matches Some(out) && out@ == old(self).pending().take(
                if old(self).pending().len() < max { old(self).pending().len() as int } else { max as int },
            ) && final(self).pending() == old(self).pending().skip(out@.len() as int)),
    {
        proof {
            use_type_invariant(&*self);
        }
        if self.pos >= self.buffer.len() {
            return None;
        }
        let mut taken = StreamReadBuffer::new();
        std::mem::swap(self, &mut taken);
        proof {
            use_type_invariant(&taken);
        }
        let StreamReadBuffer { buffer, pos } = taken;
        let (out, rest) = Self::consume(buffer, pos, max);
        *self = rest;
        Some(out)
    }

    /// A response arrived while nothing was buffered: reads at most `max`
    /// bytes of its payload at once and keeps the rest. An empty payload
    /// reads nothing.
    pub fn read_payload(&mut self, payload: Vec<u8>, max: usize) -> (out: Vec<u8>)
        requires
            old(self).pending().len() == 0,
        ensures
            out@ == payload@.take(if payload@.len() < max { payload@.len() as int } else { max as int }),
            final(self).pending() == payload@.skip(out@.len() as int),
    {
        let ghost p = payload@;
        let (out, rest) = Self::consume(payload, 0, max);
        assert(p.skip(0) == p);
        *self = rest;
        out
    }
}

} // verus!
