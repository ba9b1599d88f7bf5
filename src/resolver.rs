//! The decisions of a stub resolver: which names to query, which name
//! server to ask, when to retry, which reply to accept, and what a reply
//! holds. Sending and receiving datagrams is left to the caller, who
//! performs each action and reports what happened.

use vstd::prelude::*;
use vstd::string::*;

use crate::address::{
    mapped_segments, same_address, socket_address_equal, IpAddr, Ipv4Addr, Ipv6Addr, SocketAddr,
};
use crate::config::DnsConfig;
use crate::message::{
    all_records, default_header, DecodeError, Header, Message, MessageView, Qr, QuestionView, Question,
    RCode, Resource, ResourceView,
};
use crate::record::{Class, Ptr, Record, RecordType};

verus! {

/// The texts of a list of strings.
pub open spec fn texts(v: Seq<String>) -> Seq<Seq<char>> {
    v.map_values(|s: String| s@)
}

/// The number of dots in a text.
pub open spec fn dot_count(s: Seq<char>) -> nat
    decreases s.len(),
{
    if s.len() == 0 {
        0
    } else {
        dot_count(s.drop_last()) + if s.last() == '.' {
            1nat
        } else {
            0nat
        }
    }
}

/// `name` with `suffix` appended after a dot.
pub open spec fn suffixed(name: Seq<char>, suffix: Seq<char>) -> Seq<char> {
    name + seq!['.'] + suffix
}

/// The names to query for `name`, in order: the name itself when it ends
/// with a dot or has at least `n_dots` dots; else the name under each
/// search suffix, then the bare name.
pub open spec fn candidates(name: Seq<char>, search: Seq<Seq<char>>, n_dots: u32) -> Seq<Seq<char>> {
    if (name.len() > 0 && name.last() == '.') || dot_count(name) >= n_dots {
        seq![name]
    } else {
        search.map_values(|s: Seq<char>| suffixed(name, s)).push(name)
    }
}

/// Returns the number of dots in a name.
fn count_dots(name: &str) -> (r: u32)
    ensures
        r as nat == dot_count(name@) || (r == u32::MAX && dot_count(name@) >= u32::MAX),
{
    let v = crate::text::chars_of(name);
    let n = v.len();
    let mut count: u32 = 0;
    let mut i: usize = 0;
    while i < n
        invariant
            v@ == name@,
            n == v@.len(),
            i <= n,
            count as nat == dot_count(v@.take(i as int)) || (count == u32::MAX && dot_count(
                v@.take(i as int),
            ) >= u32::MAX),
        decreases n - i,
    {
        assert(v@.take(i + 1).drop_last() =~= v@.take(i as int));
        if v[i] == '.' && count < u32::MAX {
            count = count + 1;
        }
        i = i + 1;
    }
    assert(v@.take(n as int) =~= v@);
    count
}

/// Returns `host` under each suffix, then `host` itself.
pub fn with_suffixes(host: &str, suffixes: &Vec<String>) -> (r: Vec<String>)
    ensures
        texts(r@) == texts(suffixes@).map_values(|s: Seq<char>| suffixed(host@, s)).push(host@),
{
    let mut v: Vec<String> = Vec::new();
    let n = suffixes.len();
    let mut i: usize = 0;
    proof {
        reveal_strlit(".");
    }
    while i < n
        invariant
            n == suffixes@.len(),
            i <= n,
            texts(v@) == texts(suffixes@.take(i as int)).map_values(
                |s: Seq<char>| suffixed(host@, s),
            ),
            "."@ == seq!['.'],
        decreases n - i,
    {
        let s = host.to_owned().concat(".").concat(suffixes[i].as_str());
        let ghost before = v@;
        v.push(s);
        assert(texts(suffixes@.take(i + 1)) =~= texts(suffixes@.take(i as int)).push(
            suffixes@[i as int]@,
        ));
        assert(texts(v@) =~= texts(before).push(s@));
        i = i + 1;
        assert(texts(v@) =~= texts(suffixes@.take(i as int)).map_values(
            |s: Seq<char>| suffixed(host@, s),
        ));
    }
    assert(suffixes@.take(n as int) =~= suffixes@);
    let ghost before = v@;
    v.push(host.to_owned());
    assert(texts(v@) =~= texts(before).push(host@));
    v
}

/// Returns the names to query for a host name, in order, following the
/// search list and `n_dots` rule.
pub fn query_names(name: &str, config: &DnsConfig) -> (r: Vec<String>)
    ensures
        texts(r@) == candidates(name@, texts(config.search@), config.n_dots),
{
    let n = name.unicode_len();
    let ends_with_dot = n > 0 && name.get_char(n - 1) == '.';
    let dots = count_dots(name);
    if ends_with_dot || dots >= config.n_dots {
        let mut v: Vec<String> = Vec::new();
        v.push(name.to_owned());
        assert(texts(v@) =~= seq![name@]);
        v
    } else {
        with_suffixes(name, &config.search)
    }
}

/// Which name server an attempt goes to, and the rotation cursor after it:
/// with rotation, the one at the cursor, which then moves on by one;
/// else the attempt's number modulo the number of servers.
pub open spec fn pick(rotate: bool, k: int, cursor: usize, attempt: u32) -> (usize, usize) {
    if rotate {
        (cursor, ((cursor + 1) % k) as usize)
    } else {
        ((attempt as int % k) as usize, cursor)
    }
}

/// Returns the name server for an attempt, and moves the rotation cursor.
pub fn next_server(config: &DnsConfig, cursor: &mut usize, attempt: u32) -> (r: usize)
    requires
        config.name_servers@.len() > 0,
        *old(cursor) < config.name_servers@.len(),
    ensures
        (r, *final(cursor)) == pick(
            config.rotate,
            config.name_servers@.len() as int,
            *old(cursor),
            attempt,
        ),
        r < config.name_servers@.len(),
        *final(cursor) < config.name_servers@.len(),
{
    let k = config.name_servers.len();
    if config.rotate {
        let n = *cursor;
        *cursor = (n + 1) % k;
        n
    } else {
        (attempt as usize) % k
    }
}

/// Where an exchange of one query and its reply stands.
#[derive(Copy, Clone, Debug, PartialEq, Eq, Structural)]
pub enum Phase {
    /// The query is to be sent.
    Sending,
    /// A reply is awaited.
    Receiving,
    /// The exchange is over.
    Finished,
}

/// Why an exchange failed.
#[derive(Copy, Clone, Debug, PartialEq, Eq, Structural)]
pub enum ExchangeError {
    /// Every attempt timed out.
    TimedOut,
    /// The server answered with an error code.
    Server(RCode),
    /// A datagram from the server did not decode.
    Decode(DecodeError),
    /// Sending or receiving failed other than by timing out.
    Io,
}

/// What the caller is to do next.
#[derive(Copy, Clone, Debug, PartialEq, Eq, Structural)]
pub enum Action {
    /// Send the query to the name server of this index.
    Send(usize),
    /// Wait at most this many milliseconds for a datagram.
    Receive(u64),
    /// The datagram just reported is the reply.
    Accept,
    /// The exchange failed.
    Fail(ExchangeError),
}

/// What happened when the caller performed an action.
#[derive(Copy, Clone, Debug)]
pub enum Event {
    /// The query was sent.
    Sent,
    /// A datagram arrived from `from` after `elapsed_ms` milliseconds of
    /// waiting; `header` is its header, if it decoded.
    Received { elapsed_ms: u64, from: SocketAddr, header: Result<Header, DecodeError> },
    /// No datagram arrived in time.
    TimedOut,
    /// Sending or receiving failed other than by timing out.
    IoFailed,
}

/// Whether an event is one that the phase waits for.
pub open spec fn expects(phase: Phase, e: Event) -> bool {
    match e {
        Event::Sent => phase == Phase::Sending,
        Event::Received { .. } => phase == Phase::Receiving,
        Event::TimedOut => phase == Phase::Receiving,
        Event::IoFailed => phase != Phase::Finished,
    }
}

/// The state of one exchange of a query and its reply, tried up to
/// `attempts` times, each attempt waiting at most `timeout_ms` in all.
#[derive(Copy, Clone, Debug, PartialEq, Eq, Structural)]
pub struct Exchange {
    /// The id of the query.
    pub id: u16,
    /// How many attempts are made in all.
    pub attempts: u32,
    /// How long each attempt waits in all.
    pub timeout_ms: u64,
    /// The current attempt, from zero.
    pub attempt: u32,
    /// How long the current attempt may still wait.
    pub remaining_ms: u64,
    /// The name server of the current attempt.
    pub server: usize,
    /// Where the exchange stands.
    pub phase: Phase,
}

/// The state after an attempt ran out of time: the next attempt, if one
/// is left, else failure.
pub open spec fn after_timeout(s: Exchange, rotate: bool, k: int, cursor: usize) -> (
    Exchange,
    usize,
    Action,
) {
    if s.attempt as int + 1 < s.attempts {
        let (server, c) = pick(rotate, k, cursor, (s.attempt + 1) as u32);
        (
            Exchange {
                attempt: (s.attempt + 1) as u32,
                server,
                phase: Phase::Sending,
                remaining_ms: s.timeout_ms,
                ..s
            },
            c,
            Action::Send(server),
        )
    } else {
        (Exchange { phase: Phase::Finished, ..s }, cursor, Action::Fail(ExchangeError::TimedOut))
    }
}

/// The verdict on a datagram from the server of the current attempt: the
/// reply when it answers the query, `None` when it is to be ignored.
pub open spec fn verdict(id: u16, header: Result<Header, DecodeError>) -> Option<Action> {
    match header {
        Err(d) => Some(Action::Fail(ExchangeError::Decode(d))),
        Ok(h) => if h.id == id && h.qr == Qr::Response {
            if h.rcode == RCode::NoError {
                Some(Action::Accept)
            } else {
                Some(Action::Fail(ExchangeError::Server(h.rcode)))
            }
        } else {
            None
        },
    }
}

/// One step of an exchange: the state, rotation cursor and action that
/// follow an event. Datagrams from elsewhere, or that answer another query,
/// are ignored, and the time waited for them counts against the attempt.
pub open spec fn step(
    s: Exchange,
    servers: Seq<SocketAddr>,
    rotate: bool,
    cursor: usize,
    e: Event,
) -> (Exchange, usize, Action) {
    match e {
        Event::Sent => if s.remaining_ms == 0 {
            after_timeout(s, rotate, servers.len() as int, cursor)
        } else {
            (Exchange { phase: Phase::Receiving, ..s }, cursor, Action::Receive(s.remaining_ms))
        },
        Event::Received { elapsed_ms, from, header } => {
            let from_server = from.port == servers[s.server as int].port && same_address(
                from.ip,
                servers[s.server as int].ip,
            );
            let v = verdict(s.id, header);
            if from_server && v is Some {
                (Exchange { phase: Phase::Finished, ..s }, cursor, v->Some_0)
            } else {
                let rest = if s.remaining_ms < elapsed_ms {
                    0
                } else {
                    (s.remaining_ms - elapsed_ms) as u64
                };
                if rest == 0 {
                    after_timeout(s, rotate, servers.len() as int, cursor)
                } else {
                    (Exchange { remaining_ms: rest, ..s }, cursor, Action::Receive(rest))
                }
            }
        },
        Event::TimedOut => after_timeout(s, rotate, servers.len() as int, cursor),
        Event::IoFailed => (
            Exchange { phase: Phase::Finished, ..s },
            cursor,
            Action::Fail(ExchangeError::Io),
        ),
    }
}

impl Exchange {
    /// Begins an exchange of the query with id `id`: the first action is
    /// to send it, unless no attempt is to be made.
    pub fn start(config: &DnsConfig, cursor: &mut usize, id: u16) -> (r: (Exchange, Action))
        requires
            config.name_servers@.len() > 0,
            *old(cursor) < config.name_servers@.len(),
        ensures
            *final(cursor) < config.name_servers@.len(),
            r.0.id == id,
            r.0.attempts == config.attempts,
            r.0.timeout_ms == config.timeout_ms,
            r.0.attempt == 0,
            r.0.server < config.name_servers@.len(),
            config.attempts == 0 ==> r.0.phase == Phase::Finished && r.1 == Action::Fail(
                ExchangeError::TimedOut,
            ) && *final(cursor) == *old(cursor),
            config.attempts > 0 ==> {
                &&& (r.0.server, *final(cursor)) == pick(
                    config.rotate,
                    config.name_servers@.len() as int,
                    *old(cursor),
                    0,
                )
                &&& r.0.phase == Phase::Sending
                &&& r.0.remaining_ms == config.timeout_ms
                &&& r.1 == Action::Send(r.0.server)
            },
    {
        if config.attempts == 0 {
            let s = Exchange {
                id,
                attempts: 0,
                timeout_ms: config.timeout_ms,
                attempt: 0,
                remaining_ms: config.timeout_ms,
                server: 0,
                phase: Phase::Finished,
            };
            return (s, Action::Fail(ExchangeError::TimedOut));
        }
        let server = next_server(config, cursor, 0);
        let s = Exchange {
            id,
            attempts: config.attempts,
            timeout_ms: config.timeout_ms,
            attempt: 0,
            remaining_ms: config.timeout_ms,
            server,
            phase: Phase::Sending,
        };
        (s, Action::Send(server))
    }

    fn timed_out(&mut self, config: &DnsConfig, cursor: &mut usize) -> (r: Action)
        requires
            config.name_servers@.len() > 0,
            *old(cursor) < config.name_servers@.len(),
            old(self).attempt < old(self).attempts,
        ensures
            (*final(self), *final(cursor), r) == after_timeout(
                *old(self),
                config.rotate,
                config.name_servers@.len() as int,
                *old(cursor),
            ),
    {
        if self.attempt + 1 < self.attempts {
            let server = next_server(config, cursor, self.attempt + 1);
            self.attempt = self.attempt + 1;
            self.server = server;
            self.phase = Phase::Sending;
            self.remaining_ms = self.timeout_ms;
            Action::Send(server)
        } else {
            self.phase = Phase::Finished;
            Action::Fail(ExchangeError::TimedOut)
        }
    }

    /// Takes in what happened and returns what to do next.
    pub fn on_event(&mut self, config: &DnsConfig, cursor: &mut usize, event: Event) -> (r: Action)
        requires
            config.name_servers@.len() > 0,
            *old(cursor) < config.name_servers@.len(),
            old(self).server < config.name_servers@.len(),
            old(self).attempt < old(self).attempts,
            expects(old(self).phase, event),
        ensures
            (*final(self), *final(cursor), r) == step(
                *old(self),
                config.name_servers@,
                config.rotate,
                *old(cursor),
                event,
            ),
            *final(cursor) < config.name_servers@.len(),
            final(self).server < config.name_servers@.len(),
            final(self).attempt < final(self).attempts,
    {
        match event {
            Event::Sent => {
                if self.remaining_ms == 0 {
                    self.timed_out(config, cursor)
                } else {
                    self.phase = Phase::Receiving;
                    Action::Receive(self.remaining_ms)
                }
            },
            Event::Received { elapsed_ms, from, header } => {
                let from_server = socket_address_equal(&from, &config.name_servers[self.server]);
                let v = match header {
                    Err(d) => Some(Action::Fail(ExchangeError::Decode(d))),
                    Ok(h) => {
                        if h.id == self.id && h.qr == Qr::Response {
                            if h.rcode == RCode::NoError {
                                Some(Action::Accept)
                            } else {
                                Some(Action::Fail(ExchangeError::Server(h.rcode)))
                            }
                        } else {
                            None
                        }
                    },
                };
                if from_server && v.is_some() {
                    self.phase = Phase::Finished;
                    v.unwrap()
                } else {
                    let rest = if self.remaining_ms < elapsed_ms {
                        0
                    } else {
                        self.remaining_ms - elapsed_ms
                    };
                    if rest == 0 {
                        self.timed_out(config, cursor)
                    } else {
                        self.remaining_ms = rest;
                        Action::Receive(rest)
                    }
                }
            },
            Event::TimedOut => self.timed_out(config, cursor),
            Event::IoFailed => {
                self.phase = Phase::Finished;
                Action::Fail(ExchangeError::Io)
            },
        }
    }
}

/// The data of a record decoded as `R`, which must take it up exactly.
pub open spec fn rdata_value<R: Record>(data: Seq<u8>) -> Result<R::V, DecodeError> {
    match R::parse_at(data, 0) {
        Ok((v, p)) => if p == data.len() {
            Ok(v)
        } else {
            Err(DecodeError::ExtraneousData)
        },
        Err(e) => Err(e),
    }
}

/// The records of type `t` in `recs`, each decoded as `R`, in order; the
/// first error where one does not decode.
pub open spec fn decode_matching<R: Record>(recs: Seq<ResourceView>, t: RecordType) -> Result<
    Seq<R::V>,
    DecodeError,
>
    decreases recs.len(),
{
    if recs.len() == 0 {
        Ok(Seq::<R::V>::empty())
    } else {
        match decode_matching::<R>(recs.drop_last(), t) {
            Err(e) => Err(e),
            Ok(vs) => if recs.last().r_type == t {
                match rdata_value::<R>(recs.last().data) {
                    Ok(v) => Ok(vs.push(v)),
                    Err(e) => Err(e),
                }
            } else {
                Ok(vs)
            },
        }
    }
}

proof fn lemma_decode_matching_err<R: Record>(recs: Seq<ResourceView>, t: RecordType, k: int)
    requires
        0 <= k <= recs.len(),
        decode_matching::<R>(recs.take(k), t) is Err,
    ensures
        decode_matching::<R>(recs, t) == decode_matching::<R>(recs.take(k), t),
    decreases recs.len() - k,
{
    if k < recs.len() {
        assert(recs.take(k + 1).drop_last() =~= recs.take(k));
        lemma_decode_matching_err::<R>(recs, t, k + 1);
    } else {
        assert(recs.take(k) =~= recs);
    }
}

/// Returns the records of a reply whose type is that of `R`, decoded.
pub fn records_of<R: Record>(msg: &Message) -> (r: Result<Vec<R>, DecodeError>)
    ensures
        match decode_matching::<R>(all_records(msg@), R::spec_record_type()) {
            Ok(vs) => r matches Ok(v) && v@.map_values(|x: R| x@) == vs,
            Err(e) => r matches Err(x) && x == e,
        },
{
    let t = R::record_type();
    let mut it = msg.records();
    let ghost all = all_records(msg@);
    let mut out: Vec<R> = Vec::new();
    let ghost mut k: int = 0;
    assert(all.take(0) =~= Seq::<ResourceView>::empty());
    assert(all.skip(0) =~= all);
    assert(out@.map_values(|x: R| x@) =~= Seq::<R::V>::empty());
    loop
        invariant
            it.wf(),
            all == all_records(msg@),
            t == R::spec_record_type(),
            0 <= k <= all.len(),
            it.remaining() == all.skip(k),
            decode_matching::<R>(all.take(k), t) == Ok::<Seq<R::V>, DecodeError>(
                out@.map_values(|x: R| x@),
            ),
        decreases all.len() - k,
    {
        let ghost before = out@;
        match it.next() {
            None => {
                assert(all.take(k) =~= all);
                return Ok(out);
            },
            Some(rr) => {
                assert(rr@ == all[k]);
                assert(all.take(k + 1).drop_last() =~= all.take(k));
                assert(all.take(k + 1).last() == all[k]);
                if rr.r_type == t {
                    match rr.read_rdata::<R>() {
                        Ok(x) => {
                            out.push(x);
                            assert(out@.map_values(|x: R| x@) =~= before.map_values(
                                |x: R| x@,
                            ).push(x@));
                        },
                        Err(e) => {
                            proof {
                                lemma_decode_matching_err::<R>(all, t, k + 1);
                            }
                            return Err(e);
                        },
                    }
                }
                proof {
                    assert(all.skip(k).drop_first() =~= all.skip(k + 1));
                    k = k + 1;
                }
            },
        }
    }
}

/// A name without its trailing dot, if it has one.
pub open spec fn strip_dot(n: Seq<char>) -> Seq<char> {
    if n.len() > 0 && n.last() == '.' {
        n.drop_last()
    } else {
        n
    }
}

/// Returns the host name in the first PTR record of a reply, without its
/// trailing dot; `None` where the reply holds no PTR record.
pub fn ptr_host_name(msg: &Message) -> (r: Result<Option<String>, DecodeError>)
    ensures
        (forall|i: int|
            0 <= i < all_records(msg@).len() ==> #[trigger] all_records(msg@)[i].r_type
                != RecordType::Ptr) ==> r matches Ok(None),
        forall|i: int|
            0 <= i < all_records(msg@).len() && #[trigger] all_records(msg@)[i].r_type
                == RecordType::Ptr && (forall|j: int|
                0 <= j < i ==> all_records(msg@)[j].r_type != RecordType::Ptr) ==> match rdata_value::<
                Ptr,
            >(all_records(msg@)[i].data) {
                Ok(n) => r matches Ok(Some(s)) && s@ == strip_dot(n),
                Err(e) => r matches Err(x) && x == e,
            },
{
    let mut it = msg.records();
    let ghost all = all_records(msg@);
    let ghost mut k: int = 0;
    assert(all.skip(0) =~= all);
    loop
        invariant
            it.wf(),
            all == all_records(msg@),
            0 <= k <= all.len(),
            it.remaining() == all.skip(k),
            forall|j: int| 0 <= j < k ==> all[j].r_type != RecordType::Ptr,
        decreases all.len() - k,
    {
        match it.next() {
            None => {
                return Ok(None);
            },
            Some(rr) => {
                assert(rr@ == all[k]);
                if rr.r_type == RecordType::Ptr {
                    let p = rr.read_rdata::<Ptr>()?;
                    let name = p.name;
                    let n = name.as_str().unicode_len();
                    if n > 0 && name.as_str().get_char(n - 1) == '.' {
                        let s = name.as_str().substring_char(0, n - 1).to_owned();
                        assert(s@ =~= name@.drop_last());
                        return Ok(Some(s));
                    }
                    return Ok(Some(name));
                }
                proof {
                    assert(all.skip(k).drop_first() =~= all.skip(k + 1));
                    k = k + 1;
                }
            },
        }
    }
}

/// With rotation, a step that sends goes to the server at the cursor and
/// moves the cursor on by one, modulo the number of servers; every other
/// step leaves the cursor where it was. Successive sends thus go to
/// successive servers, however many datagrams arrive in between.
pub proof fn lemma_rotation(s: Exchange, servers: Seq<SocketAddr>, cursor: usize, e: Event)
    requires
        0 < servers.len() <= usize::MAX,
        cursor < servers.len(),
        s.server < servers.len(),
    ensures
        ({
            let (s2, c2, a) = step(s, servers, true, cursor, e);
            &&& a is Send ==> a == Action::Send(cursor) && c2 == (cursor + 1) % (servers.len() as int)
            &&& !(a is Send) ==> c2 == cursor
        }),
{
}

/// A step begins a new attempt exactly when it sends, which happens only
/// once the current attempt has run out of time; there are never more than
/// `attempts` attempts, so never more than `attempts` sends, and the
/// exchange fails with `TimedOut` only at the end of its last attempt.
pub proof fn lemma_attempts(
    s: Exchange,
    servers: Seq<SocketAddr>,
    rotate: bool,
    cursor: usize,
    e: Event,
)
    requires
        servers.len() > 0,
        cursor < servers.len(),
        s.server < servers.len(),
        s.attempt < s.attempts,
        expects(s.phase, e),
    ensures
        ({
            let (s2, c2, a) = step(s, servers, rotate, cursor, e);
            &&& s2.attempts == s.attempts
            &&& s2.attempt < s2.attempts
            &&& (a is Send) == (s2.attempt == s.attempt + 1)
            &&& (a is Send) || s2.attempt == s.attempt
            &&& a == Action::Fail(ExchangeError::TimedOut) ==> s.attempt + 1 == s.attempts
        }),
{
}

/// `ip` is the IPv4-mapped IPv6 form of `a`.
pub open spec fn is_mapped_of(ip: IpAddr, a: Ipv4Addr) -> bool {
    match ip {
        IpAddr::V6(x) => x.segments@ == mapped_segments(a.octets@),
        IpAddr::V4(_) => false,
    }
}

/// Returns the addresses of a host, given the IPv4 and IPv6 addresses its
/// A and AAAA queries found: IPv4 first, then IPv6; or, preferring IPv6,
/// the IPv6 addresses, and only where there are none the IPv4 addresses in
/// IPv4-mapped form.
pub fn host_addresses(config: &DnsConfig, v4: &Vec<Ipv4Addr>, v6: &Vec<Ipv6Addr>) -> (r: Vec<
    IpAddr,
>)
    ensures
        !config.use_inet6 ==> {
            &&& r@.len() == v4@.len() + v6@.len()
            &&& forall|i: int| 0 <= i < v4@.len() ==> r@[i] == IpAddr::V4(#[trigger] v4@[i])
            &&& forall|j: int|
                0 <= j < v6@.len() ==> r@[v4@.len() + j] == IpAddr::V6(#[trigger] v6@[j])
        },
        config.use_inet6 && v6@.len() > 0 ==> {
            &&& r@.len() == v6@.len()
            &&& forall|j: int| 0 <= j < v6@.len() ==> r@[j] == IpAddr::V6(#[trigger] v6@[j])
        },
        config.use_inet6 && v6@.len() == 0 ==> {
            &&& r@.len() == v4@.len()
            &&& forall|i: int| 0 <= i < v4@.len() ==> is_mapped_of(r@[i], #[trigger] v4@[i])
        },
{
    let mut r: Vec<IpAddr> = Vec::new();
    if !config.use_inet6 {
        let mut i: usize = 0;
        while i < v4.len()
            invariant
                i <= v4@.len(),
                r@.len() == i,
                forall|k: int| 0 <= k < i ==> r@[k] == IpAddr::V4(#[trigger] v4@[k]),
            decreases v4@.len() - i,
        {
            r.push(IpAddr::V4(v4[i]));
            i = i + 1;
        }
    }
    if !config.use_inet6 || v6.len() > 0 {
        let base = r.len();
        let mut j: usize = 0;
        while j < v6.len()
            invariant
                j <= v6@.len(),
                r@.len() == base + j,
                !config.use_inet6 ==> base == v4@.len() && forall|k: int|
                    0 <= k < v4@.len() ==> r@[k] == IpAddr::V4(#[trigger] v4@[k]),
                config.use_inet6 ==> base == 0,
                forall|k: int| 0 <= k < j ==> r@[base + k] == IpAddr::V6(#[trigger] v6@[k]),
            decreases v6@.len() - j,
        {
            r.push(IpAddr::V6(v6[j]));
            j = j + 1;
        }
    } else {
        let mut i: usize = 0;
        while i < v4.len()
            invariant
                i <= v4@.len(),
                r@.len() == i,
                forall|k: int| 0 <= k < i ==> is_mapped_of(r@[k], #[trigger] v4@[k]),
            decreases v4@.len() - i,
        {
            let m = v4[i].to_ipv6_mapped();
            r.push(IpAddr::V6(m));
            assert(is_mapped_of(r@[i as int], v4@[i as int]));
            i = i + 1;
        }
    }
    r
}

/// The record type of the first query for a host's addresses: AAAA when
/// IPv6 is preferred, else A.
pub fn first_address_query(config: &DnsConfig) -> (r: RecordType)
    ensures
        r == (if config.use_inet6 {
            RecordType::AAAA
        } else {
            RecordType::A
        }),
{
    if config.use_inet6 {
        RecordType::AAAA
    } else {
        RecordType::A
    }
}

/// Whether the second query for a host's addresses is made, after the
/// first found `found` addresses: always, unless IPv6 is preferred and
/// found some.
pub fn second_address_query(config: &DnsConfig, found: usize) -> (r: bool)
    ensures
        r == (!config.use_inet6 || found == 0),
{
    !config.use_inet6 || found == 0
}

/// Returns the query a resolver sends: a header with the given id asking
/// for recursion, and one question for `name` of the given type in class
/// `IN`.
pub fn query_message(id: u16, name: String, q_type: RecordType) -> (r: Message)
    ensures
        r@.header == (Header { recursion_desired: true, ..default_header(id) }),
        r@.question == seq![QuestionView { name: name@, q_type, q_class: Class::Internet }],
        r@.answer.len() == 0,
        r@.authority.len() == 0,
        r@.additional.len() == 0,
{
    let mut msg = Message::with_id(id);
    msg.header.recursion_desired = true;
    let ghost n = name@;
    msg.question.push(Question::new(name, q_type, Class::Internet));
    assert(msg@.question =~= seq![QuestionView { name: n, q_type, q_class: Class::Internet }]);
    msg
}

} // verus!
