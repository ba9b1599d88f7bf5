//! DNS resolver configuration.

use vstd::prelude::*;

use crate::address::SocketAddr;
use crate::address::IpAddr;
use crate::text::{chars_of, find_char, first_index, string_texts, text_eq};
use vstd::string::*;

verus! {

/// Configures the behavior of DNS requests.
#[derive(Clone, Debug)]
pub struct DnsConfig {
    /// List of name servers; must not be empty
    pub name_servers: Vec<SocketAddr>,
    /// List of search domains
    pub search: Vec<String>,
    /// Minimum number of dots in a name to trigger an initial absolute query
    pub n_dots: u32,
    /// Milliseconds before retrying or failing an unanswered request
    pub timeout_ms: u64,
    /// Number of attempts made before returning an error
    pub attempts: u32,
    /// Retry on any socket error; reserved, never consulted
    pub retry_on_socket_error: bool,
    /// Whether to rotate through available nameservers
    pub rotate: bool,
    /// If `true`, perform `AAAA` queries first and return IPv4 addresses
    /// as IPv4-mapped IPv6 addresses.
    pub use_inet6: bool,
}

impl DnsConfig {
    /// Returns a `DnsConfig` using the given set of name servers,
    /// setting all other fields to generally sensible default values.
    pub fn with_name_servers(name_servers: Vec<SocketAddr>) -> (r: DnsConfig)
        ensures
            r.name_servers@ == name_servers@,
            r.search@.len() == 0,
            r.n_dots == 1,
            r.timeout_ms == 5000,
            r.attempts == 5,
            !r.retry_on_socket_error,
            !r.rotate,
            !r.use_inet6,
    {
        DnsConfig {
            name_servers,
            search: Vec::new(),
            n_dots: 1,
            timeout_ms: 5000,
            attempts: 5,
            retry_on_socket_error: false,
            rotate: false,
            use_inet6: false,
        }
    }
}

/// Most name servers taken from `resolv.conf`.
pub const MAX_NAME_SERVERS: usize = 3;

/// Largest `ndots` option value taken from `resolv.conf`.
pub const MAX_N_DOTS: u32 = 15;

/// Largest `timeout` option value taken from `resolv.conf`, in seconds.
pub const MAX_TIMEOUT_SECS: u64 = 30;

/// Largest `attempts` option value taken from `resolv.conf`.
pub const MAX_ATTEMPTS: u32 = 5;

/// The value of a decimal numeral: digits only, at least one, after an
/// optional `+`.
pub open spec fn digits_value(s: Seq<char>) -> Option<nat>
    decreases s.len(),
{
    if s.len() == 0 || !('0' <= s.last() && s.last() <= '9') {
        None
    } else if s.len() == 1 {
        Some((s.last() as nat - '0' as nat) as nat)
    } else {
        match digits_value(s.drop_last()) {
            Some(v) => Some(v * 10 + (s.last() as nat - '0' as nat) as nat),
            None => None,
        }
    }
}

/// The number a numeral stands for, with an optional leading `+`.
pub open spec fn numeral(s: Seq<char>) -> Option<nat> {
    if s.len() > 0 && s[0] == '+' {
        digits_value(s.skip(1))
    } else {
        digits_value(s)
    }
}

/// The name of an option: the text before its first `:`.
pub open spec fn option_name(opt: Seq<char>) -> Seq<char> {
    opt.take(first_index(opt, ':'))
}

/// The value of an option: the text after its first `:`, if any.
pub open spec fn option_value(opt: Seq<char>) -> Seq<char> {
    if first_index(opt, ':') < opt.len() {
        opt.skip(first_index(opt, ':') + 1)
    } else {
        Seq::<char>::empty()
    }
}

/// A numeric option's value where it is a numeral that fits in `max`,
/// capped at `cap`.
pub open spec fn capped(value: Seq<char>, max: nat, cap: nat) -> Option<nat> {
    match numeral(value) {
        Some(n) => if n <= max {
            Some(if n < cap {
                n
            } else {
                cap
            })
        } else {
            None
        },
        None => None,
    }
}

/// Returns the number a numeral stands for, where it fits in `max`.
fn parse_number(s: &str, max: u64) -> (r: Option<u64>)
    requires
        max >= 9,
    ensures
        match numeral(s@) {
            Some(n) => if n <= max {
                r == Some(n as u64)
            } else {
                r is None
            },
            None => r is None,
        },
{
    let v = chars_of(s);
    let n = v.len();
    let start: usize = if n > 0 && v[0] == '+' {
        1
    } else {
        0
    };
    let ghost digits = v@.skip(start as int);
    assert(v@.skip(0) =~= v@);
    assert(numeral(s@) == digits_value(digits));
    if start == n {
        assert(digits.len() == 0);
        return None;
    }
    let mut value: u64 = 0;
    let mut over = false;
    let mut i: usize = start;
    assert(digits.take(0) =~= Seq::<char>::empty());
    while i < n
        invariant
            v@ == s@,
            n == v@.len(),
            start < n,
            start <= i <= n,
            digits == v@.skip(start as int),
            numeral(s@) == digits_value(digits),
            max >= 9,
            value <= max,
            i == start ==> value == 0 && !over,
            i > start ==> match digits_value(digits.take(i - start)) {
                Some(d) => (d <= max ==> !over && value == d) && (d > max ==> over),
                None => false,
            },
        decreases n - i,
    {
        let c = v[i];
        assert(digits.take(i - start + 1).drop_last() =~= digits.take(i - start));
        assert(digits.take(i - start + 1).last() == c);
        assert(digits[i - start] == c);
        if !('0' <= c && c <= '9') {
            proof {
                lemma_digits_prefix_none(digits, i - start + 1);
            }
            return None;
        }
        assert((c as u32) >= 48 && (c as u32) <= 57);
        let d = (c as u32 - '0' as u32) as u64;
        assert(d <= 9);
        if over || value > (max - d) / 10 {
            over = true;
            value = 0;
            proof {
                if i > start {
                    let dv = digits_value(digits.take(i - start))->Some_0;
                    assert(dv * 10 + d >= dv) by (nonlinear_arith);
                    if dv <= max {
                        assert(dv * 10 + d > max) by (nonlinear_arith)
                            requires
                                dv > (max - d) / 10,
                                d <= 9,
                        ;
                    }
                }
            }
        } else {
            proof {
                assert(value * 10 + d <= max) by (nonlinear_arith)
                    requires
                        value <= (max - d) / 10,
                        d <= max,
                ;
            }
            value = value * 10 + d;
        }
        i = i + 1;
    }
    assert(digits.take(n - start) =~= digits);
    assert(digits.len() == n - start);
    if over {
        None
    } else {
        Some(value)
    }
}

proof fn lemma_digits_prefix_none(s: Seq<char>, k: int)
    requires
        0 < k <= s.len(),
        !('0' <= s[k - 1] && s[k - 1] <= '9'),
    ensures
        digits_value(s) is None,
    decreases s.len() - k,
{
    if k < s.len() {
        assert(s.drop_last()[k - 1] == s[k - 1]);
        lemma_digits_prefix_none(s.drop_last(), k);
    }
}

/// The settings that `resolv.conf` options change.
pub struct OptionFields {
    pub n_dots: u32,
    pub timeout_ms: u64,
    pub attempts: u32,
    pub rotate: bool,
    pub use_inet6: bool,
}

/// The option settings of a configuration.
pub open spec fn option_fields(c: DnsConfig) -> OptionFields {
    OptionFields {
        n_dots: c.n_dots,
        timeout_ms: c.timeout_ms,
        attempts: c.attempts,
        rotate: c.rotate,
        use_inet6: c.use_inet6,
    }
}

/// The settings once one `resolv.conf` option, `name` or `name:value`, is
/// applied: `ndots`, `timeout` (in seconds) and `attempts` take a numeral,
/// capped; `rotate` and `inet6` switch their setting on; anything else, or
/// a value that is no numeral, changes nothing.
pub open spec fn option_effect(f: OptionFields, opt: Seq<char>) -> OptionFields {
    let name = option_name(opt);
    let value = option_value(opt);
    OptionFields {
        n_dots: if name == "ndots"@ {
            match capped(value, u32::MAX as nat, MAX_N_DOTS as nat) {
                Some(n) => n as u32,
                None => f.n_dots,
            }
        } else {
            f.n_dots
        },
        timeout_ms: if name == "timeout"@ {
            match capped(value, u64::MAX as nat, MAX_TIMEOUT_SECS as nat) {
                Some(n) => (n * 1000) as u64,
                None => f.timeout_ms,
            }
        } else {
            f.timeout_ms
        },
        attempts: if name == "attempts"@ {
            match capped(value, u32::MAX as nat, MAX_ATTEMPTS as nat) {
                Some(n) => n as u32,
                None => f.attempts,
            }
        } else {
            f.attempts
        },
        rotate: f.rotate || name == "rotate"@,
        use_inet6: f.use_inet6 || name == "inet6"@,
    }
}

/// The settings once options are applied in order.
pub open spec fn options_effect(f: OptionFields, opts: Seq<Seq<char>>) -> OptionFields
    decreases opts.len(),
{
    if opts.len() == 0 {
        f
    } else {
        option_effect(options_effect(f, opts.drop_last()), opts.last())
    }
}

/// Port for DNS communication.
pub const DNS_PORT: u16 = 53;

/// The configuration once a `resolv.conf` line with the given words is
/// applied; `ip` is the address that the second word names, if it names
/// one. `nameserver` adds that address at port 53 while there are fewer
/// than `MAX_NAME_SERVERS`; `domain` makes its argument the only search
/// domain; `search` makes its arguments the search list; `options` applies
/// each option in turn; anything else changes nothing.
pub open spec fn directive_applied(
    old: DnsConfig,
    new: DnsConfig,
    w: Seq<Seq<char>>,
    ip: Option<IpAddr>,
) -> bool {
    let head = if w.len() > 0 {
        w[0]
    } else {
        Seq::<char>::empty()
    };
    &&& new.retry_on_socket_error == old.retry_on_socket_error
    &&& new.name_servers@ == (if head == "nameserver"@ && w.len() >= 2 && ip is Some
        && old.name_servers@.len() < MAX_NAME_SERVERS {
        old.name_servers@.push(SocketAddr { ip: ip->Some_0, port: DNS_PORT })
    } else {
        old.name_servers@
    })
    &&& string_texts(new.search@) == (if head == "domain"@ && w.len() >= 2 {
        seq![w[1]]
    } else if head == "search"@ {
        w.skip(1)
    } else {
        string_texts(old.search@)
    })
    &&& option_fields(new) == (if head == "options"@ {
        options_effect(option_fields(old), w.skip(1))
    } else {
        option_fields(old)
    })
}

impl DnsConfig {
    /// The configuration that reading `resolv.conf` starts from: no name
    /// servers and no search list, `ndots` 1, a timeout of 5 seconds and
    /// 2 attempts, without rotation or IPv6 preference.
    pub fn resolv_conf_base() -> (r: DnsConfig)
        ensures
            r.name_servers@.len() == 0,
            r.search@.len() == 0,
            r.n_dots == 1,
            r.timeout_ms == 5000,
            r.attempts == 2,
            !r.retry_on_socket_error,
            !r.rotate,
            !r.use_inet6,
    {
        DnsConfig {
            name_servers: Vec::new(),
            search: Vec::new(),
            n_dots: 1,
            timeout_ms: 5000,
            attempts: 2,
            retry_on_socket_error: false,
            rotate: false,
            use_inet6: false,
        }
    }

    /// Adds a name server from a `resolv.conf` `nameserver` line, unless
    /// `MAX_NAME_SERVERS` are there already.
    pub fn add_name_server(&mut self, addr: SocketAddr)
        ensures
            old(self).name_servers@.len() < MAX_NAME_SERVERS ==> final(self).name_servers@ == old(
                self,
            ).name_servers@.push(addr),
            old(self).name_servers@.len() >= MAX_NAME_SERVERS ==> final(self).name_servers@ == old(
                self,
            ).name_servers@,
            final(self).search@ == old(self).search@,
            final(self).n_dots == old(self).n_dots,
            final(self).timeout_ms == old(self).timeout_ms,
            final(self).attempts == old(self).attempts,
            final(self).rotate == old(self).rotate,
            final(self).use_inet6 == old(self).use_inet6,
            final(self).retry_on_socket_error == old(self).retry_on_socket_error,
    {
        if self.name_servers.len() < MAX_NAME_SERVERS {
            self.name_servers.push(addr);
        }
    }

    /// Applies one option of a `resolv.conf` `options` line.
    pub fn apply_option(&mut self, opt: &str)
        ensures
            option_fields(*final(self)) == option_effect(option_fields(*old(self)), opt@),
            final(self).name_servers@ == old(self).name_servers@,
            final(self).search@ == old(self).search@,
            final(self).retry_on_socket_error == old(self).retry_on_socket_error,
    {
        let v = chars_of(opt);
        let n = v.len();
        let k = find_char(&v, ':');
        let name = opt.substring_char(0, k);
        let empty = String::new();
        let value = if k < n {
            opt.substring_char(k + 1, n)
        } else {
            empty.as_str()
        };
        assert(name@ == option_name(opt@));
        assert(value@ =~= option_value(opt@));
        if text_eq(name, "ndots") {
            if let Some(x) = parse_number(value, u32::MAX as u64) {
                self.n_dots = if x < MAX_N_DOTS as u64 {
                    x as u32
                } else {
                    MAX_N_DOTS
                };
            }
        } else if text_eq(name, "timeout") {
            if let Some(x) = parse_number(value, u64::MAX) {
                self.timeout_ms = if x < MAX_TIMEOUT_SECS {
                    x * 1000
                } else {
                    MAX_TIMEOUT_SECS * 1000
                };
            }
        } else if text_eq(name, "attempts") {
            if let Some(x) = parse_number(value, u32::MAX as u64) {
                self.attempts = if x < MAX_ATTEMPTS as u64 {
                    x as u32
                } else {
                    MAX_ATTEMPTS
                };
            }
        } else if text_eq(name, "rotate") {
            self.rotate = true;
        } else if text_eq(name, "inet6") {
            self.use_inet6 = true;
        }
        proof {
            assert("ndots"@ != "timeout"@) by {
                reveal_strlit("ndots");
                reveal_strlit("timeout");
                assert("ndots"@[0] != "timeout"@[0]);
            }
            assert("ndots"@ != "attempts"@) by {
                reveal_strlit("ndots");
                reveal_strlit("attempts");
                assert("ndots"@[0] != "attempts"@[0]);
            }
            assert("ndots"@ != "rotate"@) by {
                reveal_strlit("ndots");
                reveal_strlit("rotate");
                assert("ndots"@[0] != "rotate"@[0]);
            }
            assert("ndots"@ != "inet6"@) by {
                reveal_strlit("ndots");
                reveal_strlit("inet6");
                assert("ndots"@[0] != "inet6"@[0]);
            }
            assert("timeout"@ != "attempts"@) by {
                reveal_strlit("timeout");
                reveal_strlit("attempts");
                assert("timeout"@[0] != "attempts"@[0]);
            }
            assert("timeout"@ != "rotate"@) by {
                reveal_strlit("timeout");
                reveal_strlit("rotate");
                assert("timeout"@[0] != "rotate"@[0]);
            }
            assert("timeout"@ != "inet6"@) by {
                reveal_strlit("timeout");
                reveal_strlit("inet6");
                assert("timeout"@[0] != "inet6"@[0]);
            }
            assert("attempts"@ != "rotate"@) by {
                reveal_strlit("attempts");
                reveal_strlit("rotate");
                assert("attempts"@[0] != "rotate"@[0]);
            }
            assert("attempts"@ != "inet6"@) by {
                reveal_strlit("attempts");
                reveal_strlit("inet6");
                assert("attempts"@[0] != "inet6"@[0]);
            }
            assert("rotate"@ != "inet6"@) by {
                reveal_strlit("rotate");
                reveal_strlit("inet6");
                assert("rotate"@[0] != "inet6"@[0]);
            }
        }
    }
}

/// The search domain that a host name gives: the part after its first dot.
pub open spec fn hostname_domain(host: Seq<char>) -> Option<Seq<char>> {
    if first_index(host, '.') < host.len() {
        Some(host.skip(first_index(host, '.') + 1))
    } else {
        None
    }
}

/// Returns the search domain that a host name gives, if it has a dot: the
/// part after the first one.
pub fn search_from_hostname(host: &str) -> (r: Option<String>)
    ensures
        match hostname_domain(host@) {
            Some(d) => r matches Some(s) && s@ == d,
            None => r is None,
        },
{
    let v = chars_of(host);
    let n = v.len();
    let k = find_char(&v, '.');
    if k < n {
        let d = host.substring_char(k + 1, n).to_owned();
        assert(d@ =~= host@.skip(k + 1));
        Some(d)
    } else {
        None
    }
}

impl DnsConfig {
    /// Applies one line of `resolv.conf`, given as its words; `ip` is the
    /// address that the second word names, if it names one.
    pub fn apply_directive(&mut self, words: &Vec<String>, ip: Option<IpAddr>)
        ensures
            directive_applied(*old(self), *final(self), string_texts(words@), ip),
    {
        let ghost w = string_texts(words@);
        proof {
            reveal_strlit("nameserver");
            reveal_strlit("domain");
            reveal_strlit("search");
            reveal_strlit("options");
            assert("nameserver"@[0] != "domain"@[0]);
            assert("nameserver"@[0] != "search"@[0]);
            assert("nameserver"@[0] != "options"@[0]);
            assert("domain"@[0] != "search"@[0]);
            assert("domain"@[0] != "options"@[0]);
            assert("search"@[0] != "options"@[0]);
        }
        let n = words.len();
        if n == 0 {
            assert("nameserver"@.len() != Seq::<char>::empty().len());
            assert("domain"@.len() != Seq::<char>::empty().len());
            assert("search"@.len() != Seq::<char>::empty().len());
            assert("options"@.len() != Seq::<char>::empty().len());
            return;
        }
        assert(w[0] == words@[0]@);
        let head = words[0].as_str();
        if text_eq(head, "nameserver") {
            if n >= 2 {
                if let Some(a) = ip {
                    self.add_name_server(SocketAddr { ip: a, port: DNS_PORT });
                }
            }
        } else if text_eq(head, "domain") {
            if n >= 2 {
                let mut list: Vec<String> = Vec::new();
                list.push(words[1].clone());
                assert(string_texts(list@) =~= seq![w[1]]);
                self.search = list;
            }
        } else if text_eq(head, "search") {
            let mut list: Vec<String> = Vec::new();
            let mut i: usize = 1;
            assert(string_texts(list@) =~= w.subrange(1, 1));
            while i < n
                invariant
                    n == words@.len(),
                    w == string_texts(words@),
                    1 <= i <= n,
                    string_texts(list@) == w.subrange(1, i as int),
                decreases n - i,
            {
                let ghost before = list@;
                list.push(words[i].clone());
                assert(string_texts(list@) =~= string_texts(before).push(w[i as int]));
                assert(w.subrange(1, i + 1) =~= w.subrange(1, i as int).push(w[i as int]));
                i = i + 1;
            }
            assert(w.subrange(1, n as int) =~= w.skip(1));
            self.search = list;
        } else if text_eq(head, "options") {
            let mut i: usize = 1;
            assert(w.subrange(1, 1) =~= Seq::<Seq<char>>::empty());
            while i < n
                invariant
                    n == words@.len(),
                    w == string_texts(words@),
                    1 <= i <= n,
                    option_fields(*self) == options_effect(
                        option_fields(*old(self)),
                        w.subrange(1, i as int),
                    ),
                    self.name_servers@ == old(self).name_servers@,
                    self.search@ == old(self).search@,
                    self.retry_on_socket_error == old(self).retry_on_socket_error,
                decreases n - i,
            {
                self.apply_option(words[i].as_str());
                assert(w.subrange(1, i + 1).drop_last() =~= w.subrange(1, i as int));
                assert(w.subrange(1, i + 1).last() == words@[i as int]@);
                i = i + 1;
            }
            assert(w.subrange(1, n as int) =~= w.skip(1));
        }
    }
}

} // verus!
