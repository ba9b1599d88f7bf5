//! IP address utility functions.

use vstd::prelude::*;
use vstd::string::*;

verus! {

/// An IPv4 address, as its four octets.
#[derive(Copy, Clone, Debug, PartialEq, Eq, Hash)]
pub struct Ipv4Addr {
    pub octets: [u8; 4],
}

/// An IPv6 address, as its eight 16-bit segments.
#[derive(Copy, Clone, Debug, PartialEq, Eq, Hash)]
pub struct Ipv6Addr {
    pub segments: [u16; 8],
}

/// An IPv4 or IPv6 address.
#[derive(Copy, Clone, Debug, PartialEq, Eq, Hash)]
pub enum IpAddr {
    V4(Ipv4Addr),
    V6(Ipv6Addr),
}

/// An IP address and a port.
#[derive(Copy, Clone, Debug, PartialEq, Eq, Hash)]
pub struct SocketAddr {
    pub ip: IpAddr,
    pub port: u16,
}

impl Ipv4Addr {
    /// Constructs an address from its octets.
    pub fn new(a: u8, b: u8, c: u8, d: u8) -> (r: Ipv4Addr)
        ensures
            r.octets@ == seq![a, b, c, d],
    {
        let r = Ipv4Addr { octets: [a, b, c, d] };
        assert(r.octets@ =~= seq![a, b, c, d]);
        r
    }

    /// The IPv4-mapped IPv6 form `::ffff:a.b.c.d`.
    pub fn to_ipv6_mapped(&self) -> (r: Ipv6Addr)
        ensures
            r.segments@ == mapped_segments(self.octets@),
    {
        let o = self.octets;
        let r = Ipv6Addr {
            segments: [
                0,
                0,
                0,
                0,
                0,
                0xffff,
                o[0] as u16 * 256 + o[1] as u16,
                o[2] as u16 * 256 + o[3] as u16,
            ],
        };
        assert(r.segments@ =~= mapped_segments(self.octets@));
        r
    }
}

/// The segments of the IPv4-mapped IPv6 form of an IPv4 address.
pub open spec fn mapped_segments(o: Seq<u8>) -> Seq<u16> {
    seq![
        0u16,
        0,
        0,
        0,
        0,
        0xffff,
        (o[0] as int * 256 + o[1] as int) as u16,
        (o[2] as int * 256 + o[3] as int) as u16,
    ]
}

/// The octets of the IPv4 address that an IPv6 address holds in its
/// IPv4-mapped (`::ffff:a.b.c.d`) or IPv4-compatible (`::a.b.c.d`) form.
pub open spec fn embedded_v4(s: Seq<u16>) -> Option<Seq<u8>> {
    if s[0] == 0 && s[1] == 0 && s[2] == 0 && s[3] == 0 && s[4] == 0 && (s[5] == 0 || s[5]
        == 0xffff) {
        Some(seq![(s[6] / 256) as u8, (s[6] % 256) as u8, (s[7] / 256) as u8, (s[7] % 256) as u8])
    } else {
        None
    }
}

/// Addresses are equal, an IPv6 address standing for the IPv4 address that
/// it holds in mapped or compatible form.
pub open spec fn same_address(a: IpAddr, b: IpAddr) -> bool {
    match (a, b) {
        (IpAddr::V4(x), IpAddr::V4(y)) => x.octets@ == y.octets@,
        (IpAddr::V6(x), IpAddr::V6(y)) => x.segments@ == y.segments@,
        (IpAddr::V6(x), IpAddr::V4(y)) => embedded_v4(x.segments@) == Some(y.octets@),
        (IpAddr::V4(x), IpAddr::V6(y)) => embedded_v4(y.segments@) == Some(x.octets@),
    }
}

impl Ipv6Addr {
    /// Constructs an address from its segments.
    pub fn new(a: u16, b: u16, c: u16, d: u16, e: u16, f: u16, g: u16, h: u16) -> (r: Ipv6Addr)
        ensures
            r.segments@ == seq![a, b, c, d, e, f, g, h],
    {
        let r = Ipv6Addr { segments: [a, b, c, d, e, f, g, h] };
        assert(r.segments@ =~= seq![a, b, c, d, e, f, g, h]);
        r
    }

    /// The IPv4 address held in IPv4-mapped or IPv4-compatible form, if any.
    pub fn to_ipv4(&self) -> (r: Option<Ipv4Addr>)
        ensures
            match embedded_v4(self.segments@) {
                Some(o) => r matches Some(x) && x.octets@ == o,
                None => r is None,
            },
    {
        let s = self.segments;
        if s[0] == 0 && s[1] == 0 && s[2] == 0 && s[3] == 0 && s[4] == 0 && (s[5] == 0 || s[5]
            == 0xffff) {
            Some(
                Ipv4Addr::new(
                    (s[6] / 256) as u8,
                    (s[6] % 256) as u8,
                    (s[7] / 256) as u8,
                    (s[7] % 256) as u8,
                ),
            )
        } else {
            None
        }
    }
}

pub(crate) fn octets_equal(a: &[u8; 4], b: &[u8; 4]) -> (r: bool)
    ensures
        r == (a@ == b@),
{
    let r = a[0] == b[0] && a[1] == b[1] && a[2] == b[2] && a[3] == b[3];
    if r {
        assert(a@ =~= b@);
    }
    r
}

pub(crate) fn segments_equal(a: &[u16; 8], b: &[u16; 8]) -> (r: bool)
    ensures
        r == (a@ == b@),
{
    let mut i: usize = 0;
    while i < 8
        invariant
            i <= 8,
            a@.len() == 8,
            b@.len() == 8,
            forall|j: int| 0 <= j < i ==> a@[j] == b@[j],
        decreases 8 - i,
    {
        if a[i] != b[i] {
            return false;
        }
        i = i + 1;
    }
    assert(a@ =~= b@);
    true
}

/// Compares two `IpAddr`s, checking for IPv6-compatible or IPv6-mapped addresses.
pub fn address_equal(a: &IpAddr, b: &IpAddr) -> (r: bool)
    ensures
        r == same_address(*a, *b),
{
    match (a, b) {
        (IpAddr::V4(x), IpAddr::V4(y)) => octets_equal(&x.octets, &y.octets),
        (IpAddr::V6(x), IpAddr::V6(y)) => segments_equal(&x.segments, &y.segments),
        (IpAddr::V6(x), IpAddr::V4(y)) => match x.to_ipv4() {
            Some(z) => octets_equal(&z.octets, &y.octets),
            None => false,
        },
        (IpAddr::V4(x), IpAddr::V6(y)) => match y.to_ipv4() {
            Some(z) => octets_equal(&z.octets, &x.octets),
            None => false,
        },
    }
}

/// Compares two `SocketAddr`s, checking for IPv6-compatible or IPv6-mapped addresses.
pub fn socket_address_equal(a: &SocketAddr, b: &SocketAddr) -> (r: bool)
    ensures
        r == (a.port == b.port && same_address(a.ip, b.ip)),
{
    a.port == b.port && address_equal(&a.ip, &b.ip)
}

/// The lowercase hexadecimal digit of a value below 16.
pub open spec fn hex_digit(d: int) -> char {
    if d < 10 {
        ('0' as int + d) as char
    } else {
        ('a' as int + d - 10) as char
    }
}

/// The decimal digits of a number, without leading zeros.
pub open spec fn decimal(n: nat) -> Seq<char>
    decreases n,
{
    if n < 10 {
        seq![hex_digit(n as int)]
    } else {
        decimal(n / 10).push(hex_digit((n % 10) as int))
    }
}

/// The nibble of an IPv6 address at place `i`, counting from the least
/// significant one.
pub open spec fn nibble(s: Seq<u16>, i: int) -> int {
    let seg = s[7 - i / 4] as int;
    if i % 4 == 0 {
        seg % 16
    } else if i % 4 == 1 {
        (seg / 16) % 16
    } else if i % 4 == 2 {
        (seg / 256) % 16
    } else {
        seg / 4096
    }
}

/// The 32 nibbles of an IPv6 address, least significant first, each
/// followed by a dot.
pub open spec fn reversed_nibbles(s: Seq<u16>) -> Seq<char> {
    Seq::new(64, |j: int| if j % 2 == 0 { hex_digit(nibble(s, j / 2)) } else { '.' })
}

/// The domain name under which reverse lookups of an address are made.
pub open spec fn reverse_name(a: IpAddr) -> Seq<char> {
    match a {
        IpAddr::V4(x) => decimal(x.octets@[3] as nat) + seq!['.'] + decimal(x.octets@[2] as nat)
            + seq!['.'] + decimal(x.octets@[1] as nat) + seq!['.'] + decimal(x.octets@[0] as nat)
            + ".in-addr.arpa"@,
        IpAddr::V6(x) => reversed_nibbles(x.segments@) + "ip6.arpa"@,
    }
}

/// The one-character string of a hexadecimal digit.
fn digit_str(d: u8) -> (r: &'static str)
    requires
        d < 16,
    ensures
        r@ == seq![hex_digit(d as int)],
{
    proof {
        reveal_strlit("0");
        reveal_strlit("1");
        reveal_strlit("2");
        reveal_strlit("3");
        reveal_strlit("4");
        reveal_strlit("5");
        reveal_strlit("6");
        reveal_strlit("7");
        reveal_strlit("8");
        reveal_strlit("9");
        reveal_strlit("a");
        reveal_strlit("b");
        reveal_strlit("c");
        reveal_strlit("d");
        reveal_strlit("e");
        reveal_strlit("f");
    }
    let r = match d {
        0 => "0",
        1 => "1",
        2 => "2",
        3 => "3",
        4 => "4",
        5 => "5",
        6 => "6",
        7 => "7",
        8 => "8",
        9 => "9",
        10 => "a",
        11 => "b",
        12 => "c",
        13 => "d",
        14 => "e",
        _ => "f",
    };
    assert(r@ =~= seq![hex_digit(d as int)]);
    r
}

/// Appends the decimal digits of an octet.
fn push_decimal(s: &mut String, n: u8)
    ensures
        final(s)@ == old(s)@ + decimal(n as nat),
{
    if n >= 100 {
        s.append(digit_str(n / 100));
        s.append(digit_str((n / 10) % 10));
        s.append(digit_str(n % 10));
        assert(decimal(n as nat) == decimal((n / 10) as nat).push(hex_digit((n % 10) as int)));
        assert(decimal((n / 10) as nat) == decimal((n / 100) as nat).push(
            hex_digit(((n / 10) % 10) as int),
        ));
        assert(s@ =~= old(s)@ + decimal(n as nat));
    } else if n >= 10 {
        s.append(digit_str(n / 10));
        s.append(digit_str(n % 10));
        assert(decimal(n as nat) == decimal((n / 10) as nat).push(hex_digit((n % 10) as int)));
        assert(decimal((n / 10) as nat) == seq![hex_digit((n / 10) as int)]);
        assert(s@ =~= old(s)@ + decimal(n as nat));
    } else {
        s.append(digit_str(n));
    }
}

/// Returns an IP address formatted as a domain name.
pub fn address_name(addr: &IpAddr) -> (r: String)
    ensures
        r@ == reverse_name(*addr),
{
    let mut s = String::new();
    proof {
        reveal_strlit(".");
    }
    match addr {
        IpAddr::V4(x) => {
            let o = x.octets;
            push_decimal(&mut s, o[3]);
            s.append(".");
            push_decimal(&mut s, o[2]);
            s.append(".");
            push_decimal(&mut s, o[1]);
            s.append(".");
            push_decimal(&mut s, o[0]);
            s.append(".in-addr.arpa");
            assert(s@ =~= reverse_name(*addr));
        },
        IpAddr::V6(x) => {
            let seg = x.segments;
            let mut i: usize = 0;
            while i < 32
                invariant
                    i <= 32,
                    seg@ == x.segments@,
                    s@ == reversed_nibbles(seg@).take(2 * i),
                decreases 32 - i,
            {
                let v = seg[7 - i / 4];
                let d: u16 = if i % 4 == 0 {
                    v % 16
                } else if i % 4 == 1 {
                    (v / 16) % 16
                } else if i % 4 == 2 {
                    (v / 256) % 16
                } else {
                    v / 4096
                };
                assert(d as int == nibble(seg@, i as int));
                let ghost before = s@;
                proof {
                    reveal_strlit(".");
                }
                s.append(digit_str(d as u8));
                s.append(".");
                assert(reversed_nibbles(seg@)[2 * i as int] == hex_digit(nibble(seg@, i as int)));
                assert(reversed_nibbles(seg@)[2 * i + 1] == '.');
                assert(reversed_nibbles(seg@).take(2 * i + 2) =~= before + seq![
                    hex_digit(nibble(seg@, i as int)),
                    '.',
                ]);
                i = i + 1;
                assert(s@ =~= reversed_nibbles(seg@).take(2 * i));
            }
            s.append("ip6.arpa");
            assert(reversed_nibbles(seg@).take(64) =~= reversed_nibbles(seg@));
        },
    }
    s
}

} // verus!
