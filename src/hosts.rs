//! A host table, consisting of addresses mapped to names, as a hosts file
//! gives it.

use vstd::prelude::*;

use crate::address::{octets_equal, segments_equal, IpAddr};
use crate::text::{chars_of, find_char, first_index, split_words, string_texts, text_eq, words};

verus! {

/// Represents a single host within a host table.
#[derive(Clone, Debug)]
pub struct Host {
    /// Host address
    pub address: IpAddr,
    /// Canonical host name
    pub name: String,
    /// Host aliases
    pub aliases: Vec<String>,
}

/// Represents a host table, consisting of addresses mapped to names.
#[derive(Clone, Debug)]
pub struct HostTable {
    /// Contained hosts
    pub hosts: Vec<Host>,
}

/// The two addresses are the same, with no mapping between IPv4 and IPv6.
pub open spec fn exact_address(a: IpAddr, b: IpAddr) -> bool {
    match (a, b) {
        (IpAddr::V4(x), IpAddr::V4(y)) => x.octets@ == y.octets@,
        (IpAddr::V6(x), IpAddr::V6(y)) => x.segments@ == y.segments@,
        _ => false,
    }
}

/// The host goes by the name, as its canonical name or an alias.
pub open spec fn has_name(h: Host, n: Seq<char>) -> bool {
    h.name@ == n || exists|j: int| 0 <= j < h.aliases@.len() && #[trigger] h.aliases@[j]@ == n
}

/// `i` is the first host of the list that satisfies `p`.
pub open spec fn first_where(hosts: Seq<Host>, i: int, p: spec_fn(Host) -> bool) -> bool {
    &&& 0 <= i < hosts.len()
    &&& p(hosts[i])
    &&& forall|j: int| 0 <= j < i ==> !p(#[trigger] hosts[j])
}

fn same_address_exact(a: &IpAddr, b: &IpAddr) -> (r: bool)
    ensures
        r == exact_address(*a, *b),
{
    match (a, b) {
        (IpAddr::V4(x), IpAddr::V4(y)) => octets_equal(&x.octets, &y.octets),
        (IpAddr::V6(x), IpAddr::V6(y)) => segments_equal(&x.segments, &y.segments),
        _ => false,
    }
}

fn host_has_name(h: &Host, name: &str) -> (r: bool)
    ensures
        r == has_name(*h, name@),
{
    if text_eq(h.name.as_str(), name) {
        return true;
    }
    let n = h.aliases.len();
    let mut j: usize = 0;
    while j < n
        invariant
            n == h.aliases@.len(),
            j <= n,
            h.name@ != name@,
            forall|k: int| 0 <= k < j ==> #[trigger] h.aliases@[k]@ != name@,
        decreases n - j,
    {
        if text_eq(h.aliases[j].as_str(), name) {
            return true;
        }
        j = j + 1;
    }
    false
}

impl HostTable {
    /// Returns the address for the first host matching the given name.
    ///
    /// If no match is found, `None` is returned.
    pub fn find_address(&self, name: &str) -> (r: Option<IpAddr>)
        ensures
            (forall|i: int| 0 <= i < self.hosts@.len() ==> !has_name(#[trigger] self.hosts@[i], name@))
                ==> r is None,
            forall|i: int|
                first_where(self.hosts@, i, |h: Host| has_name(h, name@)) ==> r == Some(
                    #[trigger] self.hosts@[i].address,
                ),
    {
        match self.find_host_by_name(name) {
            Some(h) => Some(h.address),
            None => None,
        }
    }

    /// Returns the canonical name for the first host matching the given address.
    ///
    /// If no match is found, `None` is returned.
    pub fn find_name(&self, addr: IpAddr) -> (r: Option<&str>)
        ensures
            (forall|i: int|
                0 <= i < self.hosts@.len() ==> !exact_address(#[trigger] self.hosts@[i].address, addr))
                ==> r is None,
            forall|i: int|
                first_where(self.hosts@, i, |h: Host| exact_address(h.address, addr)) ==> (
                r matches Some(s) && s@ == #[trigger] self.hosts@[i].name@),
    {
        match self.find_host_by_address(addr) {
            Some(h) => Some(h.name.as_str()),
            None => None,
        }
    }

    /// Returns the first host matching the given address.
    ///
    /// If no match is found, `None` is returned.
    pub fn find_host_by_address(&self, addr: IpAddr) -> (r: Option<&Host>)
        ensures
            (forall|i: int|
                0 <= i < self.hosts@.len() ==> !exact_address(#[trigger] self.hosts@[i].address, addr))
                ==> r is None,
            forall|i: int|
                first_where(self.hosts@, i, |h: Host| exact_address(h.address, addr)) ==> r == Some(
                    &#[trigger] self.hosts@[i],
                ),
    {
        let n = self.hosts.len();
        let mut i: usize = 0;
        while i < n
            invariant
                n == self.hosts@.len(),
                i <= n,
                forall|j: int| 0 <= j < i ==> !exact_address(#[trigger] self.hosts@[j].address, addr),
            decreases n - i,
        {
            if same_address_exact(&self.hosts[i].address, &addr) {
                return Some(&self.hosts[i]);
            }
            i = i + 1;
        }
        None
    }

    /// Returns the first host matching the given name, as its canonical
    /// name or an alias.
    ///
    /// If no match is found, `None` is returned.
    pub fn find_host_by_name(&self, name: &str) -> (r: Option<&Host>)
        ensures
            (forall|i: int| 0 <= i < self.hosts@.len() ==> !has_name(#[trigger] self.hosts@[i], name@))
                ==> r is None,
            forall|i: int|
                first_where(self.hosts@, i, |h: Host| has_name(h, name@)) ==> r == Some(
                    &#[trigger] self.hosts@[i],
                ),
    {
        let n = self.hosts.len();
        let mut i: usize = 0;
        while i < n
            invariant
                n == self.hosts@.len(),
                i <= n,
                forall|j: int| 0 <= j < i ==> !has_name(#[trigger] self.hosts@[j], name@),
            decreases n - i,
        {
            if host_has_name(&self.hosts[i], name) {
                return Some(&self.hosts[i]);
            }
            i = i + 1;
        }
        None
    }
}

/// Returns the words of a hosts-file line, leaving out any comment, which
/// begins with `#`.
pub fn host_line_words(line: &str) -> (r: Vec<String>)
    ensures
        string_texts(r@) == words(line@.take(first_index(line@, '#'))),
{
    let v = chars_of(line);
    let k = find_char(&v, '#');
    let text = line.substring_char(0, k);
    assert(text@ =~= line@.take(k as int));
    split_words(text)
}

/// Returns the host that a hosts-file line gives, from its words and the
/// address that the first one names: the second word is the canonical
/// name, the rest are aliases. `None` where the line names no host.
pub fn host_entry(address: IpAddr, words: &Vec<String>) -> (r: Option<Host>)
    ensures
        words@.len() < 2 ==> r is None,
        words@.len() >= 2 ==> (r matches Some(h) && h.address == address && h.name@
            == words@[1]@ && string_texts(h.aliases@) == string_texts(words@).skip(2)),
{
    let n = words.len();
    if n < 2 {
        return None;
    }
    let ghost w = string_texts(words@);
    let mut aliases: Vec<String> = Vec::new();
    let mut i: usize = 2;
    assert(string_texts(aliases@) =~= w.subrange(2, 2));
    while i < n
        invariant
            n == words@.len(),
            w == string_texts(words@),
            2 <= i <= n,
            string_texts(aliases@) == w.subrange(2, i as int),
        decreases n - i,
    {
        let ghost before = aliases@;
        aliases.push(words[i].clone());
        assert(string_texts(aliases@) =~= string_texts(before).push(w[i as int]));
        assert(w.subrange(2, i + 1) =~= w.subrange(2, i as int).push(w[i as int]));
        i = i + 1;
    }
    assert(w.subrange(2, n as int) =~= w.skip(2));
    Some(Host { address, name: words[1].clone(), aliases })
}

} // verus!
