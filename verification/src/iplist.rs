//! Subnets as numbers, the list of subnets that may use the server, and the
//! file that names them.

use vstd::prelude::*;
use vstd::string::StringSliceAdditionalSpecFns;
use vstd::utf8::valid_utf8;
use crate::config::{mask_prefix, masklen};
use crate::percent::str_from_utf8;
use crate::text::{
    clone_bytes, contains_byte, has_byte, leading_space, lemma_space_run, lit, push_all,
    space_run, split, split_bytes, split_words, views, words,
};

verus! {

/// An address: whether it is an IPv6 address, and its bits as a number. An
/// IPv4 address is a number below 2 to the 32.
#[derive(PartialEq, Eq, Structural, Clone, Copy, Debug)]
pub struct Addr {
    pub v6: bool,
    pub bits: u128,
}

/// A subnet: an address and the length of the prefix that counts.
#[derive(PartialEq, Eq, Structural, Clone, Copy, Debug)]
pub struct Net {
    pub addr: Addr,
    pub prefix: u8,
}

/// The number of bits of an address of a family.
pub open spec fn width(v6: bool) -> u8 {
    if v6 {
        128
    } else {
        32
    }
}

impl Net {
    /// The prefix is no longer than an address, and an IPv4 address fits 32 bits.
    pub open spec fn wf(self) -> bool {
        self.prefix <= width(self.addr.v6) && (!self.addr.v6 ==> self.addr.bits <= 0xffff_ffff)
    }

    /// Whether an address lies in the subnet: it is of the same family and
    /// agrees with the subnet's address in the bits of the prefix.
    pub open spec fn covers(self, ip: Addr) -> bool {
        self.addr.v6 == ip.v6 && (self.prefix == 0 || (ip.bits >> ((width(self.addr.v6)
            - self.prefix) as u128)) == (self.addr.bits >> ((width(self.addr.v6)
            - self.prefix) as u128)))
    }

    /// Whether the subnet is a single address.
    pub open spec fn is_host(self) -> bool {
        self.prefix == width(self.addr.v6)
    }

    /// The subnet with the bits behind the prefix set to zero.
    pub fn trunc(&self) -> (r: Net)
        requires
            self.wf(),
        ensures
            r.wf(),
            r.prefix == self.prefix,
            r.addr.v6 == self.addr.v6,
            forall|ip: Addr| r.covers(ip) == self.covers(ip),
            self.prefix == 0 ==> r.addr.bits == 0,
    {
        let w: u8 = if self.addr.v6 { 128 } else { 32 };
        if self.prefix == 0 {
            return Net { addr: Addr { v6: self.addr.v6, bits: 0 }, prefix: 0 };
        }
        let s: u128 = (w - self.prefix) as u128;
        let a = self.addr.bits;
        let t: u128 = (a >> s) << s;
        assert((t >> s) == (a >> s)) by (bit_vector)
            requires
                t == (a >> s) << s,
                s < 128,
        ;
        assert(t <= a) by (bit_vector)
            requires
                t == (a >> s) << s,
                s < 128,
        ;
        Net { addr: Addr { v6: self.addr.v6, bits: t }, prefix: self.prefix }
    }

    /// Tests whether an address lies in the subnet.
    pub fn contains(&self, ip: &Addr) -> (r: bool)
        requires
            self.wf(),
        ensures
            r == self.covers(*ip),
    {
        if self.addr.v6 != ip.v6 {
            return false;
        }
        if self.prefix == 0 {
            return true;
        }
        let w: u8 = if self.addr.v6 { 128 } else { 32 };
        let s: u128 = (w - self.prefix) as u128;
        (ip.bits >> s) == (self.addr.bits >> s)
    }
}

/// Whether an address is a loopback address: 127.0.0.0/8, or ::1.
pub open spec fn loopback(ip: Addr) -> bool {
    if ip.v6 {
        ip.bits == 1
    } else {
        (ip.bits >> 24u128) == 127
    }
}

/// Tests for a loopback address.
pub fn is_loopback(ip: &Addr) -> (r: bool)
    ensures
        r == loopback(*ip),
{
    if ip.v6 {
        ip.bits == 1
    } else {
        (ip.bits >> 24u128) == 127
    }
}

/// The order of subnets: IPv4 before IPv6, then by address, then by the
/// length of the prefix.
pub open spec fn net_le(a: Net, b: Net) -> bool {
    if a.addr.v6 != b.addr.v6 {
        !a.addr.v6
    } else if a.addr.bits != b.addr.bits {
        a.addr.bits < b.addr.bits
    } else {
        a.prefix <= b.prefix
    }
}

/// Whether subnets stand in order.
pub open spec fn ordered(l: Seq<Net>) -> bool {
    forall|a: int, b: int| 0 <= a <= b < l.len() ==> net_le(l[a], l[b])
}

fn comes_before(a: &Net, b: &Net) -> (r: bool)
    ensures
        r == net_le(*a, *b),
{
    if a.addr.v6 != b.addr.v6 {
        !a.addr.v6
    } else if a.addr.bits != b.addr.bits {
        a.addr.bits < b.addr.bits
    } else {
        a.prefix <= b.prefix
    }
}

/// The subnets that may use the server. Single addresses are kept apart
/// from the subnets proper.
#[derive(Debug, PartialEq, Eq)]
pub struct IpList {
    pub list: Vec<Net>,
    pub set: Vec<Addr>,
}

impl IpList {
    /// Every subnet of the list is well-formed.
    pub open spec fn wf(&self) -> bool {
        forall|i: int| 0 <= i < self.list@.len() ==> (#[trigger] self.list@[i]).wf()
    }

    /// Whether an address is one of the single addresses or lies in one of the subnets.
    pub open spec fn admits(&self, ip: Addr) -> bool {
        (exists|i: int| 0 <= i < self.set@.len() && #[trigger] self.set@[i] == ip) || (exists|
            i: int,
        | 0 <= i < self.list@.len() && (#[trigger] self.list@[i]).covers(ip))
    }

    /// An empty list.
    pub fn new() -> (r: IpList)
        ensures
            r.wf(),
            r.list@.len() == 0,
            r.set@.len() == 0,
    {
        IpList { list: Vec::new(), set: Vec::new() }
    }

    /// Adds a subnet. From then on the list admits every address of the subnet.
    pub fn add(&mut self, net: Net)
        requires
            old(self).wf(),
            net.wf(),
        ensures
            final(self).wf(),
            forall|ip: Addr| final(self).admits(ip) == (old(self).admits(ip) || net.covers(ip)),
            net.is_host() ==> final(self).set@ == old(self).set@.push(net.addr)
                && final(self).list@ == old(self).list@,
            !net.is_host() ==> final(self).set@ == old(self).set@
                && final(self).list@.len() == old(self).list@.len() + 1,
    {
        let w: u8 = if net.addr.v6 { 128 } else { 32 };
        let ghost before = *self;
        if net.prefix == w {
            self.set.push(net.addr);
            proof {
                assert forall|ip: Addr| self.admits(ip) == (before.admits(ip) || net.covers(
                    ip,
                )) by {
                    assert(net.covers(ip) == (ip == net.addr)) by {
                        let a = ip.bits;
                        let b = net.addr.bits;
                        assert((a >> 0u128) == a && (b >> 0u128) == b) by (bit_vector);
                    }
                    if before.admits(ip) {
                        if exists|i: int| 0 <= i < before.set@.len()
                            && #[trigger] before.set@[i] == ip {
                            let i = choose|i: int|
                                0 <= i < before.set@.len() && #[trigger] before.set@[i] == ip;
                            assert(self.set@[i] == ip);
                        } else {
                            let i = choose|i: int|
                                0 <= i < before.list@.len() && (#[trigger] before.list@[i]).covers(
                                    ip,
                                );
                            assert(self.list@[i].covers(ip));
                        }
                    }
                    if net.covers(ip) {
                        assert(self.set@[self.set@.len() - 1] == ip);
                    }
                    if self.admits(ip) && !before.admits(ip) {
                        if exists|i: int| 0 <= i < self.set@.len()
                            && #[trigger] self.set@[i] == ip {
                            let i = choose|i: int|
                                0 <= i < self.set@.len() && #[trigger] self.set@[i] == ip;
                            if i < before.set@.len() {
                                assert(before.set@[i] == ip);
                            }
                        } else {
                            let i = choose|i: int|
                                0 <= i < self.list@.len() && (#[trigger] self.list@[i]).covers(ip);
                            assert(before.list@[i].covers(ip));
                        }
                    }
                }
            }
        } else {
            let t = net.trunc();
            self.list.push(t);
            proof {
                assert forall|ip: Addr| self.admits(ip) == (before.admits(ip) || net.covers(
                    ip,
                )) by {
                    if before.admits(ip) {
                        if exists|i: int| 0 <= i < before.set@.len()
                            && #[trigger] before.set@[i] == ip {
                            let i = choose|i: int|
                                0 <= i < before.set@.len() && #[trigger] before.set@[i] == ip;
                            assert(self.set@[i] == ip);
                        } else {
                            let i = choose|i: int|
                                0 <= i < before.list@.len() && (#[trigger] before.list@[i]).covers(
                                    ip,
                                );
                            assert(self.list@[i].covers(ip));
                        }
                    }
                    if net.covers(ip) {
                        assert(self.list@[self.list@.len() - 1].covers(ip));
                    }
                    if self.admits(ip) && !before.admits(ip) {
                        if exists|i: int| 0 <= i < self.set@.len()
                            && #[trigger] self.set@[i] == ip {
                            let i = choose|i: int|
                                0 <= i < self.set@.len() && #[trigger] self.set@[i] == ip;
                            assert(before.set@[i] == ip);
                        } else {
                            let i = choose|i: int|
                                0 <= i < self.list@.len() && (#[trigger] self.list@[i]).covers(ip);
                            if i < before.list@.len() {
                                assert(before.list@[i].covers(ip));
                            }
                        }
                    }
                }
            }
        }
    }

    /// Puts the subnets in order. The list holds the same subnets as
    /// before, each as often as before, and admits the same addresses.
    pub fn finalize(&mut self)
        requires
            old(self).wf(),
        ensures
            final(self).wf(),
            final(self).set@ == old(self).set@,
            ordered(final(self).list@),
            final(self).list@.to_multiset() == old(self).list@.to_multiset(),
            forall|ip: Addr| final(self).admits(ip) == old(self).admits(ip),
    {
        let ghost before = *self;
        let n = self.list.len();
        let mut i: usize = 0;
        while i < n
            invariant
                i <= n,
                self.list@.len() == n,
                self.set@ == before.set@,
                self.wf(),
                self.list@.to_multiset() == before.list@.to_multiset(),
                forall|a: int, b: int| 0 <= a <= b < i ==> net_le(self.list@[a], self.list@[b]),
            decreases n - i,
        {
            let mut j: usize = i;
            while j > 0 && !comes_before(&self.list[j - 1], &self.list[j])
                invariant
                    j <= i < n,
                    self.list@.len() == n,
                    self.set@ == before.set@,
                    self.wf(),
                    self.list@.to_multiset() == before.list@.to_multiset(),
                    forall|a: int, b: int|
                        0 <= a <= b <= i && a != j && b != j ==> net_le(
                            self.list@[a],
                            self.list@[b],
                        ),
                    forall|b: int| j < b <= i ==> net_le(self.list@[j as int], self.list@[b]),
                decreases j,
            {
                let ghost l = self.list@;
                let lower = self.list[j - 1];
                let upper = self.list[j];
                self.list.set(j - 1, upper);
                self.list.set(j, lower);
                proof {
                    broadcast use vstd::multiset::group_multiset_axioms;

                    let mid = l.update(j - 1, upper);
                    assert(self.list@ == mid.update(j as int, lower));
                    assert(mid[j as int] == upper);
                    vstd::seq_lib::to_multiset_update(l, j - 1, upper);
                    vstd::seq_lib::to_multiset_update(mid, j as int, lower);
                    vstd::seq_lib::to_multiset_contains(l, lower);
                    assert(l[j - 1] == lower);
                    assert(l.contains(lower));
                    let m0 = l.to_multiset();
                    let m1 = m0.insert(upper);
                    let m2 = m1.remove(lower);
                    let m3 = m2.insert(lower);
                    let m4 = m3.remove(upper);
                    assert(self.list@.to_multiset() == m4);
                    assert forall|x: Net| m4.count(x) == m0.count(x) by {
                        assert(m1.count(x) == m0.count(x) + if x == upper { 1int } else { 0int });
                        assert(m1.count(lower) >= 1);
                        assert(m2.count(x) == m1.count(x) - if x == lower { 1int } else { 0int });
                        assert(m3.count(x) == m2.count(x) + if x == lower { 1int } else { 0int });
                        assert(m3.count(upper) >= 1);
                        assert(m4.count(x) == m3.count(x) - if x == upper { 1int } else { 0int });
                    }
                    assert(m4 =~= m0);
                }
                j -= 1;
            }
            proof {
                assert forall|a: int, b: int| 0 <= a <= b < i + 1 implies net_le(
                    self.list@[a],
                    self.list@[b],
                ) by {
                    if b == j && a < j {
                        assert(net_le(self.list@[a], self.list@[j - 1]));
                        assert(net_le(self.list@[j - 1], self.list@[j as int]));
                    }
                }
            }
            i += 1;
        }
        proof {
            assert forall|x: Net| self.list@.contains(x) == before.list@.contains(x) by {
                vstd::seq_lib::to_multiset_contains(self.list@, x);
                vstd::seq_lib::to_multiset_contains(before.list@, x);
            }
            assert forall|ip: Addr| self.admits(ip) == before.admits(ip) by {
                if exists|k: int| 0 <= k < self.list@.len()
                    && (#[trigger] self.list@[k]).covers(ip) {
                    let k = choose|k: int|
                        0 <= k < self.list@.len() && (#[trigger] self.list@[k]).covers(ip);
                    assert(self.list@.contains(self.list@[k]));
                    assert(before.list@.contains(self.list@[k]));
                    let m = choose|m: int|
                        0 <= m < before.list@.len() && before.list@[m] == self.list@[k];
                    assert(before.list@[m].covers(ip));
                }
                if exists|k: int|
                    0 <= k < before.list@.len() && (#[trigger] before.list@[k]).covers(ip) {
                    let k = choose|k: int|
                        0 <= k < before.list@.len() && (#[trigger] before.list@[k]).covers(ip);
                    assert(before.list@.contains(before.list@[k]));
                    assert(self.list@.contains(before.list@[k]));
                    let m = choose|m: int|
                        0 <= m < self.list@.len() && self.list@[m] == before.list@[k];
                    assert(self.list@[m].covers(ip));
                }
            }
        }
    }

    /// Tests whether the list admits an address.
    pub fn contains(&self, ip: Addr) -> (r: bool)
        requires
            self.wf(),
        ensures
            r == self.admits(ip),
    {
        let mut i: usize = 0;
        while i < self.set.len()
            invariant
                i <= self.set@.len(),
                forall|k: int| 0 <= k < i ==> self.set@[k] != ip,
            decreases self.set@.len() - i,
        {
            if self.set[i] == ip {
                return true;
            }
            i += 1;
        }
        let mut j: usize = 0;
        while j < self.list.len()
            invariant
                j <= self.list@.len(),
                self.wf(),
                forall|k: int| 0 <= k < self.set@.len() ==> self.set@[k] != ip,
                forall|k: int| 0 <= k < j ==> !(#[trigger] self.list@[k]).covers(ip),
            decreases self.list@.len() - j,
        {
            if self.list[j].contains(&ip) {
                return true;
            }
            j += 1;
        }
        false
    }
}

/// Whether a peer may use the server: there is no list, or the list admits
/// the peer, or the peer is a loopback address.
pub fn peer_admitted(securenets: &Option<IpList>, ip: Addr) -> (r: bool)
    requires
        securenets matches Some(l) ==> l.wf(),
    ensures
        r == (match *securenets {
            Some(l) => l.admits(ip) || loopback(ip),
            None => true,
        }),
{
    match securenets {
        Some(l) => l.contains(ip) || is_loopback(&ip),
        None => true,
    }
}


/// What `ipnet` reads an IPv4 subnet in CIDR notation as: the address as a
/// number and the length of the prefix; `None` where it refuses the text.
pub uninterp spec fn v4_net_parsed(text: Seq<u8>) -> Option<(u32, u8)>;

/// What `ipnet` reads an IPv6 subnet in CIDR notation as: the address as a
/// number and the length of the prefix; `None` where it refuses the text.
pub uninterp spec fn v6_net_parsed(text: Seq<u8>) -> Option<(u128, u8)>;

/// `<ipnet::Ipv4Net as FromStr>::from_str`, with the address of the subnet
/// as a number. The result depends on the text alone.
#[verifier::external_body]
fn parse_v4_net(text: &str) -> (r: Option<(u32, u8)>)
    ensures
        r == v4_net_parsed(text.spec_bytes()),
{
    match text.parse::<ipnet::Ipv4Net>() {
        Ok(n) => Some((u32::from(n.addr()), n.prefix_len())),
        Err(_) => None,
    }
}

/// `<ipnet::Ipv6Net as FromStr>::from_str`, with the address of the subnet
/// as a number. The result depends on the text alone.
#[verifier::external_body]
fn parse_v6_net(text: &str) -> (r: Option<(u128, u8)>)
    ensures
        r == v6_net_parsed(text.spec_bytes()),
{
    match text.parse::<ipnet::Ipv6Net>() {
        Ok(n) => Some((u128::from(n.addr()), n.prefix_len())),
        Err(_) => None,
    }
}

/// The subnet that a text in CIDR notation names, IPv4 tried first. A text
/// that is not UTF-8 names none.
pub open spec fn cidr_net(text: Seq<u8>) -> Option<Net> {
    if !valid_utf8(text) {
        None
    } else {
        match v4_net_parsed(text) {
            Some((a, p)) => if p <= 32 {
                Some(Net { addr: Addr { v6: false, bits: a as u128 }, prefix: p })
            } else {
                None
            },
            None => match v6_net_parsed(text) {
                Some((a, p)) => if p <= 128 {
                    Some(Net { addr: Addr { v6: true, bits: a }, prefix: p })
                } else {
                    None
                },
                None => None,
            },
        }
    }
}

/// Whether one of the parts of a text between dots is written with a zero
/// before other digits. Such a part looks like an octal number, and an
/// address is not written with one.
pub open spec fn zero_led(text: Seq<u8>) -> bool {
    exists|i: int|
        0 <= i < split(text, 0x2e).len() && (#[trigger] split(text, 0x2e)[i]).len() >= 2 && split(
            text,
            0x2e,
        )[i][0] == 0x30
}

fn has_zero_led(text: &[u8]) -> (r: bool)
    ensures
        r == zero_led(text@),
{
    let parts = split_bytes(text, 0x2e);
    let ghost ps = split(text@, 0x2e);
    let mut i: usize = 0;
    while i < parts.len()
        invariant
            i <= parts@.len(),
            ps == views(parts@),
            ps == split(text@, 0x2e),
            forall|k: int| 0 <= k < i ==> !((#[trigger] ps[k]).len() >= 2 && ps[k][0] == 0x30),
        decreases parts@.len() - i,
    {
        assert(ps[i as int] == parts@[i as int]@);
        if parts[i].len() >= 2 && parts[i][0] == 0x30 {
            return true;
        }
        i += 1;
    }
    false
}

/// The IPv4 address that a dotted quad names: what the text reads as with
/// `/32` behind it, unless one of its numbers is written with a zero before
/// other digits.
pub open spec fn v4_addr(text: Seq<u8>) -> Option<u32> {
    if zero_led(text) || !valid_utf8(text + lit("/32")) {
        None
    } else {
        match v4_net_parsed(text + lit("/32")) {
            Some((a, p)) => Some(a),
            None => None,
        }
    }
}

/// The single address that a text without a prefix length names.
pub open spec fn host_net(text: Seq<u8>) -> Option<Net> {
    match v4_addr(text) {
        Some(a) => Some(Net { addr: Addr { v6: false, bits: a as u128 }, prefix: 32 }),
        None => if !valid_utf8(text + lit("/128")) {
            None
        } else {
            match v6_net_parsed(text + lit("/128")) {
                Some((a, p)) => Some(Net { addr: Addr { v6: true, bits: a }, prefix: 128 }),
                None => None,
            }
        },
    }
}

/// The subnet that the words of a line name. Two dotted quads are a
/// netmask and a network; a single word without `/` is an address; any
/// other first word is a subnet in CIDR notation.
pub open spec fn net_of_words(w: Seq<Seq<u8>>) -> Option<Net> {
    if w.len() >= 2 && v4_addr(w[0]) is Some && v4_addr(w[1]) is Some {
        Some(
            Net {
                addr: Addr { v6: false, bits: v4_addr(w[1]).unwrap() as u128 },
                prefix: mask_prefix(v4_addr(w[0]).unwrap()),
            },
        )
    } else if !has_byte(w[0], 0x2f) {
        host_net(w[0])
    } else {
        cidr_net(w[0])
    }
}

fn read_cidr(text: &[u8]) -> (r: Option<Net>)
    ensures
        r == cidr_net(text@),
        r matches Some(n) ==> n.wf(),
{
    let t = match str_from_utf8(text) {
        Ok(t) => t,
        Err(_) => {
            return None;
        },
    };
    match parse_v4_net(t) {
        Some((a, p)) => {
            if p <= 32 {
                Some(Net { addr: Addr { v6: false, bits: a as u128 }, prefix: p })
            } else {
                None
            }
        },
        None => match parse_v6_net(t) {
            Some((a, p)) => {
                if p <= 128 {
                    Some(Net { addr: Addr { v6: true, bits: a }, prefix: p })
                } else {
                    None
                }
            },
            None => None,
        },
    }
}

fn read_v4_addr(text: &[u8]) -> (r: Option<u32>)
    ensures
        r == v4_addr(text@),
{
    if has_zero_led(text) {
        return None;
    }
    let mut full = clone_bytes(text);
    push_all(&mut full, "/32".as_bytes());
    let t = match str_from_utf8(full.as_slice()) {
        Ok(t) => t,
        Err(_) => {
            return None;
        },
    };
    match parse_v4_net(t) {
        Some((a, _)) => Some(a),
        None => None,
    }
}

fn read_host(text: &[u8]) -> (r: Option<Net>)
    ensures
        r == host_net(text@),
        r matches Some(n) ==> n.wf(),
{
    match read_v4_addr(text) {
        Some(a) => Some(Net { addr: Addr { v6: false, bits: a as u128 }, prefix: 32 }),
        None => {
            let mut full = clone_bytes(text);
            push_all(&mut full, "/128".as_bytes());
            let t = match str_from_utf8(full.as_slice()) {
                Ok(t) => t,
                Err(_) => {
                    return None;
                },
            };
            match parse_v6_net(t) {
                Some((a, _)) => Some(Net { addr: Addr { v6: true, bits: a }, prefix: 128 }),
                None => None,
            }
        },
    }
}

/// Reads the subnet that the words of a line name.
pub fn parse_ip(words: &Vec<Vec<u8>>) -> (r: Option<Net>)
    requires
        words@.len() >= 1,
    ensures
        r == net_of_words(views(words@)),
        r matches Some(n) ==> n.wf(),
{
    assert(views(words@)[0] == words@[0]@);
    if words.len() >= 2 {
        assert(views(words@)[1] == words@[1]@);
        match (read_v4_addr(words[0].as_slice()), read_v4_addr(words[1].as_slice())) {
            (Some(mask), Some(ip)) => {
                return Some(
                    Net { addr: Addr { v6: false, bits: ip as u128 }, prefix: masklen(mask) },
                );
            },
            _ => {},
        }
    }
    if !contains_byte(words[0].as_slice(), 0x2f) {
        read_host(words[0].as_slice())
    } else {
        read_cidr(words[0].as_slice())
    }
}

/// The subnet that a line of a securenets file names, if it names one.
/// Empty lines and lines that start with `#` name none.
pub open spec fn securenets_line(line: Seq<u8>) -> Option<Net> {
    let a = space_run(line);
    if a >= line.len() || line[a] == 0x23 {
        None
    } else {
        net_of_words(words(line))
    }
}

/// Adds the subnets that a securenets file names to a list, and puts the
/// list in order. The file has one subnet on a line, as a netmask and a
/// network or in CIDR notation; lines that name no subnet are passed over.
pub fn read_securenets(buffer: &[u8], iplist: &mut IpList)
    requires
        old(iplist).wf(),
    ensures
        final(iplist).wf(),
        ordered(final(iplist).list@),
        forall|ip: Addr|
            final(iplist).admits(ip) == (old(iplist).admits(ip) || exists|i: int|
                0 <= i < split(buffer@, 0x0a).len() && (#[trigger] securenets_line(
                    split(buffer@, 0x0a)[i],
                ) matches Some(n) && n.covers(ip))),
{
    let lines = split_bytes(buffer, 0x0a);
    let ghost ls = split(buffer@, 0x0a);
    let mut i: usize = 0;
    while i < lines.len()
        invariant
            i <= lines@.len(),
            ls == views(lines@),
            iplist.wf(),
            forall|ip: Addr|
                iplist.admits(ip) == (old(iplist).admits(ip) || exists|k: int|
                    0 <= k < i && (#[trigger] securenets_line(ls[k]) matches Some(n) && n.covers(
                        ip,
                    ))),
        decreases lines@.len() - i,
    {
        let line = lines[i].as_slice();
        assert(ls[i as int] == line@);
        let ghost before = *iplist;
        let a = leading_space(line);
        let mut added: Option<Net> = None;
        if a < line.len() && line[a] != 0x23 {
            let words = split_words(line);
            proof {
                lemma_words_nonempty(line@);
            }
            match parse_ip(&words) {
                Some(net) => {
                    iplist.add(net);
                    added = Some(net);
                },
                None => {},
            }
        }
        proof {
            assert(added == securenets_line(ls[i as int]));
            assert forall|ip: Addr|
                iplist.admits(ip) == (old(iplist).admits(ip) || exists|k: int|
                    0 <= k < i + 1 && (#[trigger] securenets_line(ls[k]) matches Some(n)
                        && n.covers(ip))) by {
                let here = added matches Some(n) && n.covers(ip);
                let earlier = exists|k: int|
                    0 <= k < i && (#[trigger] securenets_line(ls[k]) matches Some(n) && n.covers(
                        ip,
                    ));
                let all = exists|k: int|
                    0 <= k < i + 1 && (#[trigger] securenets_line(ls[k]) matches Some(n)
                        && n.covers(ip));
                assert(iplist.admits(ip) == (before.admits(ip) || here));
                if earlier {
                    let k = choose|k: int|
                        0 <= k < i && (#[trigger] securenets_line(ls[k]) matches Some(n)
                            && n.covers(ip));
                    assert(0 <= k < i + 1);
                }
                if here {
                    assert(securenets_line(ls[i as int]) matches Some(n) && n.covers(ip));
                }
                if all {
                    let k = choose|k: int|
                        0 <= k < i + 1 && (#[trigger] securenets_line(ls[k]) matches Some(n)
                            && n.covers(ip));
                    if k < i {
                        assert(earlier);
                    } else {
                        assert(here);
                    }
                }
            }
        }
        i += 1;
    }
    iplist.finalize();
}

/// A line with a byte that is not white space has a word.
pub proof fn lemma_words_nonempty(line: Seq<u8>)
    requires
        space_run(line) < line.len(),
    ensures
        words(line).len() >= 1,
{
    lemma_space_run(line);
    let a = space_run(line);
    let t = line.skip(a);
    assert(t[0] == line[a]);
    crate::text::lemma_word_run(t);
    assert(crate::text::word_run(t) == 1 + crate::text::word_run(t.skip(1)));
    crate::text::lemma_word_run(t.skip(1));
}

} // verus!
