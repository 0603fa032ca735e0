//! Internet addresses as numbers, and the ranges that a download must not reach.
use vstd::prelude::*;
use crate::table::TableKey;

verus! {

/// An address, by the number that its octets form, the first octet being the highest.
#[derive(Clone, Copy, Debug, PartialEq, Eq, Structural)]
pub enum Ip {
    V4(u32),
    V6(u128),
}

impl View for Ip {
    type V = Ip;

    open spec fn view(&self) -> Ip {
        *self
    }
}

impl TableKey for Ip {
    fn same_key(&self, other: &Self) -> (r: bool) {
        *self == *other
    }
}

/// The reader `read` can be asked about every text.
pub open spec fn is_reader<F: Fn(&str) -> Option<Ip>>(read: F) -> bool {
    forall|t: &str| call_requires(read, (t,))
}

/// The reader `read`, asked about the text, may give the answer `ip`: the address that the text
/// stands for, or none if it stands for none.
pub open spec fn reads<F: Fn(&str) -> Option<Ip>>(read: F, text: Seq<char>, ip: Option<Ip>) -> bool {
    exists|t: &str| #[trigger] call_ensures(read, (t,), ip) && t@ == text
}

/// The number of the IPv4 address `a.b.c.d`.
pub open spec fn v4(a: int, b: int, c: int, d: int) -> int {
    ((a * 256 + b) * 256 + c) * 256 + d
}

/// IPv4 addresses that are not public hosts.
pub open spec fn is_forbidden_v4(n: int) -> bool {
    // Loopback.
    ||| v4(127, 0, 0, 0) <= n <= v4(127, 255, 255, 255)
    // Private networks.
    ||| v4(10, 0, 0, 0) <= n <= v4(10, 255, 255, 255)
    ||| v4(172, 16, 0, 0) <= n <= v4(172, 31, 255, 255)
    ||| v4(192, 168, 0, 0) <= n <= v4(192, 168, 255, 255)
    // Link-local, which holds the cloud metadata address 169.254.169.254.
    ||| v4(169, 254, 0, 0) <= n <= v4(169, 254, 255, 255)
    // Broadcast and unspecified.
    ||| n == v4(255, 255, 255, 255)
    ||| n == v4(0, 0, 0, 0)
    // Multicast.
    ||| v4(224, 0, 0, 0) <= n <= v4(239, 255, 255, 255)
    // Documentation.
    ||| v4(192, 0, 2, 0) <= n <= v4(192, 0, 2, 255)
    ||| v4(198, 51, 100, 0) <= n <= v4(198, 51, 100, 255)
    ||| v4(203, 0, 113, 0) <= n <= v4(203, 0, 113, 255)
    // Carrier-grade address translation.
    ||| v4(100, 64, 0, 0) <= n <= v4(100, 127, 255, 255)
}

/// The first sixteen bits of an IPv6 address.
pub open spec fn first_segment(n: u128) -> int {
    n as int / 0x1_0000_0000_0000_0000_0000_0000_0000int
}

/// IPv6 addresses that are not public hosts.
pub open spec fn is_forbidden_v6(n: u128) -> bool {
    // Unspecified and loopback.
    ||| n == 0
    ||| n == 1
    // Multicast, ff00::/8.
    ||| 0xff00 <= first_segment(n) <= 0xffff
    // Link-local, fe80::/10.
    ||| 0xfe80 <= first_segment(n) <= 0xfebf
    // Unique local, fc00::/7.
    ||| 0xfc00 <= first_segment(n) <= 0xfdff
}

/// Addresses that are not public hosts.
pub open spec fn is_forbidden(ip: Ip) -> bool {
    match ip {
        Ip::V4(n) => is_forbidden_v4(n as int),
        Ip::V6(n) => is_forbidden_v6(n),
    }
}

/// Whether an address lies in a range that a download must not reach.
pub fn is_forbidden_ip(ip: &Ip) -> (r: bool)
    ensures
        r == is_forbidden(*ip),
{
    match ip {
        Ip::V4(n) => {
            let n: u32 = *n;
            let a: u32 = n / 0x100_0000;
            let b: u32 = n / 0x1_0000 % 0x100;
            let net: u32 = n / 0x100;
            a == 127 || a == 10 || (a == 172 && 16 <= b && b <= 31) || (a == 192 && b == 168) || (a
                == 169 && b == 254) || n == 0xffff_ffff || n == 0 || (224 <= a && a <= 239) || net
                == 0xc0_00_02 || net == 0xc6_33_64 || net == 0xcb_00_71 || (a == 100 && 64 <= b && b
                <= 127)
        },
        Ip::V6(n) => {
            let n: u128 = *n;
            let head: u128 = n / 0x1_0000_0000_0000_0000_0000_0000_0000;
            n == 0 || n == 1 || 0xff00 <= head || (0xfe80 <= head && head <= 0xfebf) || (0xfc00
                <= head && head <= 0xfdff)
        },
    }
}

/// The IPv4 addresses that a download must not reach, by their four octets.
pub proof fn forbidden_by_octets(a: int, b: int, c: int, d: int, n: u32)
    requires
        0 <= a < 256,
        0 <= b < 256,
        0 <= c < 256,
        0 <= d < 256,
        n == a * 0x100_0000 + b * 0x1_0000 + c * 0x100 + d,
    ensures
        is_forbidden(Ip::V4(n)) <==> {
            ||| a == 127 || a == 10
            ||| a == 172 && b / 16 == 1
            ||| a == 192 && b == 168
            ||| a == 169 && b == 254
            ||| a == 255 && b == 255 && c == 255 && d == 255
            ||| a == 0 && b == 0 && c == 0 && d == 0
            ||| a / 16 == 14
            ||| a == 192 && b == 0 && c == 2
            ||| a == 198 && b == 51 && c == 100
            ||| a == 203 && b == 0 && c == 113
            ||| a == 100 && b / 64 == 1
        },
{
}

/// The IPv6 addresses that a download must not reach, by their first sixteen bits and the rest.
pub proof fn forbidden_by_first_bits(head: int, rest: int, n: u128)
    requires
        0 <= head < 0x1_0000,
        0 <= rest < 0x1_0000_0000_0000_0000_0000_0000_0000int,
        n == head * 0x1_0000_0000_0000_0000_0000_0000_0000int + rest,
    ensures
        is_forbidden(Ip::V6(n)) <==> {
            ||| head == 0 && rest <= 1
            ||| head / 0x100 == 0xff
            ||| head / 0x40 == 0x3fa
            ||| head / 0x200 == 0x7e
        },
{
    assert(first_segment(n) == head);
}

/// What a reader may answer for a text is what it answers when it is asked about that text.
pub proof fn readings_are_answers_for_the_text<F: Fn(&str) -> Option<Ip>>(
    read: F,
    text: &str,
    answer: Option<Ip>,
    ip: Option<Ip>,
)
    requires
        forall|t: &str, a: Option<Ip>|
            t@ == text@ && #[trigger] call_ensures(read, (t,), a) ==> a == answer,
    ensures
        call_ensures(read, (text,), ip) ==> reads(read, text@, ip),
        reads(read, text@, ip) ==> ip == answer,
{
}

} // verus!
