//! IPv4 broadcast arithmetic and the choice of broadcast targets.
//!
//! An IPv4 address is held as a `u32` in host order: `192.168.1.42` is
//! `0xC0A8_012A`.

use crate::wire::{ascii_text, decimal, join, lemma_join_written_out, push_decimal_text};
use vstd::prelude::*;
use vstd::string::*;

verus! {

/// The limited broadcast address `255.255.255.255`, used when no interface
/// offers a directed broadcast address.
pub const LIMITED_BROADCAST: u32 = 0xFFFF_FFFF;

/// The byte `.` that separates the octets of a dotted quad.
pub const DOT: u8 = 0x2E;

// ---------------------------------------------------------------------------
// Addresses
// ---------------------------------------------------------------------------

/// The address whose four octets, first to last, are `a`, `b`, `c`, `d`.
pub open spec fn address_of(a: u8, b: u8, c: u8, d: u8) -> u32 {
    (a * 0x100_0000 + b * 0x1_0000 + c * 0x100 + d) as u32
}

/// The `i`-th octet of `addr`, counted from the first (most significant).
pub open spec fn octet(addr: u32, i: int) -> u8
    recommends
        0 <= i < 4,
{
    if i == 0 {
        (addr / 0x100_0000) as u8
    } else if i == 1 {
        (addr / 0x1_0000 % 0x100) as u8
    } else if i == 2 {
        (addr / 0x100 % 0x100) as u8
    } else {
        (addr % 0x100) as u8
    }
}

/// The directed broadcast address of the network that `ip` belongs to under
/// `mask`: every host bit set, every network bit kept.
pub open spec fn broadcast_of(ip: u32, mask: u32) -> u32 {
    ip | !mask
}

/// Dotted-quad notation as bytes: the four octets in decimal, with dots
/// between them.
pub open spec fn dotted_quad_bytes(addr: u32) -> Seq<u8> {
    join(
        seq![
            decimal(octet(addr, 0) as nat),
            decimal(octet(addr, 1) as nat),
            decimal(octet(addr, 2) as nat),
            decimal(octet(addr, 3) as nat),
        ],
        DOT,
    )
}

/// Dotted-quad notation as text.
pub open spec fn dotted_quad_text(addr: u32) -> Seq<char> {
    ascii_text(dotted_quad_bytes(addr))
}

/// Builds an address from its four octets.
pub fn ipv4(a: u8, b: u8, c: u8, d: u8) -> (addr: u32)
    ensures
        addr == address_of(a, b, c, d),
        octet(addr, 0) == a,
        octet(addr, 1) == b,
        octet(addr, 2) == c,
        octet(addr, 3) == d,
{
    let a32: u32 = a as u32;
    let b32: u32 = b as u32;
    let c32: u32 = c as u32;
    let d32: u32 = d as u32;
    let addr: u32 = a32 * 0x100_0000 + b32 * 0x1_0000 + c32 * 0x100 + d32;
    assert(addr / 0x100_0000 == a32 && addr / 0x1_0000 % 0x100 == b32 && addr / 0x100 % 0x100
        == c32 && addr % 0x100 == d32) by (bit_vector)
        requires
            a32 < 0x100,
            b32 < 0x100,
            c32 < 0x100,
            d32 < 0x100,
            addr == a32 * 0x100_0000 + b32 * 0x1_0000 + c32 * 0x100 + d32,
    ;
    addr
}

/// Takes an address apart into its four octets, first to last.
pub fn octets(addr: u32) -> (parts: (u8, u8, u8, u8))
    ensures
        parts.0 == octet(addr, 0),
        parts.1 == octet(addr, 1),
        parts.2 == octet(addr, 2),
        parts.3 == octet(addr, 3),
        address_of(parts.0, parts.1, parts.2, parts.3) == addr,
{
    let a: u32 = addr / 0x100_0000;
    let b: u32 = addr / 0x1_0000 % 0x100;
    let c: u32 = addr / 0x100 % 0x100;
    let d: u32 = addr % 0x100;
    assert(a < 0x100 && a * 0x100_0000 + b * 0x1_0000 + c * 0x100 + d == addr) by (bit_vector)
        requires
            a == addr / 0x100_0000,
            b == addr / 0x1_0000 % 0x100,
            c == addr / 0x100 % 0x100,
            d == addr % 0x100,
    ;
    (a as u8, b as u8, c as u8, d as u8)
}

/// Computes the directed broadcast address of an interface.
pub fn calculate_broadcast(ip: u32, mask: u32) -> (broadcast: u32)
    ensures
        broadcast == broadcast_of(ip, mask),
{
    ip | !mask
}

/// The broadcast address lies in the same network as the interface address,
/// and all of its host bits are set.
pub proof fn lemma_broadcast_bits(ip: u32, mask: u32)
    ensures
        broadcast_of(ip, mask) & mask == ip & mask,
        broadcast_of(ip, mask) & !mask == !mask,
{
    assert((ip | !mask) & mask == ip & mask) by (bit_vector);
    assert((ip | !mask) & !mask == !mask) by (bit_vector);
}

/// Under the netmask `255.255.255.0` the broadcast address keeps the first
/// three octets of the interface address and ends in `255`: `192.168.1.42`
/// broadcasts to `192.168.1.255`.
pub proof fn lemma_broadcast_of_class_c(ip: u32)
    ensures
        octet(broadcast_of(ip, 0xFFFF_FF00), 0) == octet(ip, 0),
        octet(broadcast_of(ip, 0xFFFF_FF00), 1) == octet(ip, 1),
        octet(broadcast_of(ip, 0xFFFF_FF00), 2) == octet(ip, 2),
        octet(broadcast_of(ip, 0xFFFF_FF00), 3) == 255,
        broadcast_of(0xC0A8_012A, 0xFFFF_FF00) == 0xC0A8_01FF,
{
    let b = ip | !0xFFFF_FF00u32;
    assert(b / 0x100 == ip / 0x100 && b % 0x100 == 0xFF) by (bit_vector)
        requires
            b == ip | !0xFFFF_FF00u32,
    ;
    assert((0xC0A8_012Au32 | !0xFFFF_FF00u32) == 0xC0A8_01FFu32) by (bit_vector);
}

/// Writes an address in dotted-quad notation.
pub fn dotted_quad(addr: u32) -> (text: String)
    ensures
        text@ == dotted_quad_text(addr),
{
    let parts = octets(addr);
    let mut text = String::new();
    proof {
        reveal_strlit(".");
    }
    push_decimal_text(&mut text, parts.0 as u64);
    text.append(".");
    push_decimal_text(&mut text, parts.1 as u64);
    text.append(".");
    push_decimal_text(&mut text, parts.2 as u64);
    text.append(".");
    push_decimal_text(&mut text, parts.3 as u64);
    proof {
        lemma_join_written_out(
            decimal(octet(addr, 0) as nat),
            decimal(octet(addr, 1) as nat),
            decimal(octet(addr, 2) as nat),
            decimal(octet(addr, 3) as nat),
            DOT,
        );
        assert("."@ =~= ascii_text(seq![DOT]));
        assert(text@ =~= dotted_quad_text(addr));
    }
    text
}

// ---------------------------------------------------------------------------
// Interfaces and their broadcast targets
// ---------------------------------------------------------------------------

/// The IPv4 configuration of a network interface.
#[derive(Clone, Copy, Debug, PartialEq, Eq, Structural)]
pub struct Ipv4Net {
    /// The address of the interface.
    pub ip: u32,
    /// The netmask of the interface.
    pub netmask: u32,
}

/// What discovery needs to know of one address of a local network interface.
#[derive(Clone, Copy, Debug, PartialEq, Eq, Structural)]
pub struct NetInterface {
    /// Whether the address is a loopback address.
    pub loopback: bool,
    /// The IPv4 configuration, or `None` for an address of another family.
    pub v4: Option<Ipv4Net>,
}

/// The broadcast address that an interface contributes, if any: loopback
/// interfaces, interfaces without IPv4 and the address `0.0.0.0` contribute
/// nothing.
pub open spec fn interface_target(iface: NetInterface) -> Option<u32> {
    match iface.v4 {
        Some(net) => if !iface.loopback && broadcast_of(net.ip, net.netmask) != 0 {
            Some(broadcast_of(net.ip, net.netmask))
        } else {
            None
        },
        None => None,
    }
}

/// The broadcast addresses that the interfaces contribute, each once, in the
/// order of the first interface that contributes it.
pub open spec fn directed_targets(ifaces: Seq<NetInterface>) -> Seq<u32>
    decreases ifaces.len(),
{
    if ifaces.len() == 0 {
        Seq::<u32>::empty()
    } else {
        let before = directed_targets(ifaces.drop_last());
        match interface_target(ifaces.last()) {
            Some(target) => if before.contains(target) {
                before
            } else {
                before.push(target)
            },
            None => before,
        }
    }
}

/// The addresses to announce on: the directed broadcast addresses of the
/// interfaces, or the limited broadcast address alone when there is none.
pub open spec fn broadcast_list(ifaces: Seq<NetInterface>) -> Seq<u32> {
    if directed_targets(ifaces).len() == 0 {
        seq![LIMITED_BROADCAST]
    } else {
        directed_targets(ifaces)
    }
}

/// Whether `texts` are the dotted quads of `addrs`, one for one.
pub open spec fn dotted_quads_of(texts: Seq<String>, addrs: Seq<u32>) -> bool {
    &&& texts.len() == addrs.len()
    &&& forall|i: int| 0 <= i < texts.len() ==> (#[trigger] texts[i])@ == dotted_quad_text(addrs[i])
}

/// The contributed addresses form a set: none occurs twice, and an address
/// occurs exactly if some interface contributes it.
pub proof fn lemma_directed_targets_set(ifaces: Seq<NetInterface>)
    ensures
        directed_targets(ifaces).no_duplicates(),
        forall|b: u32|
            directed_targets(ifaces).contains(b) <==> exists|i: int|
                0 <= i < ifaces.len() && interface_target(#[trigger] ifaces[i]) == Some(b),
    decreases ifaces.len(),
{
    let targets = directed_targets(ifaces);
    if ifaces.len() > 0 {
        let shorter = ifaces.drop_last();
        let before = directed_targets(shorter);
        lemma_directed_targets_set(shorter);
        assert forall|b: u32| targets.contains(b) implies exists|i: int|
            0 <= i < ifaces.len() && interface_target(#[trigger] ifaces[i]) == Some(b) by {
            if before.contains(b) {
                let i = choose|i: int|
                    0 <= i < shorter.len() && interface_target(#[trigger] shorter[i]) == Some(b);
                assert(ifaces[i] == shorter[i]);
            } else {
                let k = choose|k: int| 0 <= k < targets.len() && targets[k] == b;
                if k < before.len() {
                    assert(before[k] == b);
                }
                assert(interface_target(ifaces[ifaces.len() - 1]) == Some(b));
            }
        }
        assert forall|b: u32|
            (exists|i: int|
                0 <= i < ifaces.len() && interface_target(#[trigger] ifaces[i]) == Some(
                    b,
                )) implies targets.contains(b) by {
            let i = choose|i: int|
                0 <= i < ifaces.len() && interface_target(#[trigger] ifaces[i]) == Some(b);
            if i < shorter.len() {
                assert(shorter[i] == ifaces[i]);
                assert(before.contains(b));
                let k = choose|k: int| 0 <= k < before.len() && before[k] == b;
                assert(targets[k] == b);
            } else {
                if before.contains(b) {
                    let k = choose|k: int| 0 <= k < before.len() && before[k] == b;
                    assert(targets[k] == b);
                } else {
                    assert(targets[targets.len() - 1] == b);
                }
            }
        }
        assert(targets.no_duplicates()) by {
            assert forall|i: int, j: int|
                0 <= i < targets.len() && 0 <= j < targets.len() && i != j implies targets[i]
                != targets[j] by {
                if i < before.len() && j < before.len() {
                    assert(targets[i] == before[i] && targets[j] == before[j]);
                } else if i < before.len() {
                    assert(before[i] == targets[i]);
                    assert(before.contains(targets[i]));
                } else if j < before.len() {
                    assert(before[j] == targets[j]);
                    assert(before.contains(targets[j]));
                }
            }
        }
    } else {
        assert forall|b: u32| !targets.contains(b) by {}
    }
}

/// A machine with one interface that contributes a broadcast address
/// announces on that address alone.
pub proof fn lemma_single_interface_list(iface: NetInterface)
    requires
        interface_target(iface) is Some,
    ensures
        broadcast_list(seq![iface]) == seq![interface_target(iface)->0],
{
    let ifaces = seq![iface];
    assert(ifaces.drop_last() =~= Seq::<NetInterface>::empty());
    assert(directed_targets(ifaces.drop_last()) =~= Seq::<u32>::empty());
    assert(ifaces.last() == iface);
    assert(directed_targets(ifaces) =~= seq![interface_target(iface)->0]);
}

/// There is always an address to announce on, and none occurs twice.
pub proof fn lemma_broadcast_list_nonempty(ifaces: Seq<NetInterface>)
    ensures
        broadcast_list(ifaces).len() > 0,
        broadcast_list(ifaces).no_duplicates(),
{
    lemma_directed_targets_set(ifaces);
}

/// Whether `items` holds `wanted`.
fn holds(items: &Vec<u32>, wanted: u32) -> (found: bool)
    ensures
        found == items@.contains(wanted),
{
    let mut i: usize = 0;
    while i < items.len()
        invariant
            i <= items.len(),
            forall|k: int| 0 <= k < i ==> items@[k] != wanted,
        decreases items.len() - i,
    {
        if items[i] == wanted {
            return true;
        }
        i = i + 1;
    }
    false
}

/// The broadcast address that one interface contributes, if any.
pub fn target_of(iface: &NetInterface) -> (target: Option<u32>)
    ensures
        target == interface_target(*iface),
{
    if iface.loopback {
        return None;
    }
    match iface.v4 {
        Some(net) => {
            let broadcast = calculate_broadcast(net.ip, net.netmask);
            if broadcast != 0 {
                Some(broadcast)
            } else {
                None
            }
        },
        None => None,
    }
}

/// Chooses the addresses to announce on from the local interfaces.
pub fn broadcast_targets(ifaces: &Vec<NetInterface>) -> (targets: Vec<u32>)
    ensures
        targets@ == broadcast_list(ifaces@),
        targets@.len() > 0,
{
    let mut targets: Vec<u32> = Vec::new();
    let mut i: usize = 0;
    assert(ifaces@.subrange(0, 0) =~= Seq::<NetInterface>::empty());
    while i < ifaces.len()
        invariant
            i <= ifaces.len(),
            targets@ == directed_targets(ifaces@.subrange(0, i as int)),
        decreases ifaces.len() - i,
    {
        let ghost next = ifaces@.subrange(0, i + 1);
        assert(next.drop_last() =~= ifaces@.subrange(0, i as int));
        assert(next.last() == ifaces@[i as int]);
        match target_of(&ifaces[i]) {
            Some(target) => {
                if !holds(&targets, target) {
                    targets.push(target);
                }
            },
            None => {},
        }
        i = i + 1;
    }
    assert(ifaces@.subrange(0, i as int) =~= ifaces@);
    if targets.len() == 0 {
        targets.push(LIMITED_BROADCAST);
        assert(targets@ =~= seq![LIMITED_BROADCAST]);
    }
    targets
}

/// Chooses the addresses to announce on and writes each as a dotted quad.
pub fn broadcast_addresses(ifaces: &Vec<NetInterface>) -> (texts: Vec<String>)
    ensures
        dotted_quads_of(texts@, broadcast_list(ifaces@)),
        texts@.len() > 0,
{
    let targets = broadcast_targets(ifaces);
    let mut texts: Vec<String> = Vec::new();
    let mut i: usize = 0;
    while i < targets.len()
        invariant
            i <= targets.len(),
            texts@.len() == i,
            forall|k: int| 0 <= k < i ==> (#[trigger] texts@[k])@ == dotted_quad_text(targets@[k]),
        decreases targets.len() - i,
    {
        texts.push(dotted_quad(targets[i]));
        i = i + 1;
    }
    texts
}

// ---------------------------------------------------------------------------
// The interfaces of this machine
// ---------------------------------------------------------------------------

/// Makes `if_addrs::Interface` known as a type whose values are carried
/// around but never looked into.
#[verifier::external_type_specification]
#[verifier::external_body]
pub struct ExInterface(if_addrs::Interface);

/// Calls `if_addrs::get_if_addrs`, which asks the operating system for the
/// addresses of the local interfaces. Nothing is claimed of the answer; a
/// failed query comes back as `None`.
#[verifier::external_body]
fn query_interfaces() -> (found: Option<Vec<if_addrs::Interface>>) {
    if_addrs::get_if_addrs().ok()
}

/// Reads one entry of `if_addrs`: `Interface::is_loopback` says whether it is
/// a loopback address, and an `IfAddr::V4` entry gives address and netmask,
/// each turned into a number by `u32::from`. Nothing is claimed of the values.
#[verifier::external_body]
fn describe_interface(iface: &if_addrs::Interface) -> (described: NetInterface) {
    let v4 = match &iface.addr {
        if_addrs::IfAddr::V4(a) => Some(
            Ipv4Net { ip: u32::from(a.ip), netmask: u32::from(a.netmask) },
        ),
        if_addrs::IfAddr::V6(_) => None,
    };
    NetInterface { loopback: iface.is_loopback(), v4 }
}

/// Describes the addresses of the interfaces of this machine. A machine that
/// cannot be queried counts as one without interfaces.
fn local_interfaces() -> (ifaces: Vec<NetInterface>) {
    let mut ifaces: Vec<NetInterface> = Vec::new();
    match query_interfaces() {
        Some(found) => {
            let mut i: usize = 0;
            while i < found.len()
                invariant
                    i <= found.len(),
                decreases found.len() - i,
            {
                ifaces.push(describe_interface(&found[i]));
                i = i + 1;
            }
        },
        None => {},
    }
    ifaces
}

/// The broadcast addresses, as dotted quads, that this machine should
/// announce itself on. Whatever the operating system reports, the result is
/// what `broadcast_addresses` makes of some list of interfaces, so it is
/// never empty.
pub fn enumerate_broadcasts() -> (texts: Vec<String>)
    ensures
        texts@.len() > 0,
        exists|ifaces: Seq<NetInterface>| dotted_quads_of(texts@, broadcast_list(ifaces)),
{
    let ifaces = local_interfaces();
    broadcast_addresses(&ifaces)
}

} // verus!
