use localsend_core::net::{
    broadcast_addresses, broadcast_targets, calculate_broadcast, dotted_quad,
    enumerate_broadcasts, ipv4, octets, target_of, Ipv4Net, NetInterface,
    LIMITED_BROADCAST,
};

fn iface(ip: u32, netmask: u32) -> NetInterface {
    NetInterface { loopback: false, v4: Some(Ipv4Net { ip, netmask }) }
}

#[test]
fn broadcast_of_192_168_1_42_under_24_bits() {
    let ip = ipv4(192, 168, 1, 42);
    let mask = ipv4(255, 255, 255, 0);
    assert_eq!(ip, 0xC0A8_012A);
    let broadcast = calculate_broadcast(ip, mask);
    assert_eq!(broadcast, ipv4(192, 168, 1, 255));
    assert_eq!(dotted_quad(broadcast), "192.168.1.255");
}

#[test]
fn broadcast_is_address_or_inverted_mask() {
    let cases: [(u32, u32); 6] = [
        (ipv4(10, 1, 2, 3), ipv4(255, 255, 0, 0)),
        (ipv4(10, 1, 2, 3), ipv4(255, 0, 0, 0)),
        (ipv4(172, 16, 5, 9), ipv4(255, 255, 240, 0)),
        (ipv4(192, 168, 0, 1), ipv4(255, 255, 255, 255)),
        (ipv4(192, 168, 0, 1), 0),
        (0x1234_5678, 0xF0F0_F0F0),
    ];
    for (ip, mask) in cases {
        assert_eq!(calculate_broadcast(ip, mask), ip | !mask);
    }
    assert_eq!(
        calculate_broadcast(ipv4(10, 1, 2, 3), ipv4(255, 255, 0, 0)),
        ipv4(10, 1, 255, 255)
    );
    assert_eq!(
        calculate_broadcast(ipv4(172, 16, 5, 9), ipv4(255, 255, 240, 0)),
        ipv4(172, 16, 15, 255)
    );
    assert_eq!(calculate_broadcast(ipv4(192, 168, 0, 1), u32::MAX), ipv4(192, 168, 0, 1));
    assert_eq!(calculate_broadcast(ipv4(192, 168, 0, 1), 0), LIMITED_BROADCAST);
}

#[test]
fn broadcast_keeps_network_and_sets_host_bits() {
    let cases = [(0xC0A8_012Au32, 0xFFFF_FF00u32), (0x0A00_0005, 0xFF00_0000), (7, 0xFFFF_FFFC)];
    for (ip, mask) in cases {
        let b = calculate_broadcast(ip, mask);
        assert_eq!(b & mask, ip & mask);
        assert_eq!(b & !mask, !mask);
    }
}

#[test]
fn octets_take_an_address_apart() {
    assert_eq!(octets(0xC0A8_012A), (192, 168, 1, 42));
    assert_eq!(octets(0), (0, 0, 0, 0));
    assert_eq!(octets(u32::MAX), (255, 255, 255, 255));
    let (a, b, c, d) = octets(0x0102_0304);
    assert_eq!(ipv4(a, b, c, d), 0x0102_0304);
}

#[test]
fn dotted_quad_writes_decimal_octets() {
    assert_eq!(dotted_quad(0), "0.0.0.0");
    assert_eq!(dotted_quad(u32::MAX), "255.255.255.255");
    assert_eq!(dotted_quad(ipv4(1, 20, 210, 9)), "1.20.210.9");
    assert_eq!(dotted_quad(ipv4(10, 0, 0, 255)), "10.0.0.255");
    assert_eq!(dotted_quad(ipv4(100, 101, 110, 200)), "100.101.110.200");
}

#[test]
fn no_interfaces_fall_back_to_limited_broadcast() {
    let targets = broadcast_targets(&Vec::new());
    assert_eq!(targets, vec![LIMITED_BROADCAST]);
    assert_eq!(broadcast_addresses(&Vec::new()), vec![String::from("255.255.255.255")]);
}

#[test]
fn loopback_and_other_families_contribute_nothing() {
    let lo = NetInterface {
        loopback: true,
        v4: Some(Ipv4Net { ip: ipv4(127, 0, 0, 1), netmask: ipv4(255, 0, 0, 0) }),
    };
    let v6 = NetInterface { loopback: false, v4: None };
    let v6_lo = NetInterface { loopback: true, v4: None };
    assert_eq!(target_of(&lo), None);
    assert_eq!(target_of(&v6), None);
    assert_eq!(target_of(&v6_lo), None);
    assert_eq!(broadcast_targets(&vec![lo, v6, v6_lo]), vec![LIMITED_BROADCAST]);
}

#[test]
fn unspecified_broadcast_is_left_out() {
    let zero = iface(0, u32::MAX);
    assert_eq!(target_of(&zero), None);
    assert_eq!(broadcast_targets(&vec![zero]), vec![LIMITED_BROADCAST]);
}

#[test]
fn each_interface_contributes_its_broadcast() {
    let lan = iface(ipv4(192, 168, 1, 42), ipv4(255, 255, 255, 0));
    let vpn = iface(ipv4(10, 8, 0, 2), ipv4(255, 255, 0, 0));
    assert_eq!(target_of(&lan), Some(ipv4(192, 168, 1, 255)));
    let lo = NetInterface {
        loopback: true,
        v4: Some(Ipv4Net { ip: ipv4(127, 0, 0, 1), netmask: ipv4(255, 0, 0, 0) }),
    };
    let targets = broadcast_targets(&vec![lo, lan, vpn]);
    assert_eq!(targets, vec![ipv4(192, 168, 1, 255), ipv4(10, 8, 255, 255)]);
    assert_eq!(
        broadcast_addresses(&vec![lo, lan, vpn]),
        vec![String::from("192.168.1.255"), String::from("10.8.255.255")]
    );
}

#[test]
fn a_broadcast_address_is_listed_once() {
    let a = iface(ipv4(192, 168, 1, 42), ipv4(255, 255, 255, 0));
    let b = iface(ipv4(192, 168, 1, 43), ipv4(255, 255, 255, 0));
    let c = iface(ipv4(10, 0, 0, 5), ipv4(255, 255, 255, 0));
    let targets = broadcast_targets(&vec![a, c, b, a, c]);
    assert_eq!(targets, vec![ipv4(192, 168, 1, 255), ipv4(10, 0, 0, 255)]);
}

#[test]
fn enumerate_broadcasts_is_never_empty() {
    let targets = enumerate_broadcasts();
    assert!(!targets.is_empty());
    for target in &targets {
        let parts: Vec<&str> = target.split('.').collect();
        assert_eq!(parts.len(), 4, "{} is no dotted quad", target);
        for part in parts {
            let value: u32 = part.parse().unwrap();
            assert!(value <= 255);
            assert_eq!(part, format!("{}", value));
        }
        assert_ne!(target, "0.0.0.0");
    }
    for (i, a) in targets.iter().enumerate() {
        for b in &targets[i + 1..] {
            assert_ne!(a, b);
        }
    }
}
