//! The tunnel: its addresses, its routes, its pump and its two backends.
use valira_desktop::tunnel::address::Ip;
use valira_desktop::tunnel::command::Command;
use valira_desktop::tunnel::embedded::net::{
    after_step, field_after, linux_apply, linux_route_query, linux_route_to, macos_apply,
    macos_dns, macos_dns_reset, macos_gateway_query, macos_gateway_to, macos_services,
    resolv_conf, resolver_kept, revert, windows_apply, windows_dns, windows_dns_reset, windows_gateway_query,
    Onward, Step,
};
use valira_desktop::tunnel::embedded::session::{
    arrival_of, due, stats, stats_of, Arrival, Session, Turn, LONGEST,
};
use valira_desktop::tunnel::embedded::trace::{echo, mark, Trace, INBOUND, OUTBOUND};
use valira_desktop::tunnel::embedded::{addresses_of, local_for, parse_cidr, BUFFER};
use valira_desktop::tunnel::system::{
    active, config_name, configured_address, default_gateway, down_outcome, endpoint_address,
    outcome, pin_endpoint, quick_sufficed, service_active, service_name, unpin_endpoint,
    wireguard_exe, Next, Quick, Removal, REMOVAL_POLLS, SERVICE_RUNNING, SERVICE_START_PENDING,
};
use valira_desktop::tunnel::{down, forced, mode, up, Mode, Plan, Profile, Stats};

fn is_ipv6(ip: &Ip) -> bool {
    matches!(ip, Ip::V6(_))
}

fn texts(commands: &[Command]) -> Vec<String> {
    commands
        .iter()
        .map(|command| format!("{} {}", command.program, command.args.join(" ")))
        .collect()
}

fn steps(steps: &[Step]) -> Vec<(String, bool)> {
    steps
        .iter()
        .map(|step| {
            let command = &step.command;
            (format!("{} {}", command.program, command.args.join(" ")), step.required)
        })
        .collect()
}

fn profile() -> Profile {
    Profile {
        private_key: "cHJpdmF0ZQ==".to_string(),
        addresses: vec!["10.64.0.12/32".to_string(), "fda8:75e8:355::2/128".to_string()],
        dns: vec!["10.64.0.1".to_string(), "fda8:75e8:355::1".to_string()],
        peer_public_key: "cmVsYXk=".to_string(),
        endpoint: "203.0.113.7:51820".to_string(),
    }
}

#[test]
fn reads_addresses_with_and_without_a_prefix() {
    assert_eq!(parse_cidr("10.64.0.12/32").unwrap(), (Ip::V4([10, 64, 0, 12]), 32));
    assert_eq!(parse_cidr("10.64.0.12").unwrap(), (Ip::V4([10, 64, 0, 12]), 32));
    let (host, prefix) = parse_cidr("fda8:75e8:355::2/128").unwrap();
    assert!(is_ipv6(&host));
    assert_eq!(prefix, 128);
    // A bare v6 address defaults to a single host, not to 32.
    assert_eq!(parse_cidr("fda8:75e8:355::2").unwrap().1, 128);
}

#[test]
fn rejects_rubbish_addresses() {
    assert!(parse_cidr("not-an-address").is_err());
    assert!(parse_cidr("10.64.0.12/nope").is_err());
}

#[test]
fn a_refused_address_says_what_of_it() {
    assert_eq!(parse_cidr("10.0.0.1/300").unwrap_err(), "unreadable prefix in \"10.0.0.1/300\"");
    assert_eq!(parse_cidr("10.0.0/8").unwrap_err(), "unreadable address: \"10.0.0/8\"");
    // The prefix is read first.
    assert_eq!(parse_cidr("rubbish/no").unwrap_err(), "unreadable prefix in \"rubbish/no\"");
}

#[test]
fn addresses_are_read_in_order() {
    let mut wanted = profile();
    let read = addresses_of(&wanted).unwrap();
    assert_eq!(read[0], (Ip::V4([10, 64, 0, 12]), 32));
    assert_eq!(read[1], (Ip::V6([0xfda8, 0x75e8, 0x355, 0, 0, 0, 0, 2]), 128));
    wanted.addresses = vec!["10.0.0.1".to_string(), "x".to_string(), "y/z".to_string()];
    assert_eq!(addresses_of(&wanted).unwrap_err(), "unreadable address: \"x\"");
    assert_eq!(local_for(true), "0.0.0.0:0");
    assert_eq!(local_for(false), "[::]:0");
}

#[test]
fn every_form_of_an_address_is_read() {
    for (text, wanted) in [
        ("::", [0, 0, 0, 0, 0, 0, 0, 0]),
        ("::1", [0, 0, 0, 0, 0, 0, 0, 1]),
        ("1::", [1, 0, 0, 0, 0, 0, 0, 0]),
        ("1:2:3:4:5:6:7:8", [1, 2, 3, 4, 5, 6, 7, 8]),
        ("1:2:3:4:5:6:7::", [1, 2, 3, 4, 5, 6, 7, 0]),
        ("::ffff:1.2.3.4", [0, 0, 0, 0, 0, 0xffff, 0x102, 0x304]),
        ("1:2:3:4:5:6:1.2.3.4", [1, 2, 3, 4, 5, 6, 0x102, 0x304]),
        ("ABCD:ef01::", [0xabcd, 0xef01, 0, 0, 0, 0, 0, 0]),
    ] {
        assert_eq!(parse_cidr(text).unwrap(), (Ip::V6(wanted), 128), "{text}");
    }
    assert_eq!(parse_cidr(" 1.2.3.4 /24").unwrap(), (Ip::V4([1, 2, 3, 4]), 24));
    for text in [
        "1::2::3", "12345::", "01.2.3.4", "1.2.3.256", "1.2.3", ":1", "g::", "fe80::1%eth0", "",
        "1:2:3:4:5:6:7:8:9", "::1.2.3.4:5", "1.2.3.4.5", "+1.2.3.4", "1:2:3:4:5:6:7:8::",
    ] {
        assert!(parse_cidr(text).is_err(), "{text}");
    }
}

#[test]
fn picks_the_value_that_follows_a_key() {
    let line = "1.2.3.4 via 192.168.1.1 dev eth0 src 192.168.1.20 uid 0";
    let fields: Vec<&str> = line.split_whitespace().collect();
    assert_eq!(field_after(&fields, "via").as_deref(), Some("192.168.1.1"));
    assert_eq!(field_after(&fields, "dev").as_deref(), Some("eth0"));
    assert_eq!(field_after(&fields, "absent"), None);
}

#[test]
fn a_direct_route_has_no_gateway() {
    // On the same subnet the kernel answers without `via`, and pinning the
    // relay to a gateway that does not exist would be worse than not
    // pinning it at all.
    let line = "10.0.0.5 dev eth0 src 10.0.0.2 uid 0";
    let fields: Vec<&str> = line.split_whitespace().collect();
    assert_eq!(field_after(&fields, "via"), None);
    assert_eq!(field_after(&fields, "dev").as_deref(), Some("eth0"));
}

#[test]
fn a_key_at_the_end_has_no_value() {
    assert_eq!(field_after(&["a", "via"], "via"), None);
    assert_eq!(linux_route_to("10.0.0.5 dev eth0"), None);
    assert_eq!(
        linux_route_to("1.2.3.4 via 192.168.1.1 dev eth0"),
        Some(("192.168.1.1".to_string(), "eth0".to_string()))
    );
}

#[test]
fn reads_the_relay_out_of_an_endpoint() {
    assert_eq!(endpoint_address("203.0.113.7:51820").as_deref(), Some("203.0.113.7"));
    // A bare address is one too: the port is optional here.
    assert_eq!(endpoint_address("203.0.113.7").as_deref(), Some("203.0.113.7"));
    assert_eq!(endpoint_address("  203.0.113.7:51820  ").as_deref(), Some("203.0.113.7"));
}

#[test]
fn refuses_what_it_cannot_pin() {
    // A host name has to be resolved before it can be routed to, and this
    // is not the place for that.
    assert_eq!(endpoint_address("relay.valiravpn.com:51820"), None);
    // IPv6 endpoints are bracketed, and `route add` wants IPv4 here.
    assert_eq!(endpoint_address("[2001:db8::1]:51820"), None);
    assert_eq!(endpoint_address(""), None);
}

#[test]
fn what_was_pinned_is_unpinned_from_the_profile_on_disk() {
    let wanted = profile();
    let pinned = pin_endpoint(&wanted.endpoint, Some("192.168.1.1".to_string()));
    assert_eq!(
        texts(&pinned),
        vec![
            "route delete 203.0.113.7",
            "route add 203.0.113.7 mask 255.255.255.255 192.168.1.1 metric 1",
        ]
    );
    assert!(pin_endpoint(&wanted.endpoint, None).is_empty());
    let unpinned = unpin_endpoint(&wanted.render()).unwrap();
    assert_eq!(texts(&[unpinned]), vec!["route delete 203.0.113.7"]);
    assert_eq!(configured_address("[Peer]\nEndpoint : x"), None);
}

#[test]
fn a_profile_renders_in_the_format_every_tool_reads() {
    assert_eq!(
        profile().render(),
        "[Interface]\nPrivateKey = cHJpdmF0ZQ==\nAddress = 10.64.0.12/32, \
         fda8:75e8:355::2/128\nDNS = 10.64.0.1, fda8:75e8:355::1\n\n[Peer]\n\
         PublicKey = cmVsYXk=\nEndpoint = 203.0.113.7:51820\n\
         AllowedIPs = 0.0.0.0/0, ::/0\nPersistentKeepalive = 25\n"
    );
    let mut bare = profile();
    bare.dns.clear();
    assert!(!bare.render().contains("DNS"));
}

#[test]
fn linux_routes_come_and_go() {
    let hop = Some(("192.168.1.1".to_string(), "eth0".to_string()));
    assert_eq!(texts(&[linux_route_query("1.2.3.4")]), vec!["ip route get 1.2.3.4"]);
    assert_eq!(
        steps(&linux_apply("valira", "1.2.3.4", &hop)),
        vec![
            ("ip route add 1.2.3.4/32 via 192.168.1.1 dev eth0".to_string(), false),
            ("ip route add 0.0.0.0/1 dev valira".to_string(), true),
            ("ip route add 128.0.0.0/1 dev valira".to_string(), true),
            ("ip -6 route add ::/1 dev valira".to_string(), false),
            ("ip -6 route add 8000::/1 dev valira".to_string(), false),
        ]
    );
    assert_eq!(linux_apply("valira", "1.2.3.4", &None).len(), 4);
    assert_eq!(
        texts(&revert(&linux_apply("valira", "1.2.3.4", &hop), &vec![true; 5])),
        vec![
            "ip route del 1.2.3.4/32",
            "ip route del 0.0.0.0/1 dev valira",
            "ip route del 128.0.0.0/1 dev valira",
            "ip -6 route del ::/1 dev valira",
            "ip -6 route del 8000::/1 dev valira",
        ]
    );
    // Only what was added is removed.
    assert_eq!(
        texts(&revert(&linux_apply("valira", "1.2.3.4", &None), &vec![true, true, false, false])),
        vec!["ip route del 0.0.0.0/1 dev valira", "ip route del 128.0.0.0/1 dev valira"]
    );
    assert_eq!(
        texts(&revert(&linux_apply("valira", "1.2.3.4", &hop), &vec![false, true, false])),
        vec!["ip route del 0.0.0.0/1 dev valira"]
    );
    assert!(revert(&linux_apply("valira", "1.2.3.4", &hop), &Vec::new()).is_empty());
    // The relay's route covers the relay alone, whichever way its address is written.
    let six = linux_apply("valira", "2001:db8::1", &hop);
    assert_eq!(
        texts(&[six[0].command.copy(), six[0].undo.copy()]),
        vec![
            "ip route add 2001:db8::1/128 via 192.168.1.1 dev eth0",
            "ip route del 2001:db8::1/128",
        ]
    );
    let dns = vec!["10.64.0.1".to_string(), "fda8::1".to_string()];
    assert_eq!(
        resolv_conf(&dns).as_deref(),
        Some("nameserver 10.64.0.1\nnameserver fda8::1\n")
    );
    assert_eq!(resolv_conf(&Vec::new()), None);
    // What was there is kept only once it has been written over.
    assert_eq!(resolver_kept(Some(b"old".to_vec()), true), Some(b"old".to_vec()));
    assert_eq!(resolver_kept(Some(b"old".to_vec()), false), None);
    assert_eq!(resolver_kept(None, true), None);
}

#[test]
fn an_attempt_ends_at_what_it_cannot_do_without() {
    let hop = Some(("192.168.1.1".to_string(), "eth0".to_string()));
    let steps = linux_apply("valira", "1.2.3.4", &hop);
    assert_eq!(after_step(&steps, 0, true), Onward::Next);
    assert_eq!(after_step(&steps, 0, false), Onward::Next);
    assert_eq!(after_step(&steps, 1, true), Onward::Next);
    assert_eq!(after_step(&steps, 1, false), Onward::TakeBack);
    assert_eq!(after_step(&steps, 2, false), Onward::TakeBack);
    assert_eq!(after_step(&steps, 4, true), Onward::Done);
    assert_eq!(after_step(&steps, 4, false), Onward::Done);
}

#[test]
fn windows_routes_come_and_go() {
    assert_eq!(
        steps(&windows_apply(7, "1.2.3.4", &Some("192.168.1.1".to_string()))),
        vec![
            ("route add 1.2.3.4 mask 255.255.255.255 192.168.1.1 metric 1".to_string(), false),
            (
                "netsh interface ipv4 add route prefix=0.0.0.0/1 interface=7 metric=1 store=active"
                    .to_string(),
                true
            ),
            (
                "netsh interface ipv4 add route prefix=128.0.0.0/1 interface=7 metric=1 \
                 store=active"
                    .to_string(),
                true
            ),
        ]
    );
    let steps = windows_apply(7, "1.2.3.4", &Some("192.168.1.1".to_string()));
    assert_eq!(
        texts(&revert(&steps, &vec![true; 3])),
        vec![
            "route delete 1.2.3.4",
            "netsh interface ipv4 delete route prefix=0.0.0.0/1 interface=7 store=active",
            "netsh interface ipv4 delete route prefix=128.0.0.0/1 interface=7 store=active",
        ]
    );
    assert_eq!(
        texts(&revert(&windows_apply(7, "1.2.3.4", &None), &vec![true])),
        vec!["netsh interface ipv4 delete route prefix=0.0.0.0/1 interface=7 store=active"]
    );
    assert_eq!(
        texts(&[windows_dns_reset(7)]),
        vec!["netsh interface ipv4 set dnsservers name=7 dhcp"]
    );
    let dns = vec![
        "fda8::1".to_string(),
        "10.64.0.1".to_string(),
        "rubbish".to_string(),
        "10.64.0.2".to_string(),
    ];
    assert_eq!(
        texts(&windows_dns(7, &dns)),
        vec![
            "netsh interface ipv4 set dnsservers name=7 static 10.64.0.1 primary validate=no",
            "netsh interface ipv4 add dnsservers name=7 10.64.0.2 index=2 validate=no",
        ]
    );
    assert!(windows_gateway_query().args[3].ends_with("| Select-Object -First 1).NextHop"));
    assert_eq!(default_gateway(b" 192.168.1.1\r\n").as_deref(), Some("192.168.1.1"));
    assert_eq!(default_gateway(b"0.0.0.0\n"), None);
    assert_eq!(default_gateway(b"\n"), None);
}

#[test]
fn macos_routes_come_and_go() {
    let services = vec!["Wi-Fi".to_string(), "Thunderbolt Bridge".to_string()];
    assert_eq!(texts(&[macos_gateway_query("1.2.3.4")]), vec!["route -n get 1.2.3.4"]);
    assert_eq!(
        macos_gateway_to("   route to: 1.2.3.4\n    gateway: 192.168.1.1\n").as_deref(),
        Some("192.168.1.1")
    );
    assert_eq!(macos_gateway_to("  gateway:  \n  gateway: 1.1.1.1"), None);
    assert_eq!(
        steps(&macos_apply("utun4", "1.2.3.4", &Some("192.168.1.1".to_string()))),
        vec![
            ("route -n add -host 1.2.3.4 192.168.1.1".to_string(), false),
            ("route -n add -net 0.0.0.0/1 -interface utun4".to_string(), true),
            ("route -n add -net 128.0.0.0/1 -interface utun4".to_string(), true),
        ]
    );
    assert_eq!(
        texts(&revert(
            &macos_apply("utun4", "1.2.3.4", &Some("192.168.1.1".to_string())),
            &vec![true; 3]
        )),
        vec![
            "route -n delete -host 1.2.3.4",
            "route -n delete -net 0.0.0.0/1 -interface utun4",
            "route -n delete -net 128.0.0.0/1 -interface utun4",
        ]
    );
    assert_eq!(
        texts(&macos_dns_reset(&services)),
        vec![
            "networksetup -setdnsservers Wi-Fi Empty",
            "networksetup -setdnsservers Thunderbolt Bridge Empty",
        ]
    );
    let listing = "An asterisk (*) denotes a disabled service.\nWi-Fi\n*Old\n\n Thunderbolt Bridge ";
    assert_eq!(macos_services(listing), services);
    assert!(macos_services("").is_empty());
    let dns = vec!["10.64.0.1".to_string()];
    assert_eq!(
        texts(&[macos_dns("Wi-Fi", &dns)]),
        vec!["networksetup -setdnsservers Wi-Fi 10.64.0.1"]
    );
}

#[test]
fn a_failed_command_says_its_last_word() {
    let command = Command::new("ip", &["route", "add"]);
    assert_eq!(command.failure(b"one\n two \n\n"), "two");
    assert_eq!(command.failure(b" \n"), "ip route add failed");
    assert_eq!(command.failure(&[0xff, b'x']), "\u{fffd}x");
    assert_eq!(outcome(true, b"x", "y"), Ok(()));
    assert_eq!(outcome(false, b"", "wg-quick failed"), Err("wg-quick failed".to_string()));
}

/// A well-formed IPv4 packet with `payload` bytes after its header.
fn ipv4_packet(payload: usize) -> Vec<u8> {
    let total = 20 + payload;
    let mut packet = vec![0u8; total];
    packet[0] = 0x45;
    packet[2..4].copy_from_slice(&(total as u16).to_be_bytes());
    packet[8] = 64;
    packet[9] = 1;
    packet[12..16].copy_from_slice(&[10, 64, 0, 2]);
    packet[16..20].copy_from_slice(&[1, 1, 1, 1]);
    packet
}

fn ends() -> (Session, Session) {
    let client = x25519_dalek::StaticSecret::from([3u8; 32]);
    let relay = x25519_dalek::StaticSecret::from([5u8; 32]);
    let client_public = x25519_dalek::PublicKey::from(&client).to_bytes();
    let relay_public = x25519_dalek::PublicKey::from(&relay).to_bytes();
    (Session::new([3u8; 32], relay_public), Session::new([5u8; 32], client_public))
}

#[test]
fn a_packet_crosses_the_tunnel() {
    let (mut client, mut relay) = ends();
    let mut a = vec![0u8; BUFFER];
    let mut b = vec![0u8; BUFFER];
    let packet = ipv4_packet(32);

    // No session yet: the packet is held and a handshake opened.
    let n = client.forward(&packet, &mut a).expect("a handshake");
    assert_eq!(n, 148);
    assert_eq!(a[..4], [1, 0, 0, 0]);
    assert_eq!(client.forward(&packet, &mut vec![0u8; BUFFER]), None);
    assert_eq!(client.stats().sent, 0);

    let Arrival::Reply(n) = relay.arrive(&a[..n], &mut b) else {
        panic!("no handshake response");
    };
    assert_eq!(n, 92);
    let Arrival::Reply(n) = client.arrive(&b[..n], &mut a) else {
        panic!("no keepalive");
    };
    assert_eq!(n, 32);
    assert_eq!(relay.arrive(&a[..n], &mut b), Arrival::Nothing);

    // The two packets held come out, sealed, and then no more.
    for _ in 0..2 {
        let n = client.next(&mut a).expect("a packet that was held");
        assert_eq!(n, packet.len() + 32);
        let Arrival::Deliver(n) = relay.arrive(&a[..n], &mut b) else {
            panic!("the packet was not opened");
        };
        assert_eq!(b[..n], packet[..]);
    }
    assert_eq!(client.next(&mut a), None);

    // And with a session up a packet goes straight through.
    let n = client.forward(&packet, &mut a).expect("a sealed packet");
    assert_ne!(a[..packet.len()], packet[..]);
    assert_eq!(relay.arrive(&a[..n], &mut b), Arrival::Deliver(packet.len()));
    assert_eq!(client.stats().sent, 3 * packet.len() as u64);
    assert_eq!(relay.stats().received, 3 * packet.len() as u64);
    assert!(client.stats().handshake_age.is_some());
    assert_eq!(stats(None), Stats { received: 0, sent: 0, handshake_age: None });
    assert_eq!(stats(Some(&client)).sent, 3 * packet.len() as u64);
}

#[test]
fn an_empty_datagram_asks_for_what_is_held() {
    let (mut client, _) = ends();
    let mut a = vec![0u8; BUFFER];
    assert_eq!(client.arrive(&[], &mut a), Arrival::Nothing);
    // Rubbish is refused without a word.
    assert_eq!(client.arrive(&[1, 2, 3], &mut a), Arrival::Nothing);
    assert_eq!(client.tick(&mut a), None);
}

#[test]
fn the_clock_sends_what_is_left_for_the_network() {
    assert_eq!(due(Turn::ToNetwork(148)), Some(148));
    assert_eq!(due(Turn::ToNetwork(32)), Some(32));
    assert_eq!(due(Turn::ToTunnelV4(20)), None);
    assert_eq!(due(Turn::ToTunnelV6(40)), None);
    assert_eq!(due(Turn::Done), None);
    assert_eq!(due(Turn::Refused), None);
}

#[test]
fn a_handshake_without_an_answer_is_retried() {
    let (mut client, _) = ends();
    let mut a = vec![0u8; BUFFER];
    assert_eq!(client.forward(&ipv4_packet(32), &mut a), Some(148));
    let first = a.clone();
    assert_eq!(client.tick(&mut a), None);
    let opened = std::time::Instant::now();
    let mut sent = None;
    while sent.is_none() && opened.elapsed().as_secs() < 15 {
        sent = client.tick(&mut a);
    }
    assert_eq!(sent, Some(148));
    assert_eq!(a[..4], [1, 0, 0, 0]);
    assert_ne!(a[..148], first[..148]);
    assert!(opened.elapsed().as_secs() >= 4);
}

#[test]
fn the_longest_packet_that_fits_goes_through() {
    let (mut client, _) = ends();
    let mut a = vec![0u8; BUFFER];
    assert_eq!(LONGEST, 1568);
    assert_eq!(client.forward(&ipv4_packet(LONGEST - 20), &mut a), Some(148));
}

fn echo_packet(kind: u8, id: u16, sequence: u16) -> Vec<u8> {
    let mut packet = ipv4_packet(8);
    packet[20] = kind;
    packet[24..26].copy_from_slice(&id.to_be_bytes());
    packet[26..28].copy_from_slice(&sequence.to_be_bytes());
    packet
}

#[test]
fn an_echo_is_read_out_of_a_packet() {
    assert_eq!(echo(&echo_packet(8, 0x1234, 0x5678)), Some((8, 0x1234, 0x5678)));
    assert_eq!(echo(&echo_packet(0, 1, 2)), Some((0, 1, 2)));
    assert_eq!(echo(&echo_packet(8, 1, 2)[..27]), None);
    assert_eq!(echo(&[]), None);
    let mut six = echo_packet(8, 1, 2);
    six[0] = 0x65;
    assert_eq!(echo(&six), None);
    let mut udp = echo_packet(8, 1, 2);
    udp[9] = 17;
    assert_eq!(echo(&udp), None);
    // ICMP, but no echo: a destination that cannot be reached.
    assert_eq!(echo(&echo_packet(3, 1, 2)), None);
    // The options of the IP header are skipped.
    let mut options = echo_packet(8, 7, 9);
    options[0] = 0x46;
    for _ in 0..4 {
        options.insert(20, 0xFF);
    }
    assert_eq!(echo(&options), Some((8, 7, 9)));
}

#[test]
fn a_reply_counts_once() {
    let mut trace = Trace::new(true);
    trace.leaving(&echo_packet(8, 1, 1), 1_000);
    trace.leaving(&echo_packet(8, 1, 2), 1_000);
    trace.returning(&echo_packet(3, 1, 1), 1_500);
    trace.returning(&echo_packet(8, 1, 1), 1_500);
    assert_eq!(trace.lost(), 0);
    trace.returning(&echo_packet(0, 1, 1), 2_000);
    trace.returning(&echo_packet(0, 1, 1), 3_000);
    assert_eq!(trace.lost(), 1);
    let report = trace.report();
    assert_eq!(report.trips, vec![1_000]);
    assert_eq!(report.unanswered, 1);
}

#[test]
fn a_reply_ends_its_own_trip() {
    let mut trace = Trace::new(true);
    trace.leaving(&echo_packet(8, 1, 1), 1_000);
    trace.leaving(&echo_packet(8, 1, 2), 2_000);
    trace.returning(&echo_packet(0, 1, 1), 5_000);
    trace.returning(&echo_packet(0, 9, 9), 6_000);
    trace.spent(OUTBOUND, mark(true, 100), 350);
    trace.spent(OUTBOUND, mark(true, 100), 200);
    trace.spent(INBOUND, mark(false, 100), 900);
    assert_eq!(trace.lost(), 1);
    assert_eq!(trace.packets(OUTBOUND), 2);
    let report = trace.report();
    assert_eq!(report.trips, vec![4_000]);
    assert_eq!(report.unanswered, 1);
    assert_eq!((report.outbound.inside, report.outbound.worst_inside), (350, 250));
    assert_eq!(report.inbound.packets, 0);
    assert!(trace.report().trips.is_empty());
}

#[test]
fn requests_without_replies_are_let_go() {
    let mut trace = Trace::new(true);
    for sequence in 0..4097u16 {
        trace.leaving(&echo_packet(8, 7, sequence), 0);
    }
    assert_eq!(trace.report().unanswered, 4097);
    trace.leaving(&echo_packet(8, 8, 0), 0);
    assert_eq!(trace.report().unanswered, 1);
    let mut off = Trace::new(false);
    off.leaving(&echo_packet(8, 1, 1), 0);
    off.returning(&echo_packet(0, 1, 1), 0);
    assert!(!off.on());
    assert_eq!((off.report().unanswered, off.lost()), (0, 0));
}

#[test]
fn only_the_other_backend_is_taken_down() {
    let plan = |takes_down, brings_up| Plan { takes_down, brings_up };
    assert_eq!(up(None, true), plan(Some(Mode::Embedded), Mode::System));
    assert_eq!(up(None, false), plan(None, Mode::Embedded));
    assert_eq!(up(Some(Mode::Embedded), true), plan(Some(Mode::System), Mode::Embedded));
    assert_eq!(up(Some(Mode::Embedded), false), plan(None, Mode::Embedded));
    assert_eq!(up(Some(Mode::System), false), plan(Some(Mode::Embedded), Mode::System));
    assert_eq!(forced(Some(" embedded ".to_string())), Some(Mode::Embedded));
    assert_eq!(forced(Some("system".to_string())), Some(Mode::System));
    assert_eq!(forced(Some("x".to_string())), None);
    assert_eq!(forced(None), None);
    assert_eq!(mode(true, None, true), Some(Mode::Embedded));
    assert_eq!(mode(false, None, true), Some(Mode::System));
    assert_eq!(mode(false, Some(Mode::Embedded), true), None);
    let failed = || Err("x".to_string());
    assert_eq!(down(Ok(()), None), Ok(()));
    assert_eq!(down(failed(), Some(Ok(()))), failed());
    assert_eq!(down(Ok(()), Some(failed())), failed());
}

#[test]
fn the_system_backend_is_read_from_its_tools() {
    assert!(active(Some(b"wg0 valira\n".to_vec())));
    assert!(!active(Some(b"valira0\n".to_vec())));
    assert!(!active(None));
    assert!(service_active(Some(SERVICE_RUNNING)) && service_active(Some(SERVICE_START_PENDING)));
    assert!(!service_active(Some(1)) && !service_active(None));
    let dump = b"priv\tpub\t51820\toff\nkey\t(none)\t1.2.3.4:1\t0.0.0.0/0\t1000\t42\t7\t25\n";
    assert_eq!(
        valira_desktop::tunnel::system::stats(Some(dump.to_vec()), 1_037),
        Stats { received: 42, sent: 7, handshake_age: Some(37) }
    );
    assert_eq!(
        valira_desktop::tunnel::system::stats(Some(b"one line".to_vec()), 5),
        Stats { received: 0, sent: 0, handshake_age: None }
    );
}

#[test]
fn the_tunnel_is_down_when_it_is_gone() {
    let ran = |succeeded| Quick::Ran { succeeded, stderr: b"no such file\n".to_vec() };
    assert!(quick_sufficed(&ran(true), false));
    assert!(!quick_sufficed(&ran(true), true) && !quick_sufficed(&ran(false), false));
    assert_eq!(down_outcome(ran(false), false), Ok(()));
    assert_eq!(down_outcome(ran(false), true), Err("no such file".to_string()));
    let missing = Quick::Missing("not there".to_string());
    assert_eq!(down_outcome(missing, true), Err("wg-quick not found: not there".to_string()));

    let mut removal = Removal::new(b"".to_vec());
    for _ in 1..REMOVAL_POLLS {
        assert!(matches!(removal.look(true), Next::Wait));
    }
    let Next::Fail(said) = removal.look(true) else {
        panic!("it is still up");
    };
    assert_eq!(said, "the tunnel is still up");
    // It has been given up on: a look after the last settles nothing.
    assert!(matches!(removal.look(false), Next::Fail(_)));
    let mut late = Removal::new(b"".to_vec());
    for _ in 1..REMOVAL_POLLS {
        assert!(matches!(late.look(true), Next::Wait));
    }
    assert!(matches!(late.look(false), Next::Unpin));
    assert!(matches!(Removal::new(Vec::new()).look(false), Next::Unpin));
}

#[test]
fn the_system_backend_is_where_it_is_looked_for() {
    assert_eq!(config_name(), "valira.conf");
    assert_eq!(service_name(), "WireGuardTunnel$valira");
    assert_eq!(wireguard_exe(None), "C:\\Program Files\\WireGuard\\wireguard.exe");
    assert_eq!(wireguard_exe(Some("D:\\wg.exe".to_string())), "D:\\wg.exe");
}

#[test]
fn what_the_protocol_leaves_goes_where_it_belongs() {
    assert_eq!(arrival_of(Turn::ToNetwork(92)), Arrival::Reply(92));
    assert_eq!(arrival_of(Turn::ToTunnelV4(20)), Arrival::Deliver(20));
    assert_eq!(arrival_of(Turn::ToTunnelV6(40)), Arrival::Deliver(40));
    assert_eq!(arrival_of(Turn::Done), Arrival::Nothing);
    assert_eq!(arrival_of(Turn::Refused), Arrival::Nothing);
    assert_eq!(
        stats_of(Some(37), 5, 7),
        Stats { received: 7, sent: 5, handshake_age: Some(37) }
    );
    assert_eq!(stats_of(None, 0, 0), Stats { received: 0, sent: 0, handshake_age: None });
}

#[test]
fn a_datagram_of_no_shape_is_refused() {
    let (mut client, mut relay) = ends();
    let mut a = vec![0u8; BUFFER];
    let mut b = vec![0u8; BUFFER];
    let n = client.forward(&ipv4_packet(32), &mut a).expect("a handshake");
    // Too long, too short, and of another kind.
    assert_eq!(relay.arrive(&a[..n + 1], &mut b), Arrival::Nothing);
    assert_eq!(relay.arrive(&a[..n - 1], &mut b), Arrival::Nothing);
    let mut other = a[..n].to_vec();
    other[0] = 5;
    assert_eq!(relay.arrive(&other, &mut b), Arrival::Nothing);
    let mut bent = a[..n].to_vec();
    bent[60] ^= 1;
    assert_eq!(relay.arrive(&bent, &mut b), Arrival::Nothing);
    assert_eq!(relay.stats().handshake_age, None);
    assert_eq!(relay.arrive(&a[..n], &mut b), Arrival::Reply(92));
    // Taken up once, it is not taken up again.
    assert_eq!(relay.arrive(&a[..n], &mut b), Arrival::Nothing);
}
