use nulconnect_helper::error::ErrorCode;
use nulconnect_helper::packet::{
    add_packet_information, describe_ip_packet, log_packet_sample, packet_information_header,
    strip_packet_information, PacketFamilies, PACKET_INFORMATION_LENGTH,
};

const FAMILIES: PacketFamilies = PacketFamilies { ipv4: 0x0800, ipv6: 0x86dd };

#[test]
fn the_header_has_the_length_that_the_device_uses() {
    assert_eq!(PACKET_INFORMATION_LENGTH, tun_rs::PACKET_INFORMATION_LENGTH);
}

#[test]
fn the_header_names_the_family() {
    assert_eq!(packet_information_header(&[0x45, 0], FAMILIES), [0, 0, 0x08, 0]);
    assert_eq!(packet_information_header(&[0x60, 0], FAMILIES), [0, 0, 0x86, 0xdd]);
    assert_eq!(packet_information_header(&[], FAMILIES), [0, 0, 0x08, 0]);
    let apple = PacketFamilies { ipv4: 2, ipv6: 0x0102_031e };
    assert_eq!(packet_information_header(&[0x6f], apple), [1, 2, 3, 0x1e]);
}

#[test]
fn stripping_undoes_adding() {
    for enabled in [false, true] {
        for packet in [vec![], vec![0x45u8], vec![0x60, 1, 2, 3], vec![0; 1500]] {
            if enabled && packet.is_empty() {
                continue;
            }
            let framed = add_packet_information(&packet, enabled, FAMILIES);
            assert_eq!(framed.len(), packet.len() + if enabled { 4 } else { 0 });
            assert_eq!(strip_packet_information(&framed, enabled).unwrap(), packet.as_slice());
        }
    }
}

#[test]
fn a_packet_that_is_all_header_is_refused() {
    let framed = add_packet_information(&[], true, FAMILIES);
    let e = strip_packet_information(&framed, true).unwrap_err();
    assert_eq!(e.code(), ErrorCode::InvalidArgument);
    assert_eq!(
        e.to_text(),
        "invalid argument: packet too short for packet information header: 4 bytes"
    );
    assert_eq!(strip_packet_information(&[], false).unwrap(), &[] as &[u8]);
}

fn ipv4_packet() -> Vec<u8> {
    let mut packet = vec![0u8; 20];
    packet[0] = 0x45;
    packet[9] = 17;
    packet[12..16].copy_from_slice(&[10, 0, 0, 2]);
    packet[16..20].copy_from_slice(&[192, 0, 2, 255]);
    packet
}

#[test]
fn packets_are_described() {
    assert_eq!(describe_ip_packet(&ipv4_packet()), "ipv4 10.0.0.2 -> 192.0.2.255 proto=17");
    let mut v6 = vec![0u8; 40];
    v6[0] = 0x60;
    assert_eq!(describe_ip_packet(&v6), "ipv6");
    assert_eq!(describe_ip_packet(&v6[..39]), "ip_version=6 short_len=39");
    assert_eq!(describe_ip_packet(&ipv4_packet()[..19]), "ip_version=4 short_len=19");
    assert_eq!(describe_ip_packet(&[0xf0]), "ip_version=15 short_len=1");
    assert_eq!(describe_ip_packet(&[]), "empty");
}

#[test]
fn eight_packets_are_sampled() {
    let ip = ipv4_packet();
    let tun = add_packet_information(&ip, true, FAMILIES);
    let mut samples = 0;
    let first = log_packet_sample("downlink", 3, &tun, &ip, &mut samples, true).unwrap();
    assert_eq!(
        first,
        "downlink: sample #3 tun_len=24 ip_len=20 pi=00 00 08 00 ipv4 10.0.0.2 -> 192.0.2.255 proto=17"
    );
    for _ in 0..7 {
        let line = log_packet_sample("downlink", 9, &ip, &ip, &mut samples, false).unwrap();
        assert!(line.contains(" pi=none "));
    }
    assert_eq!(samples, 8);
    assert!(log_packet_sample("downlink", 10, &ip, &ip, &mut samples, false).is_none());
    assert_eq!(samples, 8);
}
