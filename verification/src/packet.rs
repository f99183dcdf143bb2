//! Packets as the tunnel device carries them, with or without the header that
//! names their address family.
use crate::error::{AtrError, AtrResult, ErrorCode};
use crate::ipv4;
use crate::number;
use crate::number::{decimal_string, numeral_chars};
use crate::text::string_of;
use vstd::prelude::*;
use vstd::slice::{slice_subrange, slice_to_vec};
use vstd::string::*;

verus! {

/// The octets of a packet information header.
pub const PACKET_INFORMATION_LENGTH: usize = 4;

/// The packets of each direction that are described in the log.
pub const SAMPLE_LIMIT: usize = 8;

/// The numbers that a platform writes into packet information headers.
#[derive(Debug, Clone, Copy, PartialEq, Eq, Structural)]
pub struct PacketFamilies {
    pub ipv4: u32,
    pub ipv6: u32,
}

/// The four octets of a number, most significant first.
pub open spec fn big_endian(n: u32) -> Seq<u8> {
    seq![
        (n as int / 0x100_0000) as u8,
        (n as int / 0x1_0000 % 0x100) as u8,
        (n as int / 0x100 % 0x100) as u8,
        (n as int % 0x100) as u8,
    ]
}

/// The IP version of a packet, if it has a first octet.
pub open spec fn ip_version(packet: Seq<u8>) -> Option<u8> {
    if packet.len() > 0 {
        Some((packet[0] / 16) as u8)
    } else {
        None
    }
}

/// The number that names the family of a packet. What is not IPv6 counts as
/// IPv4.
pub open spec fn family_of(packet: Seq<u8>, families: PacketFamilies) -> u32 {
    if ip_version(packet) == Some(6u8) {
        families.ipv6
    } else {
        families.ipv4
    }
}

/// A packet as the device takes it.
pub open spec fn framed(packet: Seq<u8>, enabled: bool, families: PacketFamilies) -> Seq<u8> {
    if enabled {
        big_endian(family_of(packet, families)) + packet
    } else {
        packet
    }
}

/// What is said of a packet that holds nothing behind its header.
pub open spec fn too_short_text(len: nat) -> Seq<char> {
    "packet too short for packet information header: "@ + number::decimal(len) + " bytes"@
}

fn version_of(packet: &[u8]) -> (r: Option<u8>)
    ensures
        r == ip_version(packet@),
{
    if packet.len() == 0 {
        return None;
    }
    let first: u8 = packet[0];
    assert(first >> 4 == first / 16) by (bit_vector);
    Some(first >> 4)
}

/// Takes the header off a packet that the device delivered. Nothing is taken
/// off where the device writes no headers. A packet that holds nothing behind
/// its header is refused.
pub fn strip_packet_information<'a>(packet: &'a [u8], enabled: bool) -> (r: AtrResult<&'a [u8]>)
    ensures
        match r {
            Ok(p) => {
                &&& enabled ==> packet@.len() > PACKET_INFORMATION_LENGTH
                &&& enabled ==> packet@.len() > 4 && p@ == packet@.skip(4)
                &&& p@ == if enabled {
                    packet@.skip(PACKET_INFORMATION_LENGTH as int)
                } else {
                    packet@
                }
            },
            Err(e) => {
                &&& enabled && packet@.len() <= PACKET_INFORMATION_LENGTH
                &&& packet@.len() <= 4
                &&& e.says(ErrorCode::InvalidArgument, too_short_text(packet@.len()))
                &&& e.says(
                    ErrorCode::InvalidArgument,
                    "packet too short for packet information header: "@ + number::decimal(
                        packet@.len(),
                    ) + " bytes"@,
                )
            },
        },
{
    if !enabled {
        return Ok(packet);
    }
    if packet.len() <= PACKET_INFORMATION_LENGTH {
        let mut message = "packet too short for packet information header: ".to_owned();
        message.append(decimal_string(packet.len() as u64).as_str());
        message.append(" bytes");
        return Err(AtrError::InvalidArgument(message));
    }
    let rest = slice_subrange(packet, PACKET_INFORMATION_LENGTH, packet.len());
    assert(rest@ =~= packet@.skip(PACKET_INFORMATION_LENGTH as int));
    Ok(rest)
}

/// The header that names the family of a packet.
pub fn packet_information_header(packet: &[u8], families: PacketFamilies) -> (r: [u8; 4])
    ensures
        r@ == big_endian(family_of(packet@, families)),
        r@[0] * 0x100_0000 + r@[1] * 0x1_0000 + r@[2] * 0x100 + r@[3] == if packet@.len() > 0
            && packet@[0] / 16 == 6 {
            families.ipv6
        } else {
            families.ipv4
        },
{
    let family: u32 = match version_of(packet) {
        Some(6) => families.ipv6,
        _ => families.ipv4,
    };
    let r: [u8; 4] = [
        (family / 0x100_0000) as u8,
        (family / 0x1_0000 % 0x100) as u8,
        (family / 0x100 % 0x100) as u8,
        (family % 0x100) as u8,
    ];
    assert(r@ =~= big_endian(family));
    r
}

/// Puts the header in front of a packet, where the device wants one.
pub fn add_packet_information(
    packet: &[u8],
    enabled: bool,
    families: PacketFamilies,
) -> (r: Vec<u8>)
    ensures
        r@ == framed(packet@, enabled, families),
        !enabled ==> r@ == packet@,
        enabled ==> {
            &&& r@.len() == packet@.len() + 4
            &&& r@.skip(4) == packet@
            &&& r@[0] * 0x100_0000 + r@[1] * 0x1_0000 + r@[2] * 0x100 + r@[3] == if packet@.len()
                > 0 && packet@[0] / 16 == 6 {
                families.ipv6
            } else {
                families.ipv4
            }
        },
{
    if !enabled {
        return slice_to_vec(packet);
    }
    let header = packet_information_header(packet, families);
    let mut r: Vec<u8> = Vec::new();
    r.push(header[0]);
    r.push(header[1]);
    r.push(header[2]);
    r.push(header[3]);
    let mut body = slice_to_vec(packet);
    r.append(&mut body);
    assert(r@ =~= framed(packet@, enabled, families));
    assert(r@.skip(4) =~= packet@);
    r
}

/// What comes off the device is what was put in front of it: taking the header
/// off undoes putting it on. An empty packet behind a header counts as none.
pub proof fn strip_undoes_add(packet: Seq<u8>, enabled: bool, families: PacketFamilies)
    requires
        packet.len() > 0 || !enabled,
    ensures
        enabled ==> framed(packet, enabled, families).len() > PACKET_INFORMATION_LENGTH,
        (if enabled {
            framed(packet, enabled, families).skip(PACKET_INFORMATION_LENGTH as int)
        } else {
            framed(packet, enabled, families)
        }) == packet,
{
    if enabled {
        assert(framed(packet, enabled, families).skip(4) =~= packet);
    }
}

/// Four octets in dotted form.
pub open spec fn quad(packet: Seq<u8>, at: int) -> Seq<char> {
    number::decimal(packet[at] as nat) + "."@ + number::decimal(packet[at + 1] as nat) + "."@
        + number::decimal(packet[at + 2] as nat) + "."@ + number::decimal(packet[at + 3] as nat)
}

/// What the log says of an IP packet.
pub open spec fn description(packet: Seq<u8>) -> Seq<char> {
    match ip_version(packet) {
        None => "empty"@,
        Some(version) => {
            if version == 4 && packet.len() >= 20 {
                "ipv4 "@ + quad(packet, 12) + " -> "@ + quad(packet, 16) + " proto="@
                    + number::decimal(packet[9] as nat)
            } else if version == 6 && packet.len() >= 40 {
                "ipv6"@
            } else {
                "ip_version="@ + number::decimal(version as nat) + " short_len="@
                    + number::decimal(packet.len())
            }
        },
    }
}

/// What the log says of an IPv4 packet names the addresses of its two ends, in
/// the order in which they stand in the packet, and its protocol.
pub proof fn a_described_packet_names_its_ends(packet: Seq<u8>, source: u32, target: u32)
    requires
        packet.len() >= 20,
        packet[0] / 16 == 4,
        source == packet[12] * 0x100_0000 + packet[13] * 0x1_0000 + packet[14] * 0x100 + packet[15],
        target == packet[16] * 0x100_0000 + packet[17] * 0x1_0000 + packet[18] * 0x100 + packet[19],
    ensures
        description(packet) == "ipv4 "@ + ipv4::dotted(source) + " -> "@ + ipv4::dotted(target)
            + " proto="@ + number::decimal(packet[9] as nat),
{
    lemma_quad(packet, 12, source);
    lemma_quad(packet, 16, target);
}

proof fn lemma_quad(packet: Seq<u8>, at: int, bits: u32)
    requires
        bits == packet[at] * 0x100_0000 + packet[at + 1] * 0x1_0000 + packet[at + 2] * 0x100
            + packet[at + 3],
    ensures
        quad(packet, at) == ipv4::dotted(bits),
{
    reveal_strlit(".");
    assert("."@ =~= seq!['.']);
    ipv4::octets_make_the_address(
        packet[at],
        packet[at + 1],
        packet[at + 2],
        packet[at + 3],
    );
}

fn append_quad(s: &mut String, packet: &[u8], at: usize)
    requires
        at + 4 <= packet@.len(),
    ensures
        final(s)@ == old(s)@ + quad(packet@, at as int),
{
    let ghost before = s@;
    s.append(decimal_string(packet[at] as u64).as_str());
    s.append(".");
    s.append(decimal_string(packet[at + 1] as u64).as_str());
    s.append(".");
    s.append(decimal_string(packet[at + 2] as u64).as_str());
    s.append(".");
    s.append(decimal_string(packet[at + 3] as u64).as_str());
    assert(s@ =~= before + quad(packet@, at as int));
}

/// Describes an IP packet for the log.
pub fn describe_ip_packet(packet: &[u8]) -> (r: String)
    ensures
        r@ == description(packet@),
{
    match version_of(packet) {
        None => "empty".to_owned(),
        Some(version) => {
            if version == 4 && packet.len() >= 20 {
                let mut s = "ipv4 ".to_owned();
                append_quad(&mut s, packet, 12);
                s.append(" -> ");
                append_quad(&mut s, packet, 16);
                s.append(" proto=");
                s.append(decimal_string(packet[9] as u64).as_str());
                s
            } else if version == 6 && packet.len() >= 40 {
                "ipv6".to_owned()
            } else {
                let mut s = "ip_version=".to_owned();
                s.append(decimal_string(version as u64).as_str());
                s.append(" short_len=");
                s.append(decimal_string(packet.len() as u64).as_str());
                s
            }
        },
    }
}

/// Two hexadecimal digits.
pub open spec fn hex_octet(octet: u8) -> Seq<char> {
    number::zero_padded(number::numeral(octet as nat, 16), 2)
}

/// The header of a packet as the log shows it.
pub open spec fn shown_header(tun_packet: Seq<u8>, packet_information: bool) -> Seq<char> {
    if packet_information && tun_packet.len() >= PACKET_INFORMATION_LENGTH {
        hex_octet(tun_packet[0]) + " "@ + hex_octet(tun_packet[1]) + " "@ + hex_octet(
            tun_packet[2],
        ) + " "@ + hex_octet(tun_packet[3])
    } else {
        "none"@
    }
}

/// The log line of a sampled packet.
pub open spec fn sample_line(
    direction: Seq<char>,
    packet_index: nat,
    tun_packet: Seq<u8>,
    ip_packet: Seq<u8>,
    packet_information: bool,
) -> Seq<char> {
    direction + ": sample #"@ + number::decimal(packet_index) + " tun_len="@ + number::decimal(
        tun_packet.len(),
    ) + " ip_len="@ + number::decimal(ip_packet.len()) + " pi="@ + shown_header(
        tun_packet,
        packet_information,
    ) + " "@ + description(ip_packet)
}

fn hex_text(octet: u8) -> (r: String)
    ensures
        r@ == hex_octet(octet),
{
    string_of(numeral_chars(octet as u64, 16, 2).as_slice())
}

/// The log line of a packet, for the first few packets of a direction, which
/// are counted.
pub fn log_packet_sample(
    direction: &str,
    packet_index: usize,
    tun_packet: &[u8],
    ip_packet: &[u8],
    samples: &mut usize,
    packet_information: bool,
) -> (r: Option<String>)
    ensures
        *old(samples) >= SAMPLE_LIMIT ==> r is None && *final(samples) == *old(samples),
        r is Some <==> *old(samples) < 8,
        *old(samples) < SAMPLE_LIMIT ==> *final(samples) == *old(samples) + 1 && r is Some
            && r->0@ == sample_line(
            direction@,
            packet_index as nat,
            tun_packet@,
            ip_packet@,
            packet_information,
        ),
{
    if *samples >= SAMPLE_LIMIT {
        return None;
    }
    *samples = *samples + 1;
    let header = if packet_information && tun_packet.len() >= PACKET_INFORMATION_LENGTH {
        let mut h = hex_text(tun_packet[0]);
        h.append(" ");
        h.append(hex_text(tun_packet[1]).as_str());
        h.append(" ");
        h.append(hex_text(tun_packet[2]).as_str());
        h.append(" ");
        h.append(hex_text(tun_packet[3]).as_str());
        h
    } else {
        "none".to_owned()
    };
    let mut s = direction.to_owned();
    s.append(": sample #");
    s.append(decimal_string(packet_index as u64).as_str());
    s.append(" tun_len=");
    s.append(decimal_string(tun_packet.len() as u64).as_str());
    s.append(" ip_len=");
    s.append(decimal_string(ip_packet.len() as u64).as_str());
    s.append(" pi=");
    s.append(header.as_str());
    s.append(" ");
    s.append(describe_ip_packet(ip_packet).as_str());
    Some(s)
}

/// An octet is shown by two hexadecimal digits that stand for it.
pub proof fn an_octet_is_shown_by_two_digits(octet: u8)
    ensures
        hex_octet(octet).len() == 2,
        16 * number::hex_value(hex_octet(octet)[0]) + number::hex_value(hex_octet(octet)[1])
            == octet,
{
    let n = octet as nat;
    let s = number::numeral(n, 16);
    reveal_with_fuel(number::numeral, 3);
    reveal_with_fuel(number::value_in, 3);
    number::a_numeral_stands_for_its_number(n, 16);
    number::padding_puts_zeros_in_front(s, 2);
    let r = hex_octet(octet);
    if n < 16 {
        assert(s.len() == 1);
        assert(r.skip(1)[0] == s[0]);
        assert(s.drop_last() =~= Seq::<char>::empty());
        assert(number::hex_value('0') == 0);
    } else {
        assert(n / 16 < 16);
        assert(s.len() == 2);
        assert(r.skip(0) =~= r);
        let h = s.drop_last();
        assert(h.drop_last() =~= Seq::<char>::empty());
        assert(number::value_in(h, 16) == number::hex_value(s[0]));
    }
}

/// A sampled packet is shown with its direction, its number, how long it is on
/// the device and without its header, the four octets of the header if there
/// is one, and its description, in this order.
pub proof fn a_sample_says_what_it_is(
    direction: Seq<char>,
    index: nat,
    tun: Seq<u8>,
    ip: Seq<u8>,
    headers: bool,
)
    ensures
        headers && tun.len() >= 4 ==> sample_line(direction, index, tun, ip, headers) == direction
            + ": sample #"@ + number::decimal(index) + " tun_len="@ + number::decimal(tun.len())
            + " ip_len="@ + number::decimal(ip.len()) + " pi="@ + (hex_octet(tun[0]) + " "@
            + hex_octet(tun[1]) + " "@ + hex_octet(tun[2]) + " "@ + hex_octet(tun[3])) + " "@
            + description(ip),
        !headers || tun.len() < 4 ==> sample_line(direction, index, tun, ip, headers) == direction
            + ": sample #"@ + number::decimal(index) + " tun_len="@ + number::decimal(tun.len())
            + " ip_len="@ + number::decimal(ip.len()) + " pi="@ + "none"@ + " "@ + description(ip),
{
}

/// A packet that is no full IPv4 packet is described by what is there of it:
/// nothing, an IPv6 header of forty octets, or its version and its length.
pub proof fn other_packets_are_described_by_their_version(packet: Seq<u8>)
    ensures
        packet.len() == 0 ==> description(packet) == "empty"@,
        packet.len() >= 40 && packet[0] / 16 == 6 ==> description(packet) == "ipv6"@,
        packet.len() > 0 && (packet[0] / 16 == 4 ==> packet.len() < 20) && (packet[0] / 16 == 6
            ==> packet.len() < 40) ==> description(packet) == "ip_version="@ + number::decimal(
            (packet[0] / 16) as nat,
        ) + " short_len="@ + number::decimal(packet.len()),
{
}

} // verus!
