use ipv6_canvas::packet::{check_for_icmpv6_ping, icmpv6_checksum, make_ipv6_pseudo_header, IpInfo};
use ipv6_canvas::pixel::{decode_ping, PixelInfo, Pos, Rgb, Size};

const SRC: [u16; 8] = [0x2001, 0x0db8, 0x0001, 0x0002, 0, 0, 0, 0x0001];

/// Standard (big-endian) RFC 1071 checksum over the RFC 2460 pseudo-header and the packet.
fn reference_checksum(src: [u16; 8], dst: [u16; 8], packet: &[u8]) -> u16 {
    let mut data = Vec::new();
    for s in src.iter().chain(dst.iter()) {
        data.push((s >> 8) as u8);
        data.push((s & 0xff) as u8);
    }
    let len = packet.len() as u32;
    data.extend_from_slice(&len.to_be_bytes());
    data.extend_from_slice(&[0, 0, 0, 0x3a]);
    data.extend_from_slice(packet);
    if data.len() % 2 == 1 {
        data.push(0);
    }
    let mut sum: u32 = 0;
    for pair in data.chunks(2) {
        sum += ((pair[0] as u32) << 8) | pair[1] as u32;
    }
    while sum > 0xffff {
        sum = (sum >> 16) + (sum & 0xffff);
    }
    !(sum as u16)
}

/// An ICMPv6 echo packet with a correct checksum, stored in network byte order.
fn echo_packet(src: [u16; 8], dst: [u16; 8], icmp_type: u8, payload: &[u8]) -> Vec<u8> {
    let mut p = vec![icmp_type, 0, 0, 0, 0x12, 0x34, 0x00, 0x01];
    p.extend_from_slice(payload);
    let c = reference_checksum(src, dst, &p);
    p[2] = (c >> 8) as u8;
    p[3] = (c & 0xff) as u8;
    p
}

fn ipv6_frame(src: [u16; 8], dst: [u16; 8], icmp: &[u8], ethernet: bool) -> Vec<u8> {
    let mut f = Vec::new();
    if ethernet {
        f.extend_from_slice(&[0x02, 0, 0, 0, 0, 1, 0x02, 0, 0, 0, 0, 2, 0x86, 0xdd]);
    }
    f.extend_from_slice(&[0x60, 0, 0, 0]);
    f.extend_from_slice(&(icmp.len() as u16).to_be_bytes());
    f.push(0x3a);
    f.push(64);
    for s in src.iter().chain(dst.iter()) {
        f.extend_from_slice(&s.to_be_bytes());
    }
    f.extend_from_slice(icmp);
    f
}

fn ping_frame(dst: [u16; 8], ethernet: bool) -> Vec<u8> {
    let icmp = echo_packet(SRC, dst, 0x80, b"hello");
    ipv6_frame(SRC, dst, &icmp, ethernet)
}

fn dst(s4: u16, s5: u16, s6: u16, s7: u16) -> [u16; 8] {
    [0x2602, 0xfa9b, 0x0202, 0x0000, s4, s5, s6, s7]
}

#[test]
fn scenario_size1_pixel_address_decodes() {
    let d = dst(0x1000, 0x0001, 0x0000, 0xff00);
    let p = decode_ping(&ping_frame(d, false), false, true).expect("pixel");
    assert_eq!(p.size, Size::SinglePixel);
    assert_eq!(p.pos, Pos { x: 0, y: 1 });
    assert_eq!(p.color, Rgb { r: 0, g: 255, b: 0 });
    assert_eq!(p.source, SRC);
}

#[test]
fn scenario_size2_pixel_address_decodes() {
    let d = dst(0x2005, 0x0010, 0x00ff, 0xabcd);
    let p = decode_ping(&ping_frame(d, true), true, true).expect("pixel");
    assert_eq!(p.size, Size::Area2x2);
    assert_eq!(p.pos, Pos { x: 5, y: 16 });
    assert_eq!(p.color, Rgb { r: 0xff, g: 0xab, b: 0xcd });
}

#[test]
fn scenario_size3_is_rejected() {
    let d = dst(0x31ff, 0x0010, 0x0000, 0x0000);
    assert!(check_for_icmpv6_ping(&ping_frame(d, false), false, true).is_some());
    assert_eq!(decode_ping(&ping_frame(d, false), false, true), None);
}

#[test]
fn scenario_x_512_is_rejected() {
    let d = dst(0x1200, 0x0200, 0x0000, 0x0000);
    assert_eq!(decode_ping(&ping_frame(d, false), false, true), None);
}

#[test]
fn y_out_of_range_is_rejected_and_high_bits_are_masked() {
    assert_eq!(decode_ping(&ping_frame(dst(0x1000, 0x0200, 0, 0), false), false, false), None);
    let p = decode_ping(&ping_frame(dst(0x1000, 0xf005, 0, 0), false), false, false).expect("pixel");
    assert_eq!(p.pos, Pos { x: 0, y: 5 });
}

#[test]
fn every_accepted_pixel_is_on_the_canvas() {
    for s4 in [0x0000u16, 0x1000, 0x11ff, 0x1200, 0x21ff, 0x2fff, 0x3000, 0xf000] {
        for s5 in [0x0000u16, 0x01ff, 0x0200, 0xffff] {
            let info = IpInfo::new(SRC, dst(s4, s5, 0x12, 0x3456));
            if let Some(p) = PixelInfo::from_ip_info(info) {
                assert!(p.pos.x < 512 && p.pos.y < 512);
                let nibble = s4 >> 12;
                assert!(nibble == 1 || nibble == 2);
            } else {
                let nibble = s4 >> 12;
                assert!(!(nibble == 1 || nibble == 2) || (s4 & 0x0fff) >= 512 || (s5 & 0x0fff) >= 512);
            }
        }
    }
}

#[test]
fn address_round_trip() {
    for (size, x, y, r, g, b) in [(1u16, 0u16, 0u16, 0u8, 0u8, 0u8), (2, 511, 511, 255, 255, 255), (1, 300, 17, 1, 2, 3), (2, 5, 16, 0xff, 0xab, 0xcd)] {
        let d = dst((size << 12) | x, y, r as u16, ((g as u16) << 8) | b as u16);
        let p = PixelInfo::from_ip_info(IpInfo::new(SRC, d)).expect("pixel");
        assert_eq!(p.pos, Pos { x, y });
        assert_eq!(p.color, Rgb { r, g, b });
        assert_eq!(p.size, if size == 1 { Size::SinglePixel } else { Size::Area2x2 });
    }
}

#[test]
fn echo_reply_is_accepted_other_types_are_not() {
    let d = dst(0x1000, 1, 0, 0);
    let reply = echo_packet(SRC, d, 0x81, b"x");
    assert!(decode_ping(&ipv6_frame(SRC, d, &reply, false), false, true).is_some());
    let other = echo_packet(SRC, d, 0x82, b"x");
    assert_eq!(check_for_icmpv6_ping(&ipv6_frame(SRC, d, &other, false), false, false), None);
    let mut coded = echo_packet(SRC, d, 0x80, b"x");
    coded[1] = 1;
    assert_eq!(check_for_icmpv6_ping(&ipv6_frame(SRC, d, &coded, false), false, false), None);
}

#[test]
fn wrong_checksum_is_rejected_only_when_required() {
    let d = dst(0x1000, 1, 0, 0xff00);
    let mut icmp = echo_packet(SRC, d, 0x80, b"abc");
    icmp[6] ^= 0x40;
    let frame = ipv6_frame(SRC, d, &icmp, false);
    assert_eq!(check_for_icmpv6_ping(&frame, false, true), None);
    let info = check_for_icmpv6_ping(&frame, false, false).expect("ping");
    assert_eq!(info.src_ip, SRC);
    assert_eq!(info.dest_ip, d);
}

#[test]
fn malformed_frames_are_rejected() {
    let d = dst(0x1000, 1, 0, 0);
    let good = ping_frame(d, true);
    assert!(check_for_icmpv6_ping(&good, true, true).is_some());
    let mut not_ipv6 = good.clone();
    not_ipv6[12] = 0x08;
    not_ipv6[13] = 0x00;
    assert_eq!(check_for_icmpv6_ping(&not_ipv6, true, true), None);
    let mut v4 = good.clone();
    v4[14] = 0x45;
    assert_eq!(check_for_icmpv6_ping(&v4, true, false), None);
    let mut not_icmp = good.clone();
    not_icmp[14 + 6] = 0x11;
    assert_eq!(check_for_icmpv6_ping(&not_icmp, true, false), None);
    let truncated = &good[..good.len() - 1];
    assert_eq!(check_for_icmpv6_ping(truncated, true, false), None);
    assert_eq!(check_for_icmpv6_ping(&good[..10], true, false), None);
    assert_eq!(check_for_icmpv6_ping(&[], false, false), None);
    let mut short_payload = ping_frame(d, false);
    short_payload[4] = 0;
    short_payload[5] = 7;
    assert_eq!(check_for_icmpv6_ping(&short_payload, false, false), None);
}

#[test]
fn trailing_bytes_after_the_payload_are_ignored() {
    let d = dst(0x1000, 1, 0, 0);
    let mut f = ping_frame(d, true);
    f.extend_from_slice(&[0, 0, 0, 0]);
    assert!(decode_ping(&f, true, true).is_some());
}

#[test]
fn pseudo_header_layout() {
    let d = dst(0x1000, 1, 0, 0xff00);
    let h = make_ipv6_pseudo_header(SRC, d, 0x0102);
    assert_eq!(h.len(), 40);
    assert_eq!(&h[0..4], &[0x20, 0x01, 0x0d, 0xb8]);
    assert_eq!(&h[16..18], &[0x26, 0x02]);
    assert_eq!(&h[30..32], &[0xff, 0x00]);
    assert_eq!(&h[32..40], &[0, 0, 0x01, 0x02, 0, 0, 0, 0x3a]);
}

#[test]
fn checksum_reads_words_low_byte_first() {
    let d = dst(0x1000, 1, 0, 0xff00);
    let packet = [0x80u8, 0, 0, 0, 0x12, 0x34, 0x00, 0x01, 0xab];
    let standard = reference_checksum(SRC, d, &packet);
    assert_eq!(icmpv6_checksum(SRC, d, &packet), standard.swap_bytes());
    let zeros = [0u8; 8];
    let z = [0u16; 8];
    assert_eq!(icmpv6_checksum(z, z, &zeros), !(0x3a00u16 + 0x0800));
}
