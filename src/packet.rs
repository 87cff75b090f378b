//! Decoding of captured frames: link layer, IPv6 header, ICMPv6 echo header
//! and the ICMPv6 checksum.
use vstd::prelude::*;

verus! {

/// Source and destination address of a ping, as eight 16-bit segments each.
#[derive(Debug, Clone, Copy, PartialEq, Eq)]
pub struct IpInfo {
    pub src_ip: [u16; 8],
    pub dest_ip: [u16; 8],
}

impl IpInfo {
    pub fn new(src_ip: [u16; 8], dest_ip: [u16; 8]) -> (r: Self)
        ensures
            r.src_ip == src_ip,
            r.dest_ip == dest_ip,
    {
        Self { src_ip, dest_ip }
    }
}

/// The big-endian 16-bit value of the two bytes at `i`.
pub open spec fn be_u16_at(b: Seq<u8>, i: int) -> int {
    b[i] as int * 256 + b[i + 1] as int
}

/// The eight big-endian segments of the address that starts at `start`.
pub open spec fn segments_at(b: Seq<u8>, start: int) -> Seq<u16> {
    Seq::new(8, |k: int| be_u16_at(b, start + 2 * k) as u16)
}

/// The sixteen octets of an address given as eight segments.
pub open spec fn octets_of(s: Seq<u16>) -> Seq<u8> {
    Seq::new(
        16,
        |i: int|
            if i % 2 == 0 {
                (s[i / 2] / 256) as u8
            } else {
                (s[i / 2] % 256) as u8
            },
    )
}

/// The IPv6 pseudo-header that the ICMPv6 checksum covers:
/// source, destination, the length as a big-endian u32, three zero bytes
/// and the next-header value 58.
pub open spec fn pseudo_header(src: Seq<u16>, dst: Seq<u16>, len: u16) -> Seq<u8> {
    octets_of(src) + octets_of(dst) + seq![
        0u8,
        0u8,
        (len / 256) as u8,
        (len % 256) as u8,
        0u8,
        0u8,
        0u8,
        0x3au8,
    ]
}

/// The `k`-th 16-bit word of `d`, read low byte first; a missing last byte
/// counts as zero.
pub open spec fn word_le(d: Seq<u8>, k: int) -> int {
    d[2 * k] as int + 256 * (if 2 * k + 1 < d.len() {
        d[2 * k + 1] as int
    } else {
        0
    })
}

/// The sum of the first `n` words of `d`.
pub open spec fn word_sum(d: Seq<u8>, n: nat) -> nat
    decreases n,
{
    if n == 0 {
        0
    } else {
        word_sum(d, (n - 1) as nat) + word_le(d, n - 1) as nat
    }
}

/// Adds the carries above 16 bits back in until the sum fits in 16 bits.
pub open spec fn fold_carries(t: nat) -> nat
    decreases t,
{
    if t < 0x10000 {
        t
    } else {
        fold_carries(t / 0x10000 + t % 0x10000)
    }
}

/// The RFC 1071 one's-complement checksum of `d`, with words read low byte first.
pub open spec fn ones_complement_checksum(d: Seq<u8>) -> u16 {
    (0xffff - fold_carries(word_sum(d, ((d.len() + 1) / 2) as nat))) as u16
}

/// The checksum of an ICMPv6 packet between two addresses.
pub open spec fn spec_icmpv6_checksum(src: Seq<u16>, dst: Seq<u16>, packet: Seq<u8>) -> u16 {
    ones_complement_checksum(pseudo_header(src, dst, packet.len() as u16) + packet)
}

proof fn lemma_fold_carries_bound(t: nat)
    ensures
        fold_carries(t) < 0x10000,
    decreases t,
{
    if t >= 0x10000 {
        lemma_fold_carries_bound(t / 0x10000 + t % 0x10000);
    }
}

proof fn lemma_word_le_bound(d: Seq<u8>, k: int)
    requires
        0 <= 2 * k < d.len(),
    ensures
        0 <= word_le(d, k) <= 0xffff,
{
}

proof fn lemma_word_sum_bound(d: Seq<u8>, n: nat)
    requires
        2 * n <= d.len() + 1,
    ensures
        word_sum(d, n) <= n * 0xffff,
    decreases n,
{
    if n > 0 {
        lemma_word_sum_bound(d, (n - 1) as nat);
        lemma_word_le_bound(d, n - 1);
    }
}

/// Create the IPv6 pseudo-header that the ICMPv6 checksum is computed over.
pub fn make_ipv6_pseudo_header(src_ip: [u16; 8], dest_ip: [u16; 8], icmp_packet_len: u16) -> (r:
    Vec<u8>)
    ensures
        r@ == pseudo_header(src_ip@, dest_ip@, icmp_packet_len),
{
    let mut data: Vec<u8> = Vec::new();
    push_octets(&mut data, &src_ip);
    push_octets(&mut data, &dest_ip);
    data.push(0x00);
    data.push(0x00);
    data.push((icmp_packet_len / 256) as u8);
    data.push((icmp_packet_len % 256) as u8);
    data.push(0x00);
    data.push(0x00);
    data.push(0x00);
    data.push(0x3a);
    assert(data@ =~= pseudo_header(src_ip@, dest_ip@, icmp_packet_len));
    data
}

fn push_octets(data: &mut Vec<u8>, segments: &[u16; 8])
    ensures
        final(data)@ == old(data)@ + octets_of(segments@),
{
    let ghost start = data@;
    let mut i: usize = 0;
    while i < 8
        invariant
            0 <= i <= 8,
            segments@.len() == 8,
            data@ =~= start + octets_of(segments@).subrange(0, 2 * i as int),
        decreases 8 - i,
    {
        let s = segments[i];
        data.push((s / 256) as u8);
        data.push((s % 256) as u8);
        i = i + 1;
    }
    assert(octets_of(segments@).subrange(0, 16) =~= octets_of(segments@));
}

/// Calculate the checksum of an ICMPv6 packet (RFC 1071), reading the
/// 16-bit words low byte first.
pub fn icmpv6_checksum(src_ip: [u16; 8], dest_ip: [u16; 8], icmpv6_packet: &[u8]) -> (r: u16)
    requires
        icmpv6_packet@.len() <= 0xffff,
    ensures
        r == spec_icmpv6_checksum(src_ip@, dest_ip@, icmpv6_packet@),
{
    let mut data = make_ipv6_pseudo_header(src_ip, dest_ip, icmpv6_packet.len() as u16);
    let ghost header = data@;
    let mut j: usize = 0;
    while j < icmpv6_packet.len()
        invariant
            0 <= j <= icmpv6_packet@.len(),
            data@ =~= header + icmpv6_packet@.subrange(0, j as int),
            header.len() == 40,
        decreases icmpv6_packet@.len() - j,
    {
        data.push(icmpv6_packet[j]);
        j = j + 1;
    }
    assert(icmpv6_packet@.subrange(0, icmpv6_packet@.len() as int) =~= icmpv6_packet@);
    let words: usize = (data.len() + 1) / 2;
    let mut total: u32 = 0;
    let mut k: usize = 0;
    while k < words
        invariant
            0 <= k <= words,
            words == (data@.len() + 1) / 2,
            data@.len() <= 40 + 0xffff,
            total == word_sum(data@, k as nat),
            total <= k * 0xffff,
        decreases words - k,
    {
        let i = 2 * k;
        let hi: u32 = if i + 1 < data.len() {
            data[i + 1] as u32
        } else {
            0
        };
        let val: u32 = hi * 256 + data[i] as u32;
        proof {
            lemma_word_le_bound(data@, k as int);
        }
        total = total + val;
        k = k + 1;
    }
    let ghost sum = total as nat;
    while total >= 0x10000
        invariant
            fold_carries(total as nat) == fold_carries(sum),
        decreases total,
    {
        let t = total;
        assert((t >> 16u32) == t / 0x10000 && (t & 0xffffu32) == t % 0x10000) by (bit_vector);
        total = (total >> 16) + (total & 0xffff);
    }
    let t = total;
    assert(!(t as u16) == 0xffff - t) by (bit_vector)
        requires
            t < 0x10000,
    ;
    !(total as u16)
}

/// Where the IPv6 header starts in a frame.
pub open spec fn ip_offset(is_ethernet: bool) -> int {
    if is_ethernet {
        14
    } else {
        0
    }
}

/// The ICMPv6 payload length that the IPv6 header at `o` declares.
pub open spec fn payload_len_at(d: Seq<u8>, o: int) -> int {
    be_u16_at(d, o + 4)
}

/// The ICMPv6 packet of a frame whose IPv6 header starts at `o`.
pub open spec fn icmp_packet_at(d: Seq<u8>, o: int) -> Seq<u8> {
    d.subrange(o + 40, o + 40 + payload_len_at(d, o))
}

/// The checksum field of an ICMPv6 packet, read low byte first.
pub open spec fn stored_checksum(p: Seq<u8>) -> int {
    p[2] as int + 256 * p[3] as int
}

/// Whether the checksum of the ICMPv6 packet in the frame matches its field.
pub open spec fn checksum_matches(d: Seq<u8>, o: int) -> bool {
    let p = icmp_packet_at(d, o);
    spec_icmpv6_checksum(segments_at(d, o + 8), segments_at(d, o + 24), p.update(2, 0).update(3, 0))
        == stored_checksum(p)
}

/// Whether a captured frame is a well-formed ICMPv6 echo request or reply
/// (with a valid checksum, where one is required).
pub open spec fn is_icmpv6_ping(d: Seq<u8>, is_ethernet: bool, verify_checksum: bool) -> bool {
    let o = ip_offset(is_ethernet);
    &&& is_ethernet ==> d.len() >= 14 && d[12] == 0x86 && d[13] == 0xdd
    &&& d.len() >= o + 40
    &&& d[o] == 0x60
    &&& d[o + 6] == 0x3a
    &&& payload_len_at(d, o) >= 8
    &&& d.len() >= o + 40 + payload_len_at(d, o)
    &&& d[o + 40] == 0x80 || d[o + 40] == 0x81
    &&& d[o + 41] == 0
    &&& verify_checksum ==> checksum_matches(d, o)
}

fn read_segments(data: &[u8], start: usize) -> (r: [u16; 8])
    requires
        start + 16 <= data@.len(),
    ensures
        r@ == segments_at(data@, start as int),
{
    let mut r: [u16; 8] = [0; 8];
    let n = data.len();
    let mut k: usize = 0;
    while k < 8
        invariant
            0 <= k <= 8,
            start + 16 <= n == data@.len(),
            r@.len() == 8,
            forall|m: int| 0 <= m < k ==> r@[m] == segments_at(data@, start as int)[m],
        decreases 8 - k,
    {
        let v: u16 = data[start + 2 * k] as u16 * 256 + data[start + 2 * k + 1] as u16;
        r[k] = v;
        k = k + 1;
    }
    assert(r@ =~= segments_at(data@, start as int));
    r
}

/// Analyse a captured frame: if it is a valid ICMPv6 echo request or reply,
/// return its source and destination address.
pub fn check_for_icmpv6_ping(data: &[u8], is_ethernet: bool, require_valid_icmpv6_checksum: bool) -> (r:
    Option<IpInfo>)
    ensures
        r is Some <==> is_icmpv6_ping(data@, is_ethernet, require_valid_icmpv6_checksum),
        r matches Some(info) ==> {
            &&& info.src_ip@ == segments_at(data@, ip_offset(is_ethernet) + 8)
            &&& info.dest_ip@ == segments_at(data@, ip_offset(is_ethernet) + 24)
        },
{
    let mut o: usize = 0;
    if is_ethernet {
        if data.len() < 14 || data[12] != 0x86 || data[13] != 0xdd {
            return None;
        }
        o = 14;
    }
    if data.len() < o + 40 || data[o] != 0x60 || data[o + 6] != 0x3a {
        return None;
    }
    let payload_length: u16 = data[o + 4] as u16 * 256 + data[o + 5] as u16;
    let src_ip = read_segments(data, o + 8);
    let dest_ip = read_segments(data, o + 24);
    if payload_length < 8 || data.len() - (o + 40) < payload_length as usize {
        return None;
    }
    let end: usize = o + 40 + payload_length as usize;
    let mut icmp_packet: Vec<u8> = Vec::new();
    let mut j: usize = o + 40;
    while j < end
        invariant
            o + 40 <= j <= end,
            end <= data@.len(),
            icmp_packet@ =~= data@.subrange(o + 40, j as int),
        decreases end - j,
    {
        icmp_packet.push(data[j]);
        j = j + 1;
    }
    assert(icmp_packet@ == icmp_packet_at(data@, o as int));
    if (icmp_packet[0] != 0x80 && icmp_packet[0] != 0x81) || icmp_packet[1] != 0x00 {
        return None;
    }
    let icmp_checksum: u16 = icmp_packet[2] as u16 + icmp_packet[3] as u16 * 256;
    if require_valid_icmpv6_checksum {
        icmp_packet.set(2, 0x00);
        icmp_packet.set(3, 0x00);
        let expected_icmp_checksum = icmpv6_checksum(src_ip, dest_ip, icmp_packet.as_slice());
        if expected_icmp_checksum != icmp_checksum {
            return None;
        }
    }
    Some(IpInfo::new(src_ip, dest_ip))
}

} // verus!
