//! The pixel that a ping's destination address names.
//!
//! Segments 4 to 7 of the destination address carry the brush size, the
//! position and the color:
//! `s4 = size << 12 | x`, `s5 = y`, `s6 = r`, `s7 = g << 8 | b`.
use vstd::prelude::*;

use crate::packet::{check_for_icmpv6_ping, ip_offset, is_icmpv6_ping, segments_at, IpInfo};

verus! {

/// Width of the canvas in pixels.
pub const CANVASW: u16 = 512;

/// Height of the canvas in pixels.
pub const CANVASH: u16 = 512;

/// Brush size of a pixel update.
#[derive(Debug, Clone, Copy, PartialEq, Eq)]
pub enum Size {
    SinglePixel,
    Area2x2,
}

impl Size {
    pub open spec fn spec_side(self) -> u16 {
        match self {
            Size::SinglePixel => 1,
            Size::Area2x2 => 2,
        }
    }

    /// The side length of the painted square.
    pub fn side(&self) -> (r: u16)
        ensures
            r == self.spec_side(),
    {
        match self {
            Size::SinglePixel => 1,
            Size::Area2x2 => 2,
        }
    }
}

#[derive(Debug, Clone, Copy, PartialEq, Eq)]
pub struct Pos {
    pub x: u16,
    pub y: u16,
}

/// An opaque RGB color.
#[derive(Debug, Clone, Copy, PartialEq, Eq)]
pub struct Rgb {
    pub r: u8,
    pub g: u8,
    pub b: u8,
}

/// A decoded pixel update.
#[derive(Debug, Clone, Copy, PartialEq, Eq)]
pub struct PixelInfo {
    pub source: [u16; 8],
    pub pos: Pos,
    pub color: Rgb,
    pub size: Size,
}

impl PixelInfo {
    /// The position lies on the canvas.
    pub open spec fn wf(self) -> bool {
        self.pos.x < CANVASW && self.pos.y < CANVASH
    }
}

/// The size nibble of segment 4.
pub open spec fn size_nibble(s4: u16) -> u16 {
    (s4 >> 12u16) & 0xfu16
}

/// The pixel fields that a destination address names, before any check.
pub open spec fn addr_x(d: Seq<u16>) -> u16 {
    d[4] & 0x0fffu16
}

pub open spec fn addr_y(d: Seq<u16>) -> u16 {
    d[5] & 0x0fffu16
}

pub open spec fn addr_r(d: Seq<u16>) -> u8 {
    (d[6] & 0x00ffu16) as u8
}

pub open spec fn addr_g(d: Seq<u16>) -> u8 {
    ((d[7] >> 8u16) & 0xffu16) as u8
}

pub open spec fn addr_b(d: Seq<u16>) -> u8 {
    (d[7] & 0xffu16) as u8
}

/// Whether a destination address names a valid pixel.
pub open spec fn names_pixel(d: Seq<u16>) -> bool {
    &&& size_nibble(d[4]) == 1 || size_nibble(d[4]) == 2
    &&& addr_x(d) < CANVASW
    &&& addr_y(d) < CANVASH
}

/// `p` is the pixel that destination `d` names, painted by `src`.
pub open spec fn is_pixel_of(p: PixelInfo, src: Seq<u16>, d: Seq<u16>) -> bool {
    &&& p.source@ == src
    &&& p.pos.x == addr_x(d)
    &&& p.pos.y == addr_y(d)
    &&& p.color == Rgb { r: addr_r(d), g: addr_g(d), b: addr_b(d) }
    &&& p.size.spec_side() == size_nibble(d[4])
}

/// The destination address segments 4 to 7 that name a pixel.
pub open spec fn pixel_segments(size: u16, x: u16, y: u16, r: u8, g: u8, b: u8) -> Seq<u16> {
    seq![
        (size << 12u16) | (x & 0x0fffu16),
        y & 0x0fffu16,
        (r as u16) & 0x00ffu16,
        ((g as u16) << 8u16) | ((b as u16) & 0xffu16),
    ]
}

impl PixelInfo {
    /// The pixel that the destination address of a ping names, if it names one.
    pub fn from_ip_info(ip_info: IpInfo) -> (r: Option<PixelInfo>)
        ensures
            r is Some <==> names_pixel(ip_info.dest_ip@),
            r matches Some(p) ==> p.wf() && is_pixel_of(p, ip_info.src_ip@, ip_info.dest_ip@),
    {
        let segments = ip_info.dest_ip;
        let size = (segments[4] >> 12) & 0xf;
        let x = segments[4] & 0x0fff;
        let y = segments[5] & 0x0fff;
        let red = (segments[6] & 0x00ff) as u8;
        let green = ((segments[7] >> 8) & 0xff) as u8;
        let blue = (segments[7] & 0x00ff) as u8;
        let size = if size == 1 {
            Size::SinglePixel
        } else if size == 2 {
            Size::Area2x2
        } else {
            return None;
        };
        if x >= CANVASW || y >= CANVASH {
            return None;
        }
        Some(PixelInfo { source: ip_info.src_ip, pos: Pos { x, y }, color: Rgb { r: red, g: green, b: blue }, size })
    }
}

/// Whether a captured frame is a ping whose destination names a pixel.
pub open spec fn is_pixel_ping(d: Seq<u8>, is_ethernet: bool, verify_checksum: bool) -> bool {
    &&& is_icmpv6_ping(d, is_ethernet, verify_checksum)
    &&& names_pixel(segments_at(d, ip_offset(is_ethernet) + 24))
}

/// Decode a captured frame into the pixel update it carries, if any.
pub fn decode_ping(data: &[u8], is_ethernet: bool, require_valid_icmpv6_checksum: bool) -> (r:
    Option<PixelInfo>)
    ensures
        r is Some <==> is_pixel_ping(data@, is_ethernet, require_valid_icmpv6_checksum),
        r matches Some(p) ==> p.wf() && is_pixel_of(
            p,
            segments_at(data@, ip_offset(is_ethernet) + 8),
            segments_at(data@, ip_offset(is_ethernet) + 24),
        ),
{
    match check_for_icmpv6_ping(data, is_ethernet, require_valid_icmpv6_checksum) {
        Some(ip_info) => PixelInfo::from_ip_info(ip_info),
        None => None,
    }
}

/// Round trip of the address layout: for every size in {1, 2}, every
/// position on the canvas and every color, the address that encodes them
/// decodes to the same size, position and color.
pub proof fn lemma_pixel_address_round_trip(
    d: Seq<u16>,
    size: u16,
    x: u16,
    y: u16,
    r: u8,
    g: u8,
    b: u8,
)
    requires
        d.len() == 8,
        d.subrange(4, 8) == pixel_segments(size, x, y, r, g, b),
        size == 1 || size == 2,
        x < CANVASW,
        y < CANVASH,
    ensures
        names_pixel(d),
        size_nibble(d[4]) == size,
        addr_x(d) == x,
        addr_y(d) == y,
        addr_r(d) == r,
        addr_g(d) == g,
        addr_b(d) == b,
{
    assert(d[4] == d.subrange(4, 8)[0]);
    assert(d[5] == d.subrange(4, 8)[1]);
    assert(d[6] == d.subrange(4, 8)[2]);
    assert(d[7] == d.subrange(4, 8)[3]);
    let s4 = d[4];
    let s5 = d[5];
    let s6 = d[6];
    let s7 = d[7];
    assert(((((size << 12u16) | (x & 0x0fffu16)) >> 12u16) & 0xfu16) == size
        && (((size << 12u16) | (x & 0x0fffu16)) & 0x0fffu16) == x) by (bit_vector)
        requires
            size == 1 || size == 2,
            x < 512,
    ;
    assert(((y & 0x0fffu16) & 0x0fffu16) == y) by (bit_vector)
        requires
            y < 512,
    ;
    assert((((r as u16) & 0x00ffu16) & 0x00ffu16) as u8 == r) by (bit_vector);
    assert((((((g as u16) << 8u16) | ((b as u16) & 0xffu16)) >> 8u16) & 0xffu16) as u8 == g
        && ((((g as u16) << 8u16) | ((b as u16) & 0xffu16)) & 0xffu16) as u8 == b) by (bit_vector);
}

} // verus!
