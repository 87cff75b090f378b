use ipv6_canvas::canvas::{CanvasError, EncodedCanvas, NudityResult, CANVAS_PIXELS};
use ipv6_canvas::canvas_processor::{adjust_pps, Aggregator};
use ipv6_canvas::cli_args::{max_canvas_fps_range, CliArgs};
use ipv6_canvas::packet::IpInfo;
use ipv6_canvas::per_user_pps::PpsUsers;
use ipv6_canvas::pixel::{PixelInfo, Pos, Rgb, Size};

const WHITE: Rgb = Rgb { r: 0xff, g: 0xff, b: 0xff };

fn update(x: u16, y: u16, size: Size, color: Rgb) -> PixelInfo {
    PixelInfo { source: [0x2001, 0xdb8, 0, 1, 0, 0, 0, 1], pos: Pos { x, y }, color, size }
}

fn from_dst(s4: u16, s5: u16, s6: u16, s7: u16) -> Option<PixelInfo> {
    let src = [0x2001, 0xdb8, 0, 1, 0, 0, 0, 1];
    PixelInfo::from_ip_info(IpInfo::new(src, [0x2602, 0xfa9b, 0x0202, 0, s4, s5, s6, s7]))
}

fn decode_png(bytes: &[u8]) -> image::DynamicImage {
    image::load_from_memory_with_format(bytes, image::ImageFormat::Png).expect("valid png")
}

#[test]
fn adjusted_pps_scales_to_one_second() {
    assert_eq!(adjust_pps(1_000_000, 3000), 3000);
    assert_eq!(adjust_pps(2_000_000, 3000), 1500);
    assert_eq!(adjust_pps(1_100_000, 3000), 2727);
    assert_eq!(adjust_pps(1_000_000, 0), 0);
}

#[test]
fn scenario_single_pixel_painted_after_tick() {
    let mut agg = Aggregator::new(false, 0);
    let mut users = PpsUsers::new();
    let p = from_dst(0x1000, 0x0001, 0x0000, 0xff00).expect("pixel");
    let out = agg.tick(&mut users, 100_000, &vec![p]).expect("tick");
    assert_eq!(agg.pixel(0, 1), Rgb { r: 0, g: 255, b: 0 });
    assert_eq!(agg.pixel(0, 0), WHITE);
    assert_eq!(agg.pixel(1, 1), WHITE);
    assert!(out.frames.is_some());
    assert!(out.pps.is_none());
}

#[test]
fn scenario_area_2x2_painted_after_tick() {
    let mut agg = Aggregator::new(false, 0);
    let mut users = PpsUsers::new();
    let p = from_dst(0x2005, 0x0010, 0x00ff, 0xabcd).expect("pixel");
    agg.tick(&mut users, 100_000, &vec![p]).expect("tick");
    let c = Rgb { r: 0xff, g: 0xab, b: 0xcd };
    for (x, y) in [(5, 16), (6, 16), (5, 17), (6, 17)] {
        assert_eq!(agg.pixel(x, y), c);
    }
    for (x, y) in [(7, 16), (5, 18), (4, 16), (5, 15)] {
        assert_eq!(agg.pixel(x, y), WHITE);
    }
}

#[test]
fn scenario_invalid_addresses_write_nothing() {
    assert!(from_dst(0x31ff, 0x0010, 0, 0).is_none());
    assert!(from_dst(0x1200, 0x0200, 0, 0).is_none());
    let mut agg = Aggregator::new(false, 0);
    let mut users = PpsUsers::new();
    let before = agg.full_canvas_bytes();
    let out = agg.tick(&mut users, 100_000, &vec![]).expect("tick");
    assert!(out.frames.is_none());
    assert_eq!(agg.full_canvas_bytes(), before);
}

#[test]
fn area_is_clipped_at_the_edge() {
    let mut agg = Aggregator::new(false, 0);
    let mut users = PpsUsers::new();
    let c = Rgb { r: 1, g: 2, b: 3 };
    agg.tick(&mut users, 1, &vec![update(511, 511, Size::Area2x2, c)]).expect("tick");
    assert_eq!(agg.pixel(511, 511), c);
    assert_eq!(agg.pixel(0, 0), WHITE);
    assert_eq!(agg.pixel(510, 511), WHITE);
    let bytes = agg.full_canvas_bytes();
    assert_eq!(bytes.len(), CANVAS_PIXELS * 3);
    assert_eq!(bytes.iter().filter(|b| **b != 0xff).count(), 3);
}

#[test]
fn later_updates_win() {
    let mut agg = Aggregator::new(false, 0);
    let mut users = PpsUsers::new();
    let a = Rgb { r: 10, g: 0, b: 0 };
    let b = Rgb { r: 0, g: 20, b: 0 };
    agg.tick(&mut users, 1, &vec![update(3, 3, Size::Area2x2, a), update(4, 4, Size::SinglePixel, b)]).expect("tick");
    assert_eq!(agg.pixel(3, 3), a);
    assert_eq!(agg.pixel(4, 4), b);
}

#[test]
fn published_full_png_matches_canvas() {
    let mut agg = Aggregator::new(false, 0);
    let mut users = PpsUsers::new();
    let ups = vec![update(0, 0, Size::Area2x2, Rgb { r: 9, g: 8, b: 7 }), update(100, 200, Size::SinglePixel, Rgb { r: 0, g: 0, b: 0 })];
    let out = agg.tick(&mut users, 1, &ups).expect("tick");
    let frames = out.frames.expect("frames");
    let img = decode_png(&frames.full_png);
    assert_eq!(img.width(), 512);
    assert_eq!(img.height(), 512);
    let rgb = img.as_rgb8().expect("rgb image");
    assert_eq!(rgb.as_raw(), &agg.full_canvas_bytes());
    assert_eq!(agg.encode_full_canvas().expect("png"), frames.full_png);
}

#[test]
fn delta_png_is_opaque_exactly_where_painted() {
    let mut agg = Aggregator::new(false, 0);
    let mut users = PpsUsers::new();
    let c = Rgb { r: 0xff, g: 0xab, b: 0xcd };
    agg.tick(&mut users, 1, &vec![update(9, 9, Size::SinglePixel, Rgb { r: 1, g: 1, b: 1 })]).expect("tick");
    let out = agg.tick(&mut users, 2, &vec![update(5, 16, Size::Area2x2, c)]).expect("tick");
    let img = decode_png(&out.frames.expect("frames").delta_png);
    let rgba = img.as_rgba8().expect("rgba image");
    for (x, y, p) in rgba.enumerate_pixels() {
        let painted = (5..7).contains(&x) && (16..18).contains(&y);
        if painted {
            assert_eq!(p.0, [0xff, 0xab, 0xcd, 0xff]);
        } else {
            assert_eq!(p.0, [0, 0, 0, 0]);
        }
    }
}

#[test]
fn scenario_3000_pings_in_one_second() {
    let mut agg = Aggregator::new(false, 0);
    let mut users = PpsUsers::new();
    let mut painted = Vec::new();
    for tick in 0..10u64 {
        let mut ups = Vec::new();
        for k in 0..300u16 {
            let i = tick as u16 * 300 + k;
            let u = update(i % 512, i / 512, Size::SinglePixel, Rgb { r: (i % 251) as u8, g: 1, b: 2 });
            painted.push(u);
            ups.push(u);
        }
        let out = agg.tick(&mut users, tick * 100_000, &ups).expect("tick");
        assert!(out.pps.is_none());
    }
    let out = agg.tick(&mut users, 1_000_000, &vec![]).expect("tick");
    let info = out.pps.expect("pps sample");
    assert!(info.pps >= 2700 && info.pps <= 3300);
    assert_eq!(info.pps, 3000);
    assert!(info.per_user_pps.is_none());
    assert_eq!(users.users.len(), 0);
    let png = agg.encode_full_canvas().expect("png");
    let img = decode_png(&png);
    let rgb = img.as_rgb8().expect("rgb");
    for u in &painted {
        let p = rgb.get_pixel(u.pos.x as u32, u.pos.y as u32);
        assert_eq!(p.0, [u.color.r, u.color.g, u.color.b]);
    }
    let changed = rgb.pixels().filter(|p| p.0 != [0xff, 0xff, 0xff]).count();
    assert_eq!(changed, 3000);
}

#[test]
fn per_user_rates_are_reported_by_id() {
    let mut agg = Aggregator::new(true, 0);
    let mut users = PpsUsers::new();
    let mut a = update(1, 1, Size::SinglePixel, WHITE);
    a.source = [1, 2, 3, 4, 0, 0, 0, 1];
    let mut b = a;
    b.source = [9, 9, 9, 9, 0, 0, 0, 1];
    agg.tick(&mut users, 0, &vec![a, a, a, b]).expect("tick");
    let out = agg.tick(&mut users, 2_000_000, &vec![]).expect("tick");
    let info = out.pps.expect("sample");
    assert_eq!(info.pps, 2);
    let per_user = info.per_user_pps.expect("per-user rates");
    assert_eq!(per_user.len(), 2);
    assert_eq!(per_user[&1], 1);
    assert_eq!(per_user[&2], 0);
    assert_eq!(users.user_id_of(a.source), Some(1));
}

#[test]
fn tracking_is_off_while_disabled() {
    let mut agg = Aggregator::new(true, 0);
    let mut users = PpsUsers::new();
    let mut ups = Vec::new();
    for i in 0..1024u16 {
        let mut u = update(0, 0, Size::SinglePixel, WHITE);
        u.source = [1, 1, i, 0, 0, 0, 0, 0];
        ups.push(u);
    }
    agg.tick(&mut users, 0, &ups).expect("tick");
    assert_eq!(users.users.len(), 1024);
    agg.tick(&mut users, 1_000, &ups).expect("tick");
    assert_eq!(users.users.len(), 0);
    assert_eq!(users.disabled_until, Some(30_001_000));
    agg.tick(&mut users, 20_000_000, &ups).expect("tick");
    assert_eq!(users.users.len(), 0);
    agg.tick(&mut users, 31_000_000, &ups[..3].to_vec()).expect("tick");
    assert_eq!(users.users.len(), 3);
}

#[test]
fn encode_rejects_wrong_size() {
    assert_eq!(EncodedCanvas::encode(&[0u8; 12], false), Err(CanvasError::WrongSize));
    assert!(EncodedCanvas::new(&[0u8; 5], true).is_err());
    let white = vec![0xffu8; CANVAS_PIXELS * 3];
    let mut enc = EncodedCanvas::new(&white, false).expect("png");
    let png = enc.get_encoded();
    assert_eq!(decode_png(&png).as_rgb8().unwrap().as_raw(), &white);
    enc.update(vec![1, 2, 3]);
    assert_eq!(enc.get_encoded(), vec![1, 2, 3]);
}

#[test]
fn fps_range_is_checked() {
    assert_eq!(max_canvas_fps_range("10"), Ok(10));
    assert_eq!(max_canvas_fps_range("1000"), Ok(1000));
    assert!(max_canvas_fps_range("0").is_err());
    assert!(max_canvas_fps_range("1001").is_err());
    assert!(max_canvas_fps_range("ten").is_err());
    assert_eq!(max_canvas_fps_range("+25"), Ok(25));
    assert_eq!(max_canvas_fps_range("0010"), Ok(10));
    assert!(max_canvas_fps_range(" 10").is_err());
    assert!(max_canvas_fps_range("-5").is_err());
    assert!(max_canvas_fps_range("").is_err());
    assert!(max_canvas_fps_range("+").is_err());
    assert!(max_canvas_fps_range("70000").is_err());
    let args = CliArgs {
        interface: String::from("eth0"),
        max_canvas_fps: 10,
        require_valid_checksum: false,
        bind: String::from("::"),
        port: 8080,
        public_prefix: None,
        trusted_proxy_ranges: vec![],
    };
    assert_eq!(args.update_interval_nanos(), 100_000_000);
    assert!(!NudityResult { is_nude: false }.is_nude);
}
