//! Command-line settings.
use vstd::prelude::*;

verus! {

/// Listen for IPv6 pings and use them to draw on a canvas available on a webserver.
pub struct CliArgs {
    /// Name of the interface on which to sniff on for pings
    pub interface: String,
    /// How often the canvas is allowed to update per second max.
    pub max_canvas_fps: u16,
    /// Require valid ICMPv6 ping checksums in order to accept pixel updates.
    pub require_valid_checksum: bool,
    /// What address the webserver should bind to
    pub bind: String,
    /// What port the webserver should bind to
    pub port: u16,
    /// The first 4 segments to be displayed in frontends for the user. Example: "aaaa:bbbb:cccc:dddd"
    pub public_prefix: Option<String>,
    /// Address ranges of proxies trusted to report the client address (CIDR notation)
    pub trusted_proxy_ranges: Vec<String>,
}

/// Lowest accepted frame rate.
pub const MIN_CANVAS_FPS: u16 = 1;

/// Highest accepted frame rate.
pub const MAX_CANVAS_FPS: u16 = 1000;

/// Whether every character is an ASCII decimal digit.
pub open spec fn all_decimal_digits(s: Seq<char>) -> bool {
    forall|i: int| 0 <= i < s.len() ==> '0' <= #[trigger] s[i] <= '9'
}

/// The number that a string of decimal digits spells.
pub open spec fn decimal_value(s: Seq<char>) -> int
    decreases s.len(),
{
    if s.len() == 0 {
        0
    } else {
        decimal_value(s.drop_last()) * 10 + (s.last() as int - '0' as int)
    }
}

/// What `u16::from_str` reads from a text: an optional `+` followed by at
/// least one decimal digit, spelling a number that fits in a `u16`;
/// anything else (signs, spaces, other characters, overflow) is an error.
pub open spec fn parsed_u16(s: Seq<char>) -> Option<u16> {
    let digits = if s.len() > 0 && s[0] == '+' {
        s.drop_first()
    } else {
        s
    };
    if digits.len() > 0 && all_decimal_digits(digits) && decimal_value(digits) <= u16::MAX {
        Some(decimal_value(digits) as u16)
    } else {
        None
    }
}

/// Relies on `clap_num::number_range` for `u16`: it parses the text with
/// `u16::from_str` and accepts the number when it lies within `[min, max]`;
/// it asserts `min <= max` in debug builds.
#[verifier::external_body]
fn number_range_u16(s: &str, min: u16, max: u16) -> (r: Result<u16, String>)
    requires
        min <= max,
    ensures
        r is Ok <==> (parsed_u16(s@) matches Some(n) && min <= n <= max),
        r matches Ok(v) ==> parsed_u16(s@) == Some(v),
{
    clap_num::number_range(s, min, max)
}

/// Parse a frame rate and accept it only within 1 to 1000.
pub fn max_canvas_fps_range(s: &str) -> (r: Result<u16, String>)
    ensures
        r is Ok <==> (parsed_u16(s@) matches Some(n) && MIN_CANVAS_FPS <= n <= MAX_CANVAS_FPS),
        r matches Ok(v) ==> parsed_u16(s@) == Some(v),
{
    number_range_u16(s, MIN_CANVAS_FPS, MAX_CANVAS_FPS)
}

impl CliArgs {
    /// The aggregator's tick period in nanoseconds.
    pub fn update_interval_nanos(&self) -> (r: u64)
        requires
            self.max_canvas_fps >= 1,
        ensures
            r == 1_000_000_000int / self.max_canvas_fps as int,
    {
        1_000_000_000 / self.max_canvas_fps as u64
    }
}

} // verus!
