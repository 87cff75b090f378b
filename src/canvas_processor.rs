//! The aggregator: owns the canvas, paints the pixel updates of each tick,
//! counts packet rates and produces the frames and rate samples to publish.
use vstd::prelude::*;

use fxhash::FxHashMap;

use crate::canvas::{
    lemma_rgb_bytes_len, lemma_rgba_bytes_at, lemma_rgba_bytes_len, pixel_index, png_of, rgb_bytes,
    rgb_canvas_bytes, rgba_bytes, rgba_canvas_bytes, CanvasError, EncodedCanvas, CANVAS_PIXELS,
};
use crate::fx_map::{fx_get, fx_insert, fx_keys, fx_new};
use crate::per_user_pps::{
    ids_fresh, inner_maps_finite, lemma_activity_keeps_ids_unique, lemma_cleanup_keeps_ids_unique,
    lemma_counted_keeps_ids_unique, lemma_reset_keeps_ids_unique,
    activity_step, cleanup, cleanup_table, counted, ensure_existing_activity_updated_and_migrated,
    find_user_info_data_mut, get_all_pps_counters_and_reset, is_disabled, next_disabled_until,
    reset_bucket, spec_is_disabled, table_has_counter, table_has_user, table_view, trips_disable,
    PpsUsers, UserBucket,
};
use crate::pixel::{PixelInfo, Rgb, CANVASH, CANVASW};

verus! {

/// Length of the window over which the packet rate is measured (1 s, in µs).
pub const PPS_WINDOW_US: u64 = 1_000_000;

/// How often idle tracker entries are cleaned up (60 s, in µs).
pub const CLEANUP_INTERVAL_US: u64 = 60_000_000;

/// The column of the pixel at index `p`.
pub open spec fn pixel_x(p: int) -> int {
    p % (CANVASW as int)
}

/// The row of the pixel at index `p`.
pub open spec fn pixel_y(p: int) -> int {
    p / (CANVASW as int)
}

/// Whether update `u` paints pixel `(x, y)`; the brush is clipped at the canvas edge.
pub open spec fn covers(u: PixelInfo, x: int, y: int) -> bool {
    &&& u.pos.x <= x < u.pos.x + u.size.spec_side()
    &&& u.pos.y <= y < u.pos.y + u.size.spec_side()
    &&& 0 <= x < CANVASW
    &&& 0 <= y < CANVASH
}

/// The color that the last of the updates covering `(x, y)` paints there.
pub open spec fn last_paint(updates: Seq<PixelInfo>, x: int, y: int) -> Option<Rgb>
    decreases updates.len(),
{
    if updates.len() == 0 {
        None
    } else if covers(updates.last(), x, y) {
        Some(updates.last().color)
    } else {
        last_paint(updates.drop_last(), x, y)
    }
}

/// A canvas after the updates are painted on it in order.
pub open spec fn painted(old: Seq<Rgb>, updates: Seq<PixelInfo>) -> Seq<Rgb> {
    Seq::new(
        old.len(),
        |p: int|
            match last_paint(updates, pixel_x(p), pixel_y(p)) {
                Some(c) => c,
                None => old[p],
            },
    )
}

/// The overlay of one tick: each pixel that an update painted, with its
/// last color; every other pixel transparent.
pub open spec fn delta_of(updates: Seq<PixelInfo>) -> Seq<Option<Rgb>> {
    Seq::new(
        CANVAS_PIXELS as nat,
        |p: int| last_paint(updates, pixel_x(p), pixel_y(p)),
    )
}

proof fn lemma_index_compose(x: int, y: int)
    requires
        0 <= x < CANVASW,
        0 <= y < CANVASH,
    ensures
        pixel_x(pixel_index(x, y)) == x,
        pixel_y(pixel_index(x, y)) == y,
        0 <= pixel_index(x, y) < CANVAS_PIXELS,
{
    assert((y * 512 + x) % 512 == x && (y * 512 + x) / 512 == y) by (nonlinear_arith)
        requires
            0 <= x < 512,
            0 <= y,
    ;
    assert(y * 512 + x < 262144) by (nonlinear_arith)
        requires
            0 <= x < 512,
            0 <= y < 512,
    ;
}

proof fn lemma_index_decompose(p: int)
    requires
        0 <= p < CANVAS_PIXELS,
    ensures
        0 <= pixel_x(p) < CANVASW,
        0 <= pixel_y(p) < CANVASH,
        p == pixel_index(pixel_x(p), pixel_y(p)),
{
    assert(0 <= p % 512 < 512 && 0 <= p / 512 < 512 && p == (p / 512) * 512 + p % 512) by (nonlinear_arith)
        requires
            0 <= p < 262144,
    ;
}

/// The canvas `c` is `old` with the updates painted, pixel by pixel.
pub open spec fn is_painted(c: Seq<Rgb>, old: Seq<Rgb>, updates: Seq<PixelInfo>) -> bool {
    &&& c.len() == old.len() == CANVAS_PIXELS
    &&& forall|x: int, y: int|
        0 <= x < CANVASW && 0 <= y < CANVASH ==> #[trigger] c[pixel_index(x, y)] == match last_paint(
            updates,
            x,
            y,
        ) {
            Some(col) => col,
            None => old[pixel_index(x, y)],
        }
}

/// The overlay `d` holds the last color painted on each pixel, pixel by pixel.
pub open spec fn is_delta(d: Seq<Option<Rgb>>, updates: Seq<PixelInfo>) -> bool {
    &&& d.len() == CANVAS_PIXELS
    &&& forall|x: int, y: int|
        0 <= x < CANVASW && 0 <= y < CANVASH ==> #[trigger] d[pixel_index(x, y)] == last_paint(
            updates,
            x,
            y,
        )
}

proof fn lemma_painted(c: Seq<Rgb>, old: Seq<Rgb>, updates: Seq<PixelInfo>)
    requires
        is_painted(c, old, updates),
    ensures
        c == painted(old, updates),
{
    assert forall|p: int| 0 <= p < c.len() implies c[p] == #[trigger] painted(old, updates)[p] by {
        lemma_index_decompose(p);
        let x = pixel_x(p);
        let y = pixel_y(p);
        assert(c[pixel_index(x, y)] == match last_paint(updates, x, y) {
            Some(col) => col,
            None => old[pixel_index(x, y)],
        });
    }
    assert(c =~= painted(old, updates));
}

proof fn lemma_delta(d: Seq<Option<Rgb>>, updates: Seq<PixelInfo>)
    requires
        is_delta(d, updates),
    ensures
        d == delta_of(updates),
{
    assert forall|p: int| 0 <= p < d.len() implies d[p] == #[trigger] delta_of(updates)[p] by {
        lemma_index_decompose(p);
        let x = pixel_x(p);
        let y = pixel_y(p);
        assert(d[pixel_index(x, y)] == last_paint(updates, x, y));
    }
    assert(d =~= delta_of(updates));
}

/// Paint one pixel on the canvas and the overlay.
fn paint_pixel(canvas: &mut Vec<Rgb>, delta_canvas: &mut Vec<Option<Rgb>>, x: u16, y: u16, color: Rgb)
    requires
        old(canvas)@.len() == CANVAS_PIXELS,
        old(delta_canvas)@.len() == CANVAS_PIXELS,
        x < CANVASW,
        y < CANVASH,
    ensures
        final(canvas)@.len() == CANVAS_PIXELS,
        final(delta_canvas)@.len() == CANVAS_PIXELS,
        forall|x2: int, y2: int|
            0 <= x2 < CANVASW && 0 <= y2 < CANVASH ==> #[trigger] final(canvas)@[pixel_index(x2, y2)]
                == if x2 == x && y2 == y {
                color
            } else {
                old(canvas)@[pixel_index(x2, y2)]
            },
        forall|x2: int, y2: int|
            0 <= x2 < CANVASW && 0 <= y2 < CANVASH ==> #[trigger] final(delta_canvas)@[pixel_index(
                x2,
                y2,
            )] == if x2 == x && y2 == y {
                Some(color)
            } else {
                old(delta_canvas)@[pixel_index(x2, y2)]
            },
{
    proof {
        lemma_index_compose(x as int, y as int);
    }
    let i: usize = y as usize * 512 + x as usize;
    assert(i == pixel_index(x as int, y as int));
    assert forall|x2: int, y2: int| 0 <= x2 < CANVASW && 0 <= y2 < CANVASH && (x2 != x || y2 != y) implies pixel_index(x2, y2) != i by {
        lemma_index_compose(x2, y2);
    }
    canvas.set(i, color);
    delta_canvas.set(i, Some(color));
}

/// Paint one update: its 1×1 or 2×2 square, clipped at the canvas edge.
fn paint_update(canvas: &mut Vec<Rgb>, delta_canvas: &mut Vec<Option<Rgb>>, u: &PixelInfo)
    requires
        old(canvas)@.len() == CANVAS_PIXELS,
        old(delta_canvas)@.len() == CANVAS_PIXELS,
        u.wf(),
    ensures
        final(canvas)@.len() == CANVAS_PIXELS,
        final(delta_canvas)@.len() == CANVAS_PIXELS,
        forall|x: int, y: int|
            0 <= x < CANVASW && 0 <= y < CANVASH ==> #[trigger] final(canvas)@[pixel_index(x, y)]
                == if covers(*u, x, y) {
                u.color
            } else {
                old(canvas)@[pixel_index(x, y)]
            },
        forall|x: int, y: int|
            0 <= x < CANVASW && 0 <= y < CANVASH ==> #[trigger] final(delta_canvas)@[pixel_index(x, y)]
                == if covers(*u, x, y) {
                Some(u.color)
            } else {
                old(delta_canvas)@[pixel_index(x, y)]
            },
{
    let side = u.size.side();
    let x = u.pos.x;
    let y = u.pos.y;
    paint_pixel(canvas, delta_canvas, x, y, u.color);
    if side == 2 {
        if x + 1 < CANVASW {
            paint_pixel(canvas, delta_canvas, x + 1, y, u.color);
        }
        if y + 1 < CANVASH {
            paint_pixel(canvas, delta_canvas, x, y + 1, u.color);
        }
        if x + 1 < CANVASW && y + 1 < CANVASH {
            paint_pixel(canvas, delta_canvas, x + 1, y + 1, u.color);
        }
    }
}

fn paint_updates(canvas: &mut Vec<Rgb>, delta_canvas: &mut Vec<Option<Rgb>>, updates: &Vec<PixelInfo>)
    requires
        old(canvas)@.len() == CANVAS_PIXELS,
        old(delta_canvas)@.len() == CANVAS_PIXELS,
        forall|p: int| 0 <= p < CANVAS_PIXELS ==> #[trigger] old(delta_canvas)@[p] is None,
        forall|i: int| 0 <= i < updates@.len() ==> #[trigger] updates@[i].wf(),
    ensures
        final(canvas)@ == painted(old(canvas)@, updates@),
        final(delta_canvas)@ == delta_of(updates@),
{
    let ghost c0 = canvas@;
    assert forall|x: int, y: int| 0 <= x < CANVASW && 0 <= y < CANVASH implies #[trigger] delta_canvas@[pixel_index(x, y)] == last_paint(updates@.subrange(0, 0), x, y) by {
        lemma_index_compose(x, y);
    }
    let mut i: usize = 0;
    while i < updates.len()
        invariant
            0 <= i <= updates@.len(),
            forall|j: int| 0 <= j < updates@.len() ==> #[trigger] updates@[j].wf(),
            is_painted(canvas@, c0, updates@.subrange(0, i as int)),
            is_delta(delta_canvas@, updates@.subrange(0, i as int)),
        decreases updates@.len() - i,
    {
        let ghost before = updates@.subrange(0, i as int);
        let ghost after = updates@.subrange(0, i + 1);
        assert(after.drop_last() =~= before);
        assert(after.last() == updates@[i as int]);
        paint_update(canvas, delta_canvas, &updates[i]);
        i = i + 1;
    }
    assert(updates@.subrange(0, updates@.len() as int) =~= updates@);
    proof {
        lemma_painted(canvas@, c0, updates@);
        lemma_delta(delta_canvas@, updates@);
    }
}

/// The adjusted rate: the count scaled from the elapsed microseconds to one second.
pub open spec fn spec_adjust_pps(elapsed_us: u64, pps_counter: usize) -> usize {
    (pps_counter as int * 1_000_000 / elapsed_us as int) as usize
}

/// Get adjusted PPS value which takes lag and other irregularities into account
pub fn adjust_pps(elapsed_since_pps_counter_reset: u64, pps_counter: usize) -> (r: usize)
    requires
        elapsed_since_pps_counter_reset >= PPS_WINDOW_US,
    ensures
        r == pps_counter as int * 1_000_000 / elapsed_since_pps_counter_reset as int,
        r == spec_adjust_pps(elapsed_since_pps_counter_reset, pps_counter),
        r <= pps_counter,
{
    let scaled: u128 = pps_counter as u128 * 1_000_000;
    let r: u128 = scaled / elapsed_since_pps_counter_reset as u128;
    proof {
        let e = elapsed_since_pps_counter_reset as int;
        let c = pps_counter as int;
        assert(c * 1_000_000 <= c * e) by (nonlinear_arith)
            requires
                e >= 1_000_000,
                c >= 0,
        ;
        vstd::arithmetic::div_mod::lemma_div_is_ordered(c * 1_000_000, c * e, e);
        vstd::arithmetic::div_mod::lemma_div_multiples_vanish(c, e);
    }
    r as usize
}

fn adjust_all(counts: &FxHashMap<u64, usize>, elapsed: u64) -> (r: FxHashMap<u64, usize>)
    requires
        elapsed >= PPS_WINDOW_US,
    ensures
        r@ == counts@.map_values(|c: usize| spec_adjust_pps(elapsed, c)),
{
    let keys = fx_keys(counts);
    let mut out: FxHashMap<u64, usize> = fx_new();
    let mut i: usize = 0;
    while i < keys.len()
        invariant
            0 <= i <= keys@.len(),
            elapsed >= PPS_WINDOW_US,
            keys@.to_set() == counts@.dom(),
            forall|k: u64| #[trigger] out@.contains_key(k) <==> exists|j: int| 0 <= j < i && keys@[j] == k,
            forall|k: u64| #[trigger] out@.contains_key(k) ==> counts@.contains_key(k) && out@[k] == spec_adjust_pps(elapsed, counts@[k]),
        decreases keys@.len() - i,
    {
        let k = keys[i];
        assert(keys@.to_set().contains(k));
        match fx_get(counts, k) {
            Some(c) => {
                let a = adjust_pps(elapsed, *c);
                fx_insert(&mut out, k, a);
            },
            None => {},
        }
        i = i + 1;
    }
    assert forall|k: u64| #[trigger] counts@.contains_key(k) implies out@.contains_key(k) by {
        assert(keys@.to_set().contains(k));
    }
    assert(out@ =~= counts@.map_values(|c: usize| spec_adjust_pps(elapsed, c)));
    out
}

/// A rate sample: the adjusted global rate and, when per-source tracking
/// is on, the adjusted rate of each public id.
pub struct PpsInfo {
    pub pps: usize,
    pub per_user_pps: Option<FxHashMap<u64, usize>>,
}

/// The PNG frames of one tick: the full canvas and the overlay of what changed.
pub struct Frames {
    pub full_png: Vec<u8>,
    pub delta_png: Vec<u8>,
}

/// What one tick hands out to publish.
pub struct TickOutput {
    pub pps: Option<PpsInfo>,
    pub frames: Option<Frames>,
}

/// A counter after `n` more packets; it stops at its largest value.
pub open spec fn add_sat(c: usize, n: int) -> usize {
    if c + n > usize::MAX {
        usize::MAX
    } else {
        (c + n) as usize
    }
}

/// Whether cleanup of the tracker is due at `now`.
pub open spec fn cleanup_due(last_cleaned: u64, now: u64) -> bool {
    now > last_cleaned + CLEANUP_INTERVAL_US
}

/// The table and next public id after tracking the sources of the updates in order.
pub open spec fn track_updates(t: Map<u64, UserBucket>, next: u64, now: u64, updates: Seq<PixelInfo>) -> (
    Map<u64, UserBucket>,
    u64,
)
    decreases updates.len(),
{
    if updates.len() == 0 {
        (t, next)
    } else {
        let (t1, n1) = track_updates(t, next, now, updates.drop_last());
        let ip = updates.last().source@;
        let (t2, n2) = if n1 < u64::MAX {
            activity_step(t1, n1, now, ip)
        } else {
            (t1, n1)
        };
        (counted(t2, ip), n2)
    }
}

/// The table after the checks at the start of a tick: cleanup when due, and
/// emptied when the overflow check trips.
pub open spec fn checked_table(t: Map<u64, UserBucket>, until: Option<u64>, last_cleaned: u64, now: u64) -> Map<
    u64,
    UserBucket,
> {
    let t1 = if cleanup_due(last_cleaned, now) {
        cleanup_table(t, now)
    } else {
        t
    };
    if trips_disable(t1.len(), until) {
        Map::empty()
    } else {
        t1
    }
}

/// The table size the overflow check sees at the start of a tick.
pub open spec fn checked_len(t: Map<u64, UserBucket>, last_cleaned: u64, now: u64) -> nat {
    if cleanup_due(last_cleaned, now) {
        cleanup_table(t, now).len()
    } else {
        t.len()
    }
}

/// The adjusted per-source rates of a drained table: one per public id in
/// it, each the adjusted count of an entry with that id.
pub open spec fn is_per_user_sample(m: Map<u64, usize>, t: Map<u64, UserBucket>, elapsed: u64) -> bool {
    &&& forall|id: u64| #[trigger] m.contains_key(id) <==> table_has_user(t, id)
    &&& forall|id: u64| #[trigger]
        m.contains_key(id) ==> exists|c: usize|
            table_has_counter(t, id, c) && m[id] == spec_adjust_pps(elapsed, c)
}

fn white_canvas() -> (r: Vec<Rgb>)
    ensures
        r@.len() == CANVAS_PIXELS,
        forall|p: int| 0 <= p < CANVAS_PIXELS ==> #[trigger] r@[p] == (Rgb { r: 0xff, g: 0xff, b: 0xff }),
{
    let mut v: Vec<Rgb> = Vec::new();
    while v.len() < CANVAS_PIXELS
        invariant
            v@.len() <= CANVAS_PIXELS,
            forall|p: int| 0 <= p < v@.len() ==> #[trigger] v@[p] == (Rgb { r: 0xff, g: 0xff, b: 0xff }),
        decreases CANVAS_PIXELS - v@.len(),
    {
        v.push(Rgb { r: 0xff, g: 0xff, b: 0xff });
    }
    v
}

fn transparent_canvas() -> (r: Vec<Option<Rgb>>)
    ensures
        r@.len() == CANVAS_PIXELS,
        forall|p: int| 0 <= p < CANVAS_PIXELS ==> #[trigger] r@[p] is None,
{
    let mut v: Vec<Option<Rgb>> = Vec::new();
    while v.len() < CANVAS_PIXELS
        invariant
            v@.len() <= CANVAS_PIXELS,
            forall|p: int| 0 <= p < v@.len() ==> #[trigger] v@[p] is None,
        decreases CANVAS_PIXELS - v@.len(),
    {
        v.push(None);
    }
    v
}

/// The aggregator's state: the authoritative canvas, the overlay of the
/// current tick, and the rate counters.
pub struct Aggregator {
    canvas: Vec<Rgb>,
    delta_canvas: Vec<Option<Rgb>>,
    pps_counter: usize,
    pps_counter_reset_at: u64,
    per_user_pps: bool,
    per_user_pps_last_cleaned: u64,
}

impl Aggregator {
    pub closed spec fn wf(&self) -> bool {
        &&& self.canvas@.len() == CANVAS_PIXELS
        &&& self.delta_canvas@.len() == CANVAS_PIXELS
        &&& forall|p: int| 0 <= p < CANVAS_PIXELS ==> #[trigger] self.delta_canvas@[p] is None
    }

    /// The canvas, row by row.
    pub closed spec fn spec_canvas(&self) -> Seq<Rgb> {
        self.canvas@
    }

    /// Packets counted since the rate window opened.
    pub closed spec fn spec_pps_counter(&self) -> usize {
        self.pps_counter
    }

    /// When the rate window opened.
    pub closed spec fn spec_pps_counter_reset_at(&self) -> u64 {
        self.pps_counter_reset_at
    }

    /// Whether per-source tracking is on.
    pub closed spec fn spec_per_user_pps(&self) -> bool {
        self.per_user_pps
    }

    /// When the tracker was last cleaned up.
    pub closed spec fn spec_last_cleaned(&self) -> u64 {
        self.per_user_pps_last_cleaned
    }

    /// A white canvas, counters at zero and windows opened at `now`.
    pub fn new(per_user_pps: bool, now: u64) -> (r: Self)
        ensures
            r.wf(),
            forall|p: int| 0 <= p < CANVAS_PIXELS ==> #[trigger] r.spec_canvas()[p] == (Rgb {
                r: 0xff,
                g: 0xff,
                b: 0xff,
            }),
            r.spec_canvas().len() == CANVAS_PIXELS,
            r.spec_pps_counter() == 0,
            r.spec_pps_counter_reset_at() == now,
            r.spec_per_user_pps() == per_user_pps,
            r.spec_last_cleaned() == now,
    {
        Aggregator {
            canvas: white_canvas(),
            delta_canvas: transparent_canvas(),
            pps_counter: 0,
            pps_counter_reset_at: now,
            per_user_pps,
            per_user_pps_last_cleaned: now,
        }
    }

    /// The color of pixel `(x, y)`.
    pub fn pixel(&self, x: u16, y: u16) -> (r: Rgb)
        requires
            self.wf(),
            x < CANVASW,
            y < CANVASH,
        ensures
            r == self.spec_canvas()[pixel_index(x as int, y as int)],
    {
        proof {
            lemma_index_compose(x as int, y as int);
        }
        self.canvas[y as usize * CANVASW as usize + x as usize]
    }

    /// One tick at `now` with the updates drained from the queue: opens a new
    /// rate window (and hands out the adjusted rates) once a second has
    /// passed, counts and tracks each update, paints them, and hands out the
    /// full canvas and the overlay of this tick as PNG when anything was
    /// painted. The overlay starts transparent again afterwards.
    pub fn tick(&mut self, users: &mut PpsUsers, now: u64, updates: &Vec<PixelInfo>) -> (r: Result<
        TickOutput,
        CanvasError,
    >)
        requires
            old(self).wf(),
            forall|i: int| 0 <= i < updates@.len() ==> #[trigger] updates@[i].wf(),
        ensures
            final(self).wf(),
            final(self).spec_canvas() == painted(old(self).spec_canvas(), updates@),
            final(self).spec_per_user_pps() == old(self).spec_per_user_pps(),
            ({
                let elapsed = elapsed_since(old(self).spec_pps_counter_reset_at(), now);
                let closed = elapsed >= PPS_WINDOW_US;
                &&& final(self).spec_pps_counter() == add_sat(
                    if closed {
                        0
                    } else {
                        old(self).spec_pps_counter()
                    },
                    updates@.len() as int,
                )
                &&& final(self).spec_pps_counter_reset_at() == if closed {
                    now
                } else {
                    old(self).spec_pps_counter_reset_at()
                }
                &&& r is Ok
                &&& r matches Ok(out) ==> {
                    &&& out.pps is Some <==> closed
                    &&& out.pps matches Some(info) ==> {
                        &&& info.pps == spec_adjust_pps(elapsed, old(self).spec_pps_counter())
                        &&& info.per_user_pps is Some <==> old(self).spec_per_user_pps()
                        &&& info.per_user_pps matches Some(m) ==> is_per_user_sample(
                            m@,
                            checked_table(
                                table_view(old(users).users),
                                old(users).disabled_until,
                                old(self).spec_last_cleaned(),
                                now,
                            ),
                            elapsed,
                        )
                    }
                    &&& out.frames is Some <==> updates@.len() > 0
                    &&& out.frames matches Some(f) ==> {
                        &&& f.full_png@ == png_of(
                            rgb_bytes(final(self).spec_canvas()),
                            CANVASW as u32,
                            CANVASH as u32,
                            false,
                        )
                        &&& f.delta_png@ == png_of(
                            rgba_bytes(delta_of(updates@)),
                            CANVASW as u32,
                            CANVASH as u32,
                            true,
                        )
                    }
                }
            }),
            !old(self).spec_per_user_pps() ==> *final(users) == *old(users),
            !old(self).spec_per_user_pps() ==> final(self).spec_last_cleaned() == old(self).spec_last_cleaned(),
            old(self).spec_per_user_pps() ==> tracker_ticked(
                table_view(old(users).users),
                old(users).disabled_until,
                old(users).next_user_id.id,
                old(self).spec_last_cleaned(),
                now,
                elapsed_since(old(self).spec_pps_counter_reset_at(), now) >= PPS_WINDOW_US,
                updates@,
                table_view(final(users).users),
                final(users).disabled_until,
                final(users).next_user_id.id,
                final(self).spec_last_cleaned(),
            ),
    {
        let mut per_user_disabled = true;
        if self.per_user_pps {
            per_user_disabled = check_tracker(users, &mut self.per_user_pps_last_cleaned, now);
        }
        let elapsed = now.saturating_sub(self.pps_counter_reset_at);
        let mut pps: Option<PpsInfo> = None;
        if elapsed >= PPS_WINDOW_US {
            let pps_adjusted = adjust_pps(elapsed, self.pps_counter);
            self.pps_counter_reset_at = now;
            let per_user_pps = if self.per_user_pps {
                Some(per_user_sample(users, elapsed))
            } else {
                None
            };
            pps = Some(PpsInfo { pps: pps_adjusted, per_user_pps });
            self.pps_counter = 0;
        }
        self.pps_counter = self.pps_counter.saturating_add(updates.len());
        if self.per_user_pps && !per_user_disabled {
            track_sources(users, now, updates);
        }
        paint_updates(&mut self.canvas, &mut self.delta_canvas, updates);
        let mut frames: Option<Frames> = None;
        if updates.len() > 0 {
            let full_bytes = rgb_canvas_bytes(&self.canvas);
            let delta_bytes = rgba_canvas_bytes(&self.delta_canvas);
            self.delta_canvas = transparent_canvas();
            proof {
                lemma_rgb_bytes_len(self.canvas@);
                lemma_rgba_bytes_len(delta_of(updates@));
            }
            let full_png = match EncodedCanvas::encode(full_bytes.as_slice(), false) {
                Ok(png) => png,
                Err(e) => {
                    return Err(e);
                },
            };
            let delta_png = match EncodedCanvas::encode(delta_bytes.as_slice(), true) {
                Ok(png) => png,
                Err(e) => {
                    return Err(e);
                },
            };
            frames = Some(Frames { full_png, delta_png });
        }
        Ok(TickOutput { pps, frames })
    }

    /// The canvas as row-major RGB bytes.
    pub fn full_canvas_bytes(&self) -> (r: Vec<u8>)
        ensures
            r@ == rgb_bytes(self.spec_canvas()),
    {
        rgb_canvas_bytes(&self.canvas)
    }

    /// The canvas encoded as PNG.
    pub fn encode_full_canvas(&self) -> (r: Result<Vec<u8>, CanvasError>)
        requires
            self.wf(),
        ensures
            r matches Ok(png) && png@ == png_of(
                rgb_bytes(self.spec_canvas()),
                CANVASW as u32,
                CANVASH as u32,
                false,
            ),
    {
        let bytes = rgb_canvas_bytes(&self.canvas);
        proof {
            lemma_rgb_bytes_len(self.canvas@);
        }
        EncodedCanvas::encode(bytes.as_slice(), false)
    }
}

/// Time from `then` to `now`, zero if the clock went back.
pub open spec fn elapsed_since(then: u64, now: u64) -> u64 {
    if now >= then {
        (now - then) as u64
    } else {
        0
    }
}

/// The tracker state after a tick: the start-of-tick checks, a reset of all
/// counters when the rate window closed, and the sources of the updates
/// tracked unless tracking is off.
pub open spec fn tracker_ticked(
    t0: Map<u64, UserBucket>,
    until0: Option<u64>,
    next0: u64,
    last_cleaned0: u64,
    now: u64,
    window_closed: bool,
    updates: Seq<PixelInfo>,
    t: Map<u64, UserBucket>,
    until: Option<u64>,
    next: u64,
    last_cleaned: u64,
) -> bool {
    let len1 = checked_len(t0, last_cleaned0, now);
    let t2 = checked_table(t0, until0, last_cleaned0, now);
    let t3 = if window_closed {
        t2.map_values(|b: UserBucket| reset_bucket(b))
    } else {
        t2
    };
    &&& until == next_disabled_until(len1, until0, now)
    &&& last_cleaned == if cleanup_due(last_cleaned0, now) {
        now
    } else {
        last_cleaned0
    }
    &&& spec_is_disabled(len1, until0, now) ==> t == t3 && next == next0
    &&& !spec_is_disabled(len1, until0, now) ==> (t, next) == track_updates(t3, next0, now, updates)
}

/// The checks at the start of a tick: cleanup when due, then the overflow check.
fn check_tracker(users: &mut PpsUsers, last_cleaned: &mut u64, now: u64) -> (disabled: bool)
    ensures
        table_view(final(users).users) == checked_table(
            table_view(old(users).users),
            old(users).disabled_until,
            *old(last_cleaned),
            now,
        ),
        final(users).disabled_until == next_disabled_until(
            checked_len(table_view(old(users).users), *old(last_cleaned), now),
            old(users).disabled_until,
            now,
        ),
        final(users).next_user_id == old(users).next_user_id,
        disabled == spec_is_disabled(
            checked_len(table_view(old(users).users), *old(last_cleaned), now),
            old(users).disabled_until,
            now,
        ),
        *final(last_cleaned) == if cleanup_due(*old(last_cleaned), now) {
            now
        } else {
            *old(last_cleaned)
        },
{
    if now > *last_cleaned && now - *last_cleaned > CLEANUP_INTERVAL_US {
        cleanup(&mut users.users, now);
        *last_cleaned = now;
    }
    let ghost t1 = table_view(users.users);
    assert(t1.dom() =~= users.users@.dom());
    let disabled = is_disabled(&mut users.users, &mut users.disabled_until, now);
    assert(table_view(users.users) =~= checked_table(
        table_view(old(users).users),
        old(users).disabled_until,
        *old(last_cleaned),
        now,
    ));
    disabled
}

/// Drain the per-source counters into adjusted rates keyed by public id.
fn per_user_sample(users: &mut PpsUsers, elapsed: u64) -> (r: FxHashMap<u64, usize>)
    requires
        elapsed >= PPS_WINDOW_US,
    ensures
        is_per_user_sample(r@, table_view(old(users).users), elapsed),
        table_view(final(users).users) == table_view(old(users).users).map_values(
            |b: UserBucket| reset_bucket(b),
        ),
        final(users).next_user_id == old(users).next_user_id,
        final(users).disabled_until == old(users).disabled_until,
{
    let ghost t = table_view(users.users);
    let counts = get_all_pps_counters_and_reset(&mut users.users);
    let adjusted = adjust_all(&counts, elapsed);
    assert forall|id: u64| #[trigger] adjusted@.contains_key(id) implies exists|c: usize|
        table_has_counter(t, id, c) && adjusted@[id] == spec_adjust_pps(elapsed, c) by {
        assert(counts@.contains_key(id));
        let c = counts@[id];
        assert(table_has_counter(t, id, c));
        assert(adjusted@[id] == spec_adjust_pps(elapsed, c));
    }
    assert forall|id: u64| #[trigger] adjusted@.contains_key(id) <==> table_has_user(t, id) by {
        assert(adjusted@.contains_key(id) <==> counts@.contains_key(id));
    }
    adjusted
}

/// Track the source of each update in order.
fn track_sources(users: &mut PpsUsers, now: u64, updates: &Vec<PixelInfo>)
    ensures
        (table_view(final(users).users), final(users).next_user_id.id) == track_updates(
            table_view(old(users).users),
            old(users).next_user_id.id,
            now,
            updates@,
        ),
        final(users).disabled_until == old(users).disabled_until,
{
    let mut i: usize = 0;
    while i < updates.len()
        invariant
            0 <= i <= updates@.len(),
            users.disabled_until == old(users).disabled_until,
            (table_view(users.users), users.next_user_id.id) == track_updates(
                table_view(old(users).users),
                old(users).next_user_id.id,
                now,
                updates@.subrange(0, i as int),
            ),
        decreases updates@.len() - i,
    {
        let source = updates[i].source;
        assert(updates@.subrange(0, i + 1).drop_last() =~= updates@.subrange(0, i as int));
        if users.next_user_id.id < u64::MAX {
            ensure_existing_activity_updated_and_migrated(
                &mut users.users,
                &mut users.next_user_id,
                now,
                source,
            );
        }
        match find_user_info_data_mut(&mut users.users, source) {
            Some(user_info) => {
                user_info.pps_counter = user_info.pps_counter.saturating_add(1);
            },
            None => {},
        }
        i = i + 1;
    }
    assert(updates@.subrange(0, updates@.len() as int) =~= updates@);
}

proof fn lemma_last_paint_some(updates: Seq<PixelInfo>, x: int, y: int)
    ensures
        last_paint(updates, x, y) is Some <==> exists|i: int|
            0 <= i < updates.len() && #[trigger] covers(updates[i], x, y),
        last_paint(updates, x, y) matches Some(c) ==> exists|i: int|
            0 <= i < updates.len() && #[trigger] covers(updates[i], x, y) && updates[i].color == c,
    decreases updates.len(),
{
    if updates.len() > 0 {
        let rest = updates.drop_last();
        lemma_last_paint_some(rest, x, y);
        assert forall|i: int| 0 <= i < rest.len() implies rest[i] == updates[i] by {}
        if !covers(updates.last(), x, y) {
            assert forall|i: int| 0 <= i < updates.len() && #[trigger] covers(updates[i], x, y) implies 0 <= i < rest.len() && covers(rest[i], x, y) by {}
        }
    }
}

/// The overlay marks exactly what a tick painted: in the RGBA bytes of the
/// overlay of a tick's updates, pixel `(x, y)` has alpha 0xFF when some update
/// of the tick painted it and alpha 0 when none did; a painted pixel has the
/// color of an update that painted it.
pub proof fn lemma_delta_alpha_marks_painted(updates: Seq<PixelInfo>, x: int, y: int)
    requires
        0 <= x < CANVASW,
        0 <= y < CANVASH,
    ensures
        ({
            let b = rgba_bytes(delta_of(updates));
            let p = pixel_index(x, y);
            &&& b.len() == 4 * CANVAS_PIXELS
            &&& b[4 * p + 3] == 0xff || b[4 * p + 3] == 0
            &&& b[4 * p + 3] == 0xff <==> exists|i: int|
                0 <= i < updates.len() && #[trigger] covers(updates[i], x, y)
            &&& b[4 * p + 3] == 0xff ==> exists|i: int|
                0 <= i < updates.len() && #[trigger] covers(updates[i], x, y) && b[4 * p]
                    == updates[i].color.r && b[4 * p + 1] == updates[i].color.g && b[4 * p + 2]
                    == updates[i].color.b
        }),
{
    let p = pixel_index(x, y);
    lemma_index_compose(x, y);
    lemma_rgba_bytes_at(delta_of(updates), p);
    lemma_last_paint_some(updates, x, y);
}

/// A tick inside the disabled window tracks nothing: when tracking was
/// turned off until `deadline` and a tick comes before it, the tick keeps
/// the deadline, hands out no public id and adds no entry to the table.
pub proof fn lemma_disabled_tick_tracks_nothing(
    t0: Map<u64, UserBucket>,
    deadline: u64,
    next0: u64,
    last_cleaned0: u64,
    now: u64,
    window_closed: bool,
    updates: Seq<PixelInfo>,
    t: Map<u64, UserBucket>,
    until: Option<u64>,
    next: u64,
    last_cleaned: u64,
)
    requires
        now < deadline,
        tracker_ticked(
            t0,
            Some(deadline),
            next0,
            last_cleaned0,
            now,
            window_closed,
            updates,
            t,
            until,
            next,
            last_cleaned,
        ),
    ensures
        until == Some(deadline),
        next == next0,
        forall|k: u64| #[trigger] t.contains_key(k) ==> t0.contains_key(k),
{
}

proof fn lemma_track_updates_keeps_ids_unique(
    t: Map<u64, UserBucket>,
    next: u64,
    now: u64,
    updates: Seq<PixelInfo>,
)
    requires
        ids_fresh(t, next),
        inner_maps_finite(t),
    ensures
        ids_fresh(track_updates(t, next, now, updates).0, track_updates(t, next, now, updates).1),
        inner_maps_finite(track_updates(t, next, now, updates).0),
    decreases updates.len(),
{
    if updates.len() > 0 {
        lemma_track_updates_keeps_ids_unique(t, next, now, updates.drop_last());
        let (t1, n1) = track_updates(t, next, now, updates.drop_last());
        let ip = updates.last().source@;
        if n1 < u64::MAX {
            lemma_activity_keeps_ids_unique(t1, n1, now, ip);
            let (t2, n2) = activity_step(t1, n1, now, ip);
            lemma_counted_keeps_ids_unique(t2, n2, ip);
        } else {
            lemma_counted_keeps_ids_unique(t1, n1, ip);
        }
    }
}

/// Public ids stay unique at every tick: when every public id in the
/// tracker is unique and below the next id to hand out before a tick, the
/// same holds after it. (A new tracker is empty, so it holds from the
/// start; with it, each per-source rate that a tick hands out is the
/// adjusted counter of the one entry with that id.)
pub proof fn lemma_tick_keeps_ids_unique(
    t0: Map<u64, UserBucket>,
    until0: Option<u64>,
    next0: u64,
    last_cleaned0: u64,
    now: u64,
    window_closed: bool,
    updates: Seq<PixelInfo>,
    t: Map<u64, UserBucket>,
    until: Option<u64>,
    next: u64,
    last_cleaned: u64,
)
    requires
        ids_fresh(t0, next0),
        inner_maps_finite(t0),
        tracker_ticked(
            t0,
            until0,
            next0,
            last_cleaned0,
            now,
            window_closed,
            updates,
            t,
            until,
            next,
            last_cleaned,
        ),
    ensures
        ids_fresh(t, next),
        inner_maps_finite(t),
{
    let t1 = if cleanup_due(last_cleaned0, now) {
        cleanup_table(t0, now)
    } else {
        t0
    };
    if cleanup_due(last_cleaned0, now) {
        lemma_cleanup_keeps_ids_unique(t0, next0, now);
    }
    let t2 = checked_table(t0, until0, last_cleaned0, now);
    if trips_disable(t1.len(), until0) {
        assert(t2.dom().is_empty());
    }
    assert(ids_fresh(t2, next0) && inner_maps_finite(t2));
    let t3 = if window_closed {
        t2.map_values(|b: UserBucket| reset_bucket(b))
    } else {
        t2
    };
    if window_closed {
        lemma_reset_keeps_ids_unique(t2, next0);
    }
    if !spec_is_disabled(checked_len(t0, last_cleaned0, now), until0, now) {
        lemma_track_updates_keeps_ids_unique(t3, next0, now, updates);
    }
}

/// The adjusted rate is within a tenth of the measured rate: over a window
/// of at least one second in which at least ten packets per second came in,
/// the rate handed out lies between 90% and 100% of
/// `count × 1 000 000 / elapsed`.
pub proof fn lemma_adjusted_rate_within_tenth(elapsed_us: u64, pps_counter: usize)
    requires
        elapsed_us >= PPS_WINDOW_US,
        pps_counter * 1_000_000 >= 10 * elapsed_us,
    ensures
        spec_adjust_pps(elapsed_us, pps_counter) * elapsed_us <= pps_counter * 1_000_000,
        10 * spec_adjust_pps(elapsed_us, pps_counter) * elapsed_us >= 9 * (pps_counter
            * 1_000_000),
{
    let x = pps_counter as int * 1_000_000;
    let e = elapsed_us as int;
    let q = x / e;
    vstd::arithmetic::div_mod::lemma_fundamental_div_mod(x, e);
    vstd::arithmetic::div_mod::lemma_mod_bound(x, e);
    assert(q <= pps_counter) by {
        assert(pps_counter as int * 1_000_000 <= pps_counter as int * e) by (nonlinear_arith)
            requires
                e >= 1_000_000,
                pps_counter >= 0,
        ;
        vstd::arithmetic::div_mod::lemma_div_is_ordered(x, pps_counter as int * e, e);
        vstd::arithmetic::div_mod::lemma_div_multiples_vanish(pps_counter as int, e);
    }
    assert(spec_adjust_pps(elapsed_us, pps_counter) == q);
    assert(q >= 10) by {
        vstd::arithmetic::div_mod::lemma_div_is_ordered(10 * e, x, e);
        vstd::arithmetic::div_mod::lemma_div_multiples_vanish(10, e);
    }
    assert(q * e <= x && 10 * q * e >= 9 * x) by (nonlinear_arith)
        requires
            x == e * q + x % e,
            0 <= x % e < e,
            q >= 10,
            e > 0,
    ;
}

} // verus!
