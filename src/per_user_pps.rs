//! Per-source packet rate tracking, with caps against sources that spread
//! over many addresses.
//!
//! Sources are grouped by their /48 prefix. A /48 entry counts each of its
//! /64 prefixes apart until it holds too many of them; then it collapses
//! into a single counter for the whole /48, for good.
use vstd::prelude::*;

use fxhash::FxHashMap;

use crate::fx_map::{fx_clear, fx_get, fx_get_mut, fx_insert, fx_keys, fx_len, fx_new, fx_remove};

verus! {

/// Most /48 entries the table holds.
pub const MAX_PREFIX48_ENTRIES: usize = 1024;

/// Most /64 entries one /48 entry holds before it collapses.
pub const MAX_PREFIX64_ENTRIES: usize = 1024;

/// How long an entry may stay idle before cleanup removes it (one hour, in µs).
pub const MAX_IDLE_US: u64 = 3_600_000_000;

/// How long tracking stays off after the table overflowed (30 s, in µs).
pub const DISABLE_US: u64 = 30_000_000;

/// Public identifier of a tracked source.
#[derive(Clone, Copy, PartialEq, Eq, Hash, Debug)]
pub struct PpsPublicUser {
    pub id: u64,
}

/// The /48 prefix of a source address.
#[derive(Hash, PartialEq, Eq, Clone, Copy, Debug)]
pub struct PpsPrivateUser48 {
    /// First 3 address segments
    prefix: [u16; 3],
}

/// The /64 prefix of a source address.
#[derive(Hash, PartialEq, Eq, Clone, Copy, Debug)]
pub struct PpsPrivateUser64 {
    /// First 4 address segments
    prefix: [u16; 4],
}

/// The table key of the /48 prefix of an address.
pub open spec fn key48(a: Seq<u16>) -> u64 {
    (a[0] as int * 0x1_0000_0000 + a[1] as int * 0x1_0000 + a[2] as int) as u64
}

/// The table key of the /64 prefix of an address.
pub open spec fn key64(a: Seq<u16>) -> u64 {
    (a[0] as int * 0x1_0000_0000_0000 + a[1] as int * 0x1_0000_0000 + a[2] as int * 0x1_0000
        + a[3] as int) as u64
}

impl View for PpsPrivateUser48 {
    type V = Seq<u16>;

    closed spec fn view(&self) -> Seq<u16> {
        self.prefix@
    }
}

impl View for PpsPrivateUser64 {
    type V = Seq<u16>;

    closed spec fn view(&self) -> Seq<u16> {
        self.prefix@
    }
}

/// A /48 prefix is determined by its segments: two values with the same
/// segments are equal, so `from_addr` of two addresses gives equal values
/// exactly when their first three segments agree.
pub proof fn lemma_prefix48_determined(a: PpsPrivateUser48, b: PpsPrivateUser48)
    ensures
        a@.len() == 3,
        a == b <==> a@ == b@,
{
    if a@ == b@ {
        assert(a.prefix =~= b.prefix);
    }
}

/// A /64 prefix is determined by its segments: two values with the same
/// segments are equal, so `from_addr` of two addresses gives equal values
/// exactly when their first four segments agree.
pub proof fn lemma_prefix64_determined(a: PpsPrivateUser64, b: PpsPrivateUser64)
    ensures
        a@.len() == 4,
        a == b <==> a@ == b@,
{
    if a@ == b@ {
        assert(a.prefix =~= b.prefix);
    }
}

impl PpsPrivateUser48 {
    /// The /48 prefix of an address: its first three segments.
    pub fn from_addr(user_address: [u16; 8]) -> (r: Self)
        ensures
            r@ == user_address@.subrange(0, 3),
            forall|o: Self| o == r <==> #[trigger] o@ == user_address@.subrange(0, 3),
    {
        let r = Self { prefix: [user_address[0], user_address[1], user_address[2]] };
        assert(r.prefix@ =~= user_address@.subrange(0, 3));
        assert forall|o: Self| o == r <==> #[trigger] o@ == user_address@.subrange(0, 3) by {
            lemma_prefix48_determined(o, r);
        }
        r
    }

    /// The prefix packed into one integer, first segment highest.
    pub fn key(&self) -> (r: u64)
        ensures
            r as int == self@[0] * 0x1_0000_0000 + self@[1] * 0x1_0000
                + self@[2],
    {
        self.prefix[0] as u64 * 0x1_0000_0000 + self.prefix[1] as u64 * 0x1_0000
            + self.prefix[2] as u64
    }
}

impl PpsPrivateUser64 {
    /// The /64 prefix of an address: its first four segments.
    pub fn from_addr(user_address: [u16; 8]) -> (r: Self)
        ensures
            r@ == user_address@.subrange(0, 4),
            forall|o: Self| o == r <==> #[trigger] o@ == user_address@.subrange(0, 4),
    {
        let r = Self {
            prefix: [user_address[0], user_address[1], user_address[2], user_address[3]],
        };
        assert(r.prefix@ =~= user_address@.subrange(0, 4));
        assert forall|o: Self| o == r <==> #[trigger] o@ == user_address@.subrange(0, 4) by {
            lemma_prefix64_determined(o, r);
        }
        r
    }

    /// The prefix packed into one integer, first segment highest.
    pub fn key(&self) -> (r: u64)
        ensures
            r as int == self@[0] * 0x1_0000_0000_0000 + self@[1] * 0x1_0000_0000
                + self@[2] * 0x1_0000 + self@[3],
    {
        self.prefix[0] as u64 * 0x1_0000_0000_0000 + self.prefix[1] as u64 * 0x1_0000_0000
            + self.prefix[2] as u64 * 0x1_0000 + self.prefix[3] as u64
    }
}

fn addr_key48(user_ip: [u16; 8]) -> (r: u64)
    ensures
        r == key48(user_ip@),
{
    PpsPrivateUser48::from_addr(user_ip).key()
}

fn addr_key64(user_ip: [u16; 8]) -> (r: u64)
    ensures
        r == key64(user_ip@),
{
    PpsPrivateUser64::from_addr(user_ip).key()
}

/// What is known of one tracked source.
#[derive(Clone, Copy, PartialEq, Eq, Debug)]
pub struct PpsUserInfoData {
    pub last_seen: u64,
    pub user_id: PpsPublicUser,
    pub pps_counter: usize,
}

impl PpsUserInfoData {
    pub fn get_user_id(&self) -> (r: PpsPublicUser)
        ensures
            r == self.user_id,
    {
        self.user_id
    }
}

/// A /48 entry: its /64 prefixes counted apart, or one counter for all of it.
pub enum PpsUserInfo {
    User64 { data_map: FxHashMap<u64, PpsUserInfoData> },
    User48 { data: PpsUserInfoData },
}

/// The mathematical value of a /48 entry.
pub ghost enum UserBucket {
    Prefix64(Map<u64, PpsUserInfoData>),
    Prefix48(PpsUserInfoData),
}

impl View for PpsUserInfo {
    type V = UserBucket;

    open spec fn view(&self) -> UserBucket {
        match self {
            PpsUserInfo::User64 { data_map } => UserBucket::Prefix64(data_map@),
            PpsUserInfo::User48 { data } => UserBucket::Prefix48(*data),
        }
    }
}

/// The table as a map from /48 key to the value of its entry.
pub open spec fn table_view(m: FxHashMap<u64, PpsUserInfo>) -> Map<u64, UserBucket> {
    m@.map_values(|v: PpsUserInfo| v@)
}

/// The time at which tracking comes back after being turned off at `now`.
pub open spec fn disable_deadline(now: u64) -> u64 {
    if now + DISABLE_US > u64::MAX {
        u64::MAX
    } else {
        (now + DISABLE_US) as u64
    }
}

/// Whether tracking is off at `now`, for a table of `len` entries.
pub open spec fn spec_is_disabled(len: nat, until: Option<u64>, now: u64) -> bool {
    match until {
        Some(t) => t > now,
        None => len >= MAX_PREFIX48_ENTRIES,
    }
}

/// Whether the check at `now` finds the table overflowing, clears it and turns tracking off.
pub open spec fn trips_disable(len: nat, until: Option<u64>) -> bool {
    until is None && len >= MAX_PREFIX48_ENTRIES
}

/// The disabled-until time after the check at `now`.
pub open spec fn next_disabled_until(len: nat, until: Option<u64>, now: u64) -> Option<u64> {
    match until {
        Some(t) => if t > now {
            Some(t)
        } else {
            None
        },
        None => if len >= MAX_PREFIX48_ENTRIES {
            Some(disable_deadline(now))
        } else {
            None
        },
    }
}

/// Whether per-source tracking is off at `now`. A table that has reached its
/// cap is cleared here and tracking stays off for 30 seconds; once that
/// window has passed it comes back.
pub fn is_disabled(
    pps_users: &mut FxHashMap<u64, PpsUserInfo>,
    pps_users_disabled_until: &mut Option<u64>,
    now: u64,
) -> (r: bool)
    ensures
        r == spec_is_disabled(old(pps_users)@.len(), *old(pps_users_disabled_until), now),
        *final(pps_users_disabled_until) == next_disabled_until(
            old(pps_users)@.len(),
            *old(pps_users_disabled_until),
            now,
        ),
        trips_disable(old(pps_users)@.len(), *old(pps_users_disabled_until))
            ==> final(pps_users)@.dom().is_empty(),
        !trips_disable(old(pps_users)@.len(), *old(pps_users_disabled_until))
            ==> final(pps_users)@ == old(pps_users)@,
{
    match *pps_users_disabled_until {
        Some(disabled_until) => {
            if disabled_until > now {
                true
            } else {
                *pps_users_disabled_until = None;
                false
            }
        },
        None => {
            if fx_len(pps_users) >= MAX_PREFIX48_ENTRIES {
                fx_clear(pps_users);
                *pps_users_disabled_until = Some(now.saturating_add(DISABLE_US));
                true
            } else {
                false
            }
        },
    }
}

/// A new entry for a source first seen at `now`.
pub open spec fn fresh_data(id: u64, now: u64) -> PpsUserInfoData {
    PpsUserInfoData { last_seen: now, user_id: PpsPublicUser { id }, pps_counter: 0 }
}

/// An entry seen again at `now`.
pub open spec fn touched(d: PpsUserInfoData, now: u64) -> PpsUserInfoData {
    PpsUserInfoData { last_seen: now, user_id: d.user_id, pps_counter: d.pps_counter }
}

/// `id` is the smallest public id among the entries of `inner`.
pub open spec fn is_min_user_id(inner: Map<u64, PpsUserInfoData>, id: u64) -> bool {
    &&& exists|k: u64| #[trigger] inner.contains_key(k) && inner[k].user_id.id == id
    &&& forall|k: u64| #[trigger] inner.contains_key(k) ==> id <= inner[k].user_id.id
}

/// The smallest public id among the entries of `inner`.
pub open spec fn min_user_id(inner: Map<u64, PpsUserInfoData>) -> u64 {
    choose|id: u64| is_min_user_id(inner, id)
}

/// The table and the next public id after a packet from `ip` at `now`.
pub open spec fn activity_step(t: Map<u64, UserBucket>, next: u64, now: u64, ip: Seq<u16>) -> (
    Map<u64, UserBucket>,
    u64,
) {
    let k48 = key48(ip);
    let k64 = key64(ip);
    if t.len() >= MAX_PREFIX48_ENTRIES {
        (t, next)
    } else if !t.contains_key(k48) {
        (t.insert(k48, UserBucket::Prefix64(map![k64 => fresh_data(next, now)])), (next + 1) as u64)
    } else {
        match t[k48] {
            UserBucket::Prefix48(d) => (t.insert(k48, UserBucket::Prefix48(touched(d, now))), next),
            UserBucket::Prefix64(inner) => if inner.len() < MAX_PREFIX64_ENTRIES {
                if inner.contains_key(k64) {
                    (
                        t.insert(
                            k48,
                            UserBucket::Prefix64(inner.insert(k64, touched(inner[k64], now))),
                        ),
                        next,
                    )
                } else {
                    (
                        t.insert(k48, UserBucket::Prefix64(inner.insert(k64, fresh_data(next, now)))),
                        (next + 1) as u64,
                    )
                }
            } else {
                (t.insert(k48, UserBucket::Prefix48(fresh_data(min_user_id(inner), now))), next)
            },
        }
    }
}

proof fn lemma_table_view_insert(m: FxHashMap<u64, PpsUserInfo>, old_m: Map<u64, PpsUserInfo>, k: u64, v: PpsUserInfo)
    requires
        m@ == old_m.remove(k).insert(k, v),
    ensures
        table_view(m) == old_m.map_values(|v: PpsUserInfo| v@).insert(k, v@),
{
    assert(table_view(m) =~= old_m.map_values(|v: PpsUserInfo| v@).insert(k, v@));
}

proof fn lemma_min_user_id(inner: Map<u64, PpsUserInfoData>, id: u64)
    requires
        is_min_user_id(inner, id),
    ensures
        min_user_id(inner) == id,
{
    let m = min_user_id(inner);
    assert(is_min_user_id(inner, m));
    let k1 = choose|k: u64| #[trigger] inner.contains_key(k) && inner[k].user_id.id == id;
    let k2 = choose|k: u64| #[trigger] inner.contains_key(k) && inner[k].user_id.id == m;
    assert(m <= inner[k1].user_id.id);
    assert(id <= inner[k2].user_id.id);
}

/// The smallest public id in a non-empty map of /64 entries.
fn smallest_user_id(data_map: &FxHashMap<u64, PpsUserInfoData>) -> (r: u64)
    requires
        data_map@.len() > 0,
    ensures
        r == min_user_id(data_map@),
{
    let keys = fx_keys(data_map);
    assert(data_map@.contains_key(keys@[0])) by {
        assert(keys@.to_set().contains(keys@[0]));
    }
    let first = fx_get(data_map, keys[0]);
    let mut min_id: u64 = match first {
        Some(d) => d.user_id.id,
        None => 0,
    };
    let mut i: usize = 1;
    while i < keys.len()
        invariant
            1 <= i <= keys@.len(),
            keys@.to_set() == data_map@.dom(),
            data_map@.contains_key(keys@[0]),
            exists|j: int| 0 <= j < i && #[trigger] data_map@[keys@[j]].user_id.id == min_id,
            forall|j: int| 0 <= j < i ==> min_id <= #[trigger] data_map@[keys@[j]].user_id.id,
        decreases keys@.len() - i,
    {
        assert(data_map@.contains_key(keys@[i as int])) by {
            assert(keys@.to_set().contains(keys@[i as int]));
        }
        match fx_get(data_map, keys[i]) {
            Some(d) => {
                if d.user_id.id < min_id {
                    min_id = d.user_id.id;
                }
            },
            None => {},
        }
        i = i + 1;
    }
    proof {
        let j = choose|j: int| 0 <= j < keys@.len() && #[trigger] data_map@[keys@[j]].user_id.id == min_id;
        assert(keys@.to_set().contains(keys@[j]));
        assert forall|k: u64| #[trigger] data_map@.contains_key(k) implies min_id <= data_map@[k].user_id.id by {
            assert(keys@.to_set().contains(k));
            let jj = choose|jj: int| 0 <= jj < keys@.len() && keys@[jj] == k;
            assert(min_id <= data_map@[keys@[jj]].user_id.id);
        }
        lemma_min_user_id(data_map@, min_id);
    }
    min_id
}

/// Record a packet from `user_ip` at `now`: create the entry of a new /48,
/// add or touch the /64 entry, or collapse a /48 whose /64 map is full into
/// one entry that keeps the smallest public id. Nothing changes while the
/// table is at its cap.
pub fn ensure_existing_activity_updated_and_migrated(
    pps_users: &mut FxHashMap<u64, PpsUserInfo>,
    next_user_id: &mut PpsPublicUser,
    now: u64,
    user_ip: [u16; 8],
)
    requires
        old(next_user_id).id < u64::MAX,
    ensures
        (table_view(*final(pps_users)), final(next_user_id).id) == activity_step(
            table_view(*old(pps_users)),
            old(next_user_id).id,
            now,
            user_ip@,
        ),
{
    let ghost t = table_view(*pps_users);
    let ghost old_m = pps_users@;
    assert(t.dom() =~= pps_users@.dom());
    if fx_len(pps_users) >= MAX_PREFIX48_ENTRIES {
        return;
    }
    let k48 = addr_key48(user_ip);
    let k64 = addr_key64(user_ip);
    match fx_remove(pps_users, k48) {
        None => {
            let mut data_map = fx_new();
            fx_insert(
                &mut data_map,
                k64,
                PpsUserInfoData { last_seen: now, user_id: *next_user_id, pps_counter: 0 },
            );
            assert(data_map@ =~= map![k64 => fresh_data(old(next_user_id).id, now)]);
            next_user_id.id = next_user_id.id + 1;
            let info = PpsUserInfo::User64 { data_map };
            fx_insert(pps_users, k48, info);
            proof {
                lemma_table_view_insert(*pps_users, old_m, k48, info);
            }
        },
        Some(PpsUserInfo::User48 { data }) => {
            let info = PpsUserInfo::User48 {
                data: PpsUserInfoData {
                    last_seen: now,
                    user_id: data.user_id,
                    pps_counter: data.pps_counter,
                },
            };
            fx_insert(pps_users, k48, info);
            proof {
                lemma_table_view_insert(*pps_users, old_m, k48, info);
            }
        },
        Some(PpsUserInfo::User64 { mut data_map }) => {
            let ghost inner = data_map@;
            if fx_len(&data_map) < MAX_PREFIX64_ENTRIES {
                match fx_remove(&mut data_map, k64) {
                    Some(d) => {
                        fx_insert(
                            &mut data_map,
                            k64,
                            PpsUserInfoData {
                                last_seen: now,
                                user_id: d.user_id,
                                pps_counter: d.pps_counter,
                            },
                        );
                        assert(data_map@ =~= inner.insert(k64, touched(inner[k64], now)));
                    },
                    None => {
                        fx_insert(
                            &mut data_map,
                            k64,
                            PpsUserInfoData {
                                last_seen: now,
                                user_id: *next_user_id,
                                pps_counter: 0,
                            },
                        );
                        assert(data_map@ =~= inner.insert(k64, fresh_data(old(next_user_id).id, now)));
                        next_user_id.id = next_user_id.id + 1;
                    },
                }
                let info = PpsUserInfo::User64 { data_map };
                fx_insert(pps_users, k48, info);
                proof {
                    lemma_table_view_insert(*pps_users, old_m, k48, info);
                }
            } else {
                let min_id = smallest_user_id(&data_map);
                let info = PpsUserInfo::User48 {
                    data: PpsUserInfoData {
                        last_seen: now,
                        user_id: PpsPublicUser { id: min_id },
                        pps_counter: 0,
                    },
                };
                fx_insert(pps_users, k48, info);
                proof {
                    lemma_table_view_insert(*pps_users, old_m, k48, info);
                }
            }
        },
    }
}

/// The entry that counts packets from `ip`, if the table has one.
pub open spec fn lookup(t: Map<u64, UserBucket>, ip: Seq<u16>) -> Option<PpsUserInfoData> {
    if !t.contains_key(key48(ip)) {
        None
    } else {
        match t[key48(ip)] {
            UserBucket::Prefix48(d) => Some(d),
            UserBucket::Prefix64(inner) => if inner.contains_key(key64(ip)) {
                Some(inner[key64(ip)])
            } else {
                None
            },
        }
    }
}

/// The entry that counts packets from `user_ip`, if the table has one.
pub fn find_user_info_data(pps_users: &FxHashMap<u64, PpsUserInfo>, user_ip: [u16; 8]) -> (r:
    Option<PpsUserInfoData>)
    ensures
        r == lookup(table_view(*pps_users), user_ip@),
{
    match fx_get(pps_users, addr_key48(user_ip)) {
        None => None,
        Some(PpsUserInfo::User48 { data }) => Some(*data),
        Some(PpsUserInfo::User64 { data_map }) => match fx_get(data_map, addr_key64(user_ip)) {
            Some(d) => Some(*d),
            None => None,
        },
    }
}

/// A counter after one more packet; it stops at its largest value.
pub open spec fn bumped(c: usize) -> usize {
    if c == usize::MAX {
        c
    } else {
        (c + 1) as usize
    }
}

/// The table after the entry that counts `ip` is replaced by `d`.
pub open spec fn with_entry(t: Map<u64, UserBucket>, ip: Seq<u16>, d: PpsUserInfoData) -> Map<
    u64,
    UserBucket,
> {
    match t[key48(ip)] {
        UserBucket::Prefix48(_) => t.insert(key48(ip), UserBucket::Prefix48(d)),
        UserBucket::Prefix64(inner) => t.insert(
            key48(ip),
            UserBucket::Prefix64(inner.insert(key64(ip), d)),
        ),
    }
}

/// The table after counting one packet from `ip`.
pub open spec fn counted(t: Map<u64, UserBucket>, ip: Seq<u16>) -> Map<u64, UserBucket> {
    match lookup(t, ip) {
        None => t,
        Some(d) => with_entry(
            t,
            ip,
            PpsUserInfoData {
                last_seen: d.last_seen,
                user_id: d.user_id,
                pps_counter: bumped(d.pps_counter),
            },
        ),
    }
}

/// A borrow of the entry that counts packets from `user_ip`, if the table
/// has one; what is written through it replaces that entry.
pub fn find_user_info_data_mut<'a>(
    pps_users: &'a mut FxHashMap<u64, PpsUserInfo>,
    user_ip: [u16; 8],
) -> (r: Option<&'a mut PpsUserInfoData>)
    ensures
        r is Some <==> lookup(table_view(*old(pps_users)), user_ip@) is Some,
        r matches Some(d) ==> Some(*d) == lookup(table_view(*old(pps_users)), user_ip@)
            && table_view(*final(pps_users)) == with_entry(
            table_view(*old(pps_users)),
            user_ip@,
            *final(d),
        ),
        r is None ==> table_view(*final(pps_users)) == table_view(*old(pps_users)),
{
    let k48 = addr_key48(user_ip);
    let k64 = addr_key64(user_ip);
    proof {
        lemma_table_view_replace(pps_users@, k48);
    }
    match fx_get_mut(pps_users, k48) {
        None => None,
        Some(info) => match info {
            PpsUserInfo::User48 { data } => Some(data),
            PpsUserInfo::User64 { data_map } => {
                fx_get_mut(data_map, k64)
            },
        },
    }
}

proof fn lemma_table_view_replace(m: Map<u64, PpsUserInfo>, k: u64)
    ensures
        forall|v: PpsUserInfo|
            (#[trigger] m.insert(k, v)).map_values(|x: PpsUserInfo| x@) == m.map_values(
                |x: PpsUserInfo| x@,
            ).insert(k, v@),
        forall|v: PpsUserInfo|
            m.contains_key(k) && v@ == m[k]@ ==> (#[trigger] m.insert(k, v)).map_values(
                |x: PpsUserInfo| x@,
            ) == m.map_values(|x: PpsUserInfo| x@),
{
    assert forall|v: PpsUserInfo|
        (#[trigger] m.insert(k, v)).map_values(|x: PpsUserInfo| x@) == m.map_values(
            |x: PpsUserInfo| x@,
        ).insert(k, v@) by {
        assert(m.insert(k, v).map_values(|x: PpsUserInfo| x@) =~= m.map_values(
            |x: PpsUserInfo| x@,
        ).insert(k, v@));
    }
    assert forall|v: PpsUserInfo|
        m.contains_key(k) && v@ == m[k]@ implies (#[trigger] m.insert(k, v)).map_values(
            |x: PpsUserInfo| x@,
        ) == m.map_values(|x: PpsUserInfo| x@) by {
        assert(m.insert(k, v).map_values(|x: PpsUserInfo| x@) =~= m.map_values(
            |x: PpsUserInfo| x@,
        ));
    }
}

/// An entry last seen less than an hour before `now`.
pub open spec fn is_fresh(d: PpsUserInfoData, now: u64) -> bool {
    now < d.last_seen + MAX_IDLE_US
}

/// The /64 entries of `inner` that are still fresh at `now`.
pub open spec fn fresh_entries(inner: Map<u64, PpsUserInfoData>, now: u64) -> Map<u64, PpsUserInfoData> {
    Map::new(|k: u64| inner.contains_key(k) && is_fresh(inner[k], now), |k: u64| inner[k])
}

/// A /48 entry after cleanup at `now`.
pub open spec fn cleaned_bucket(b: UserBucket, now: u64) -> UserBucket {
    match b {
        UserBucket::Prefix48(d) => b,
        UserBucket::Prefix64(inner) => UserBucket::Prefix64(fresh_entries(inner, now)),
    }
}

/// Whether a /48 entry survives cleanup at `now`.
pub open spec fn bucket_kept(b: UserBucket, now: u64) -> bool {
    match b {
        UserBucket::Prefix48(d) => is_fresh(d, now),
        UserBucket::Prefix64(inner) => fresh_entries(inner, now).len() > 0,
    }
}

/// The table after cleanup at `now`.
pub open spec fn cleanup_table(t: Map<u64, UserBucket>, now: u64) -> Map<u64, UserBucket> {
    Map::new(|k: u64| t.contains_key(k) && bucket_kept(t[k], now), |k: u64| cleaned_bucket(t[k], now))
}

fn fresh_at(d: &PpsUserInfoData, now: u64) -> (r: bool)
    ensures
        r == is_fresh(*d, now),
{
    now < d.last_seen || now - d.last_seen < MAX_IDLE_US
}

fn prune_entries(data_map: &mut FxHashMap<u64, PpsUserInfoData>, now: u64)
    ensures
        final(data_map)@ == fresh_entries(old(data_map)@, now),
{
    let ghost m0 = data_map@;
    let keys = fx_keys(data_map);
    let mut i: usize = 0;
    while i < keys.len()
        invariant
            0 <= i <= keys@.len(),
            keys@.no_duplicates(),
            keys@.to_set() == m0.dom(),
            forall|k: u64| #[trigger] data_map@.contains_key(k) ==> m0.contains_key(k),
            forall|j: int|
                0 <= j < i ==> (#[trigger] data_map@.contains_key(keys@[j]) <==> is_fresh(
                    m0[keys@[j]],
                    now,
                )),
            forall|j: int|
                i <= j < keys@.len() ==> #[trigger] data_map@.contains_key(keys@[j]),
            forall|k: u64| #[trigger] data_map@.contains_key(k) ==> data_map@[k] == m0[k],
        decreases keys@.len() - i,
    {
        let k = keys[i];
        assert(m0.contains_key(k)) by {
            assert(keys@.to_set().contains(k));
        }
        match fx_get(data_map, k) {
            Some(d) => {
                if !fresh_at(d, now) {
                    fx_remove(data_map, k);
                }
            },
            None => {},
        }
        assert forall|j: int| i < j < keys@.len() implies #[trigger] data_map@.contains_key(keys@[j]) by {
            assert(keys@[j] != keys@[i as int]);
        }
        assert forall|j: int| 0 <= j < i implies (#[trigger] data_map@.contains_key(keys@[j]) <==> is_fresh(
                    m0[keys@[j]],
                    now,
                )) by {
            assert(keys@[j] != keys@[i as int]);
        }
        i = i + 1;
    }
    assert forall|k: u64| #[trigger] m0.contains_key(k) implies (data_map@.contains_key(k) <==> is_fresh(m0[k], now)) by {
        assert(keys@.to_set().contains(k));
        let j = choose|j: int| 0 <= j < keys@.len() && keys@[j] == k;
        assert(data_map@.contains_key(keys@[j]) <==> is_fresh(m0[keys@[j]], now));
    }
    assert(data_map@ =~= fresh_entries(m0, now));
}

/// Remove the entries that were last seen an hour or more before `now`; a
/// /48 entry whose /64 entries are all removed goes too.
pub fn cleanup(pps_users: &mut FxHashMap<u64, PpsUserInfo>, now: u64)
    ensures
        table_view(*final(pps_users)) == cleanup_table(table_view(*old(pps_users)), now),
{
    let ghost m0 = pps_users@;
    let keys = fx_keys(pps_users);
    let mut i: usize = 0;
    while i < keys.len()
        invariant
            0 <= i <= keys@.len(),
            keys@.no_duplicates(),
            keys@.to_set() == m0.dom(),
            forall|k: u64| #[trigger] pps_users@.contains_key(k) ==> m0.contains_key(k),
            forall|j: int|
                0 <= j < i ==> (#[trigger] pps_users@.contains_key(keys@[j]) <==> bucket_kept(
                    m0[keys@[j]]@,
                    now,
                )),
            forall|j: int|
                0 <= j < i && #[trigger] pps_users@.contains_key(keys@[j]) ==> pps_users@[keys@[j]]@
                    == cleaned_bucket(m0[keys@[j]]@, now),
            forall|j: int| i <= j < keys@.len() ==> #[trigger] pps_users@.contains_key(keys@[j]),
            forall|j: int| i <= j < keys@.len() ==> #[trigger] pps_users@[keys@[j]] == m0[keys@[j]],
        decreases keys@.len() - i,
    {
        let k = keys[i];
        assert(m0.contains_key(k)) by {
            assert(keys@.to_set().contains(k));
        }
        let ghost before = pps_users@;
        match fx_remove(pps_users, k) {
            Some(PpsUserInfo::User48 { data }) => {
                if fresh_at(&data, now) {
                    fx_insert(pps_users, k, PpsUserInfo::User48 { data });
                }
            },
            Some(PpsUserInfo::User64 { mut data_map }) => {
                prune_entries(&mut data_map, now);
                if fx_len(&data_map) > 0 {
                    fx_insert(pps_users, k, PpsUserInfo::User64 { data_map });
                }
            },
            None => {},
        }
        assert(pps_users@.remove(k) =~= before.remove(k));
        assert forall|j: int| i < j < keys@.len() implies #[trigger] pps_users@.contains_key(keys@[j]) by {
            assert(keys@[j] != keys@[i as int]);
            assert(before.remove(k).contains_key(keys@[j]));
            assert(pps_users@.remove(k).contains_key(keys@[j]));
        }
        assert forall|j: int| i < j < keys@.len() implies #[trigger] pps_users@[keys@[j]] == m0[keys@[j]] by {
            assert(keys@[j] != keys@[i as int]);
            assert(before.remove(k).contains_key(keys@[j]));
            assert(pps_users@.remove(k)[keys@[j]] == before.remove(k)[keys@[j]]);
        }
        assert forall|j: int| 0 <= j < i implies (#[trigger] pps_users@.contains_key(keys@[j]) <==> bucket_kept(
                    m0[keys@[j]]@,
                    now,
                )) by {
            assert(keys@[j] != keys@[i as int]);
        }
        i = i + 1;
    }
    let ghost t0 = m0.map_values(|v: PpsUserInfo| v@);
    assert forall|k: u64| #[trigger] t0.contains_key(k) implies (pps_users@.contains_key(k) <==> bucket_kept(t0[k], now))
        && (pps_users@.contains_key(k) ==> pps_users@[k]@ == cleaned_bucket(t0[k], now)) by {
        assert(keys@.to_set().contains(k));
        let j = choose|j: int| 0 <= j < keys@.len() && keys@[j] == k;
        assert(pps_users@.contains_key(keys@[j]) <==> bucket_kept(m0[keys@[j]]@, now));
    }
    assert(table_view(*pps_users) =~= cleanup_table(t0, now));
}

/// An entry with its counter back at zero.
pub open spec fn reset_data(d: PpsUserInfoData) -> PpsUserInfoData {
    PpsUserInfoData { last_seen: d.last_seen, user_id: d.user_id, pps_counter: 0 }
}

/// A /48 entry with all its counters back at zero.
pub open spec fn reset_bucket(b: UserBucket) -> UserBucket {
    match b {
        UserBucket::Prefix48(d) => UserBucket::Prefix48(reset_data(d)),
        UserBucket::Prefix64(inner) => UserBucket::Prefix64(
            inner.map_values(|d: PpsUserInfoData| reset_data(d)),
        ),
    }
}

/// Whether some entry of `inner` has public id `id` and counter `c`.
pub open spec fn inner_has_counter(inner: Map<u64, PpsUserInfoData>, id: u64, c: usize) -> bool {
    exists|k: u64| #[trigger] inner.contains_key(k) && inner[k].user_id.id == id && inner[k].pps_counter == c
}

/// Whether some entry of `inner` has public id `id`.
pub open spec fn inner_has_user(inner: Map<u64, PpsUserInfoData>, id: u64) -> bool {
    exists|k: u64| #[trigger] inner.contains_key(k) && inner[k].user_id.id == id
}

/// Whether the /48 entry holds an entry with public id `id` and counter `c`.
pub open spec fn bucket_has_counter(b: UserBucket, id: u64, c: usize) -> bool {
    match b {
        UserBucket::Prefix48(d) => d.user_id.id == id && d.pps_counter == c,
        UserBucket::Prefix64(inner) => inner_has_counter(inner, id, c),
    }
}

/// Whether the /48 entry holds an entry with public id `id`.
pub open spec fn bucket_has_user(b: UserBucket, id: u64) -> bool {
    match b {
        UserBucket::Prefix48(d) => d.user_id.id == id,
        UserBucket::Prefix64(inner) => inner_has_user(inner, id),
    }
}

/// Whether the table holds an entry with public id `id`.
pub open spec fn table_has_user(t: Map<u64, UserBucket>, id: u64) -> bool {
    exists|k: u64| #[trigger] t.contains_key(k) && bucket_has_user(t[k], id)
}

/// Whether the table holds an entry with public id `id` and counter `c`.
pub open spec fn table_has_counter(t: Map<u64, UserBucket>, id: u64, c: usize) -> bool {
    exists|k: u64| #[trigger] t.contains_key(k) && bucket_has_counter(t[k], id, c)
}

/// Move the counters of the /64 entries into `out`, keyed by public id, and zero them.
fn drain_inner(data_map: &mut FxHashMap<u64, PpsUserInfoData>, out: &mut FxHashMap<u64, usize>)
    ensures
        final(data_map)@ == old(data_map)@.map_values(|d: PpsUserInfoData| reset_data(d)),
        forall|id: u64|
            #[trigger] final(out)@.contains_key(id) <==> old(out)@.contains_key(id)
                || inner_has_user(old(data_map)@, id),
        forall|id: u64|
            #[trigger] final(out)@.contains_key(id) ==> inner_has_counter(old(data_map)@, id, final(out)@[id])
                || (old(out)@.contains_key(id) && final(out)@[id] == old(out)@[id]),
{
    let ghost m0 = data_map@;
    let ghost o0 = out@;
    let keys = fx_keys(data_map);
    let mut i: usize = 0;
    while i < keys.len()
        invariant
            0 <= i <= keys@.len(),
            keys@.no_duplicates(),
            keys@.to_set() == m0.dom(),
            data_map@.dom() == m0.dom(),
            forall|j: int| 0 <= j < i ==> #[trigger] data_map@[keys@[j]] == reset_data(m0[keys@[j]]),
            forall|j: int| i <= j < keys@.len() ==> #[trigger] data_map@[keys@[j]] == m0[keys@[j]],
            forall|id: u64|
                #[trigger] out@.contains_key(id) <==> o0.contains_key(id) || exists|j: int|
                    0 <= j < i && #[trigger] m0[keys@[j]].user_id.id == id,
            forall|id: u64|
                #[trigger] out@.contains_key(id) ==> inner_has_counter(m0, id, out@[id])
                    || (o0.contains_key(id) && out@[id] == o0[id]),
        decreases keys@.len() - i,
    {
        let k = keys[i];
        assert(m0.contains_key(k)) by {
            assert(keys@.to_set().contains(k));
        }
        match fx_remove(data_map, k) {
            Some(d) => {
                fx_insert(out, d.user_id.id, d.pps_counter);
                fx_insert(
                    data_map,
                    k,
                    PpsUserInfoData { last_seen: d.last_seen, user_id: d.user_id, pps_counter: 0 },
                );
                assert(data_map@.dom() =~= m0.dom());
            },
            None => {},
        }
        assert forall|j: int| i < j < keys@.len() implies #[trigger] data_map@[keys@[j]] == m0[keys@[j]] by {
            assert(keys@[j] != keys@[i as int]);
        }
        assert forall|j: int| 0 <= j < i implies #[trigger] data_map@[keys@[j]] == reset_data(m0[keys@[j]]) by {
            assert(keys@[j] != keys@[i as int]);
        }
        assert forall|id: u64| #[trigger] out@.contains_key(id) implies inner_has_counter(m0, id, out@[id])
            || (o0.contains_key(id) && out@[id] == o0[id]) by {
            if id == m0[k].user_id.id {
                assert(m0.contains_key(k));
            }
        }
        i = i + 1;
    }
    assert forall|k: u64| #[trigger] m0.contains_key(k) implies data_map@[k] == reset_data(m0[k]) by {
        assert(keys@.to_set().contains(k));
        let j = choose|j: int| 0 <= j < keys@.len() && keys@[j] == k;
        assert(data_map@[keys@[j]] == reset_data(m0[keys@[j]]));
    }
    assert(data_map@ =~= m0.map_values(|d: PpsUserInfoData| reset_data(d)));
    assert forall|id: u64| #[trigger] out@.contains_key(id) <==> o0.contains_key(id) || inner_has_user(m0, id) by {
        if inner_has_user(m0, id) {
            let k = choose|k: u64| #[trigger] m0.contains_key(k) && m0[k].user_id.id == id;
            assert(keys@.to_set().contains(k));
            let j = choose|j: int| 0 <= j < keys@.len() && keys@[j] == k;
            assert(m0[keys@[j]].user_id.id == id);
        }
        if exists|j: int| 0 <= j < keys@.len() && #[trigger] m0[keys@[j]].user_id.id == id {
            let j = choose|j: int| 0 <= j < keys@.len() && #[trigger] m0[keys@[j]].user_id.id == id;
            assert(keys@.to_set().contains(keys@[j]));
        }
    }
}

/// Hand out every counter, keyed by public id, and set them all back to zero.
pub fn get_all_pps_counters_and_reset(pps_users: &mut FxHashMap<u64, PpsUserInfo>) -> (r:
    FxHashMap<u64, usize>)
    ensures
        table_view(*final(pps_users)) == table_view(*old(pps_users)).map_values(
            |b: UserBucket| reset_bucket(b),
        ),
        forall|id: u64|
            #[trigger] r@.contains_key(id) <==> table_has_user(table_view(*old(pps_users)), id),
        forall|id: u64|
            #[trigger] r@.contains_key(id) ==> table_has_counter(
                table_view(*old(pps_users)),
                id,
                r@[id],
            ),
{
    let ghost m0 = pps_users@;
    let ghost t0 = table_view(*pps_users);
    let mut out: FxHashMap<u64, usize> = fx_new();
    let keys = fx_keys(pps_users);
    let mut i: usize = 0;
    while i < keys.len()
        invariant
            0 <= i <= keys@.len(),
            keys@.no_duplicates(),
            keys@.to_set() == m0.dom(),
            t0 == m0.map_values(|v: PpsUserInfo| v@),
            pps_users@.dom() == m0.dom(),
            forall|j: int| 0 <= j < i ==> #[trigger] pps_users@[keys@[j]]@ == reset_bucket(m0[keys@[j]]@),
            forall|j: int| i <= j < keys@.len() ==> #[trigger] pps_users@[keys@[j]] == m0[keys@[j]],
            forall|id: u64|
                #[trigger] out@.contains_key(id) <==> exists|j: int|
                    0 <= j < i && bucket_has_user(#[trigger] m0[keys@[j]]@, id),
            forall|id: u64| #[trigger] out@.contains_key(id) ==> table_has_counter(t0, id, out@[id]),
        decreases keys@.len() - i,
    {
        let k = keys[i];
        assert(m0.contains_key(k)) by {
            assert(keys@.to_set().contains(k));
        }
        let ghost out_before = out@;
        match fx_remove(pps_users, k) {
            Some(PpsUserInfo::User48 { data }) => {
                fx_insert(&mut out, data.user_id.id, data.pps_counter);
                fx_insert(
                    pps_users,
                    k,
                    PpsUserInfo::User48 {
                        data: PpsUserInfoData {
                            last_seen: data.last_seen,
                            user_id: data.user_id,
                            pps_counter: 0,
                        },
                    },
                );
                assert(t0.contains_key(k) && bucket_has_counter(t0[k], data.user_id.id, data.pps_counter));
            },
            Some(PpsUserInfo::User64 { mut data_map }) => {
                let ghost inner0 = data_map@;
                drain_inner(&mut data_map, &mut out);
                assert(t0[k] == UserBucket::Prefix64(inner0));
                fx_insert(pps_users, k, PpsUserInfo::User64 { data_map });
                assert forall|id: u64| #[trigger] out@.contains_key(id) implies table_has_counter(t0, id, out@[id]) by {
                    if !(out_before.contains_key(id) && out@[id] == out_before[id]) {
                        assert(t0.contains_key(k) && bucket_has_counter(t0[k], id, out@[id]));
                    }
                }
            },
            None => {},
        }
        assert(pps_users@.dom() =~= m0.dom());
        assert forall|j: int| i < j < keys@.len() implies #[trigger] pps_users@[keys@[j]] == m0[keys@[j]] by {
            assert(keys@[j] != keys@[i as int]);
        }
        assert forall|j: int| 0 <= j < i implies #[trigger] pps_users@[keys@[j]]@ == reset_bucket(m0[keys@[j]]@) by {
            assert(keys@[j] != keys@[i as int]);
        }
        i = i + 1;
    }
    assert forall|k: u64| #[trigger] m0.contains_key(k) implies pps_users@[k]@ == reset_bucket(m0[k]@) by {
        assert(keys@.to_set().contains(k));
        let j = choose|j: int| 0 <= j < keys@.len() && keys@[j] == k;
        assert(pps_users@[keys@[j]]@ == reset_bucket(m0[keys@[j]]@));
    }
    assert(table_view(*pps_users) =~= t0.map_values(|b: UserBucket| reset_bucket(b)));
    assert forall|id: u64| #[trigger] out@.contains_key(id) <==> table_has_user(t0, id) by {
        if table_has_user(t0, id) {
            let k = choose|k: u64| #[trigger] t0.contains_key(k) && bucket_has_user(t0[k], id);
            assert(keys@.to_set().contains(k));
            let j = choose|j: int| 0 <= j < keys@.len() && keys@[j] == k;
            assert(bucket_has_user(m0[keys@[j]]@, id));
        }
        if exists|j: int| 0 <= j < keys@.len() && bucket_has_user(#[trigger] m0[keys@[j]]@, id) {
            let j = choose|j: int| 0 <= j < keys@.len() && bucket_has_user(#[trigger] m0[keys@[j]]@, id);
            assert(keys@.to_set().contains(keys@[j]));
            assert(t0.contains_key(keys@[j]));
        }
    }
    out
}

/// The answer to a client asking for its own public id.
#[derive(Debug, Clone, Copy, PartialEq, Eq)]
pub enum MyUserId {
    /// The client's address and the public id that counts it.
    Found { ip: [u16; 8], user_id: u64 },
    /// The client is not on IPv6.
    NotIpv6,
    /// No entry counts the client's address.
    Unknown { ip: [u16; 8] },
}

/// The tracker state that one lock guards: the table, the next public id
/// to hand out, and the time until which tracking is off.
pub struct PpsUsers {
    pub users: FxHashMap<u64, PpsUserInfo>,
    pub next_user_id: PpsPublicUser,
    pub disabled_until: Option<u64>,
}

impl PpsUsers {
    /// An empty table; the first public id is 1.
    pub fn new() -> (r: Self)
        ensures
            table_view(r.users).dom().is_empty(),
            r.next_user_id.id == 1,
            r.disabled_until is None,
            ids_fresh(table_view(r.users), r.next_user_id.id),
            inner_maps_finite(table_view(r.users)),
    {
        let users = fx_new();
        assert(table_view(users).dom() =~= users@.dom());
        PpsUsers { users, next_user_id: PpsPublicUser { id: 1 }, disabled_until: None }
    }

    /// The answer to a client asking for its own public id: an IPv4 client
    /// has none, an IPv6 client the id of the entry that counts its packets
    /// if there is one.
    pub fn my_user_id(&self, user_ip: Option<[u16; 8]>) -> (r: MyUserId)
        ensures
            r == (match user_ip {
                None => MyUserId::NotIpv6,
                Some(ip) => match lookup(table_view(self.users), ip@) {
                    Some(d) => MyUserId::Found { ip, user_id: d.user_id.id },
                    None => MyUserId::Unknown { ip },
                },
            }),
    {
        match user_ip {
            None => MyUserId::NotIpv6,
            Some(ip) => match self.user_id_of(ip) {
                Some(user_id) => MyUserId::Found { ip, user_id },
                None => MyUserId::Unknown { ip },
            },
        }
    }

    /// The public id of the entry that counts packets from `user_ip`.
    pub fn user_id_of(&self, user_ip: [u16; 8]) -> (r: Option<u64>)
        ensures
            r == (match lookup(table_view(self.users), user_ip@) {
                Some(d) => Some(d.user_id.id),
                None => None,
            }),
    {
        match find_user_info_data(&self.users, user_ip) {
            Some(d) => Some(d.get_user_id().id),
            None => None,
        }
    }
}

proof fn lemma_min_exists(inner: Map<u64, PpsUserInfoData>)
    requires
        inner.dom().finite(),
        inner.len() > 0,
    ensures
        is_min_user_id(inner, min_user_id(inner)),
    decreases inner.len(),
{
    let k = inner.dom().choose();
    assert(inner.contains_key(k));
    let rest = inner.remove(k);
    if rest.len() == 0 {
        assert forall|k2: u64| #[trigger] inner.contains_key(k2) implies inner[k].user_id.id
            <= inner[k2].user_id.id by {
            if k2 != k {
                assert(rest.contains_key(k2));
            }
        }
        assert(is_min_user_id(inner, inner[k].user_id.id));
    } else {
        lemma_min_exists(rest);
        let m = min_user_id(rest);
        let id = if inner[k].user_id.id < m {
            inner[k].user_id.id
        } else {
            m
        };
        let km = choose|k2: u64| #[trigger] rest.contains_key(k2) && rest[k2].user_id.id == m;
        assert(inner.contains_key(km));
        assert forall|k2: u64| #[trigger] inner.contains_key(k2) implies id <= inner[k2].user_id.id by {
            if k2 != k {
                assert(rest.contains_key(k2));
            }
        }
        assert(is_min_user_id(inner, id));
    }
    lemma_min_user_id(inner, choose|id: u64| is_min_user_id(inner, id));
}

/// Collapse keeps the smallest public id: when a packet comes for a /48
/// entry whose /64 map is full (and the table is below its cap), that entry
/// becomes one /48 entry whose public id is the smallest public id among
/// the /64 entries it replaces, with its counter at zero and seen now; no
/// new public id is handed out.
pub proof fn lemma_collapse_keeps_smallest_id(
    t: Map<u64, UserBucket>,
    next: u64,
    now: u64,
    ip: Seq<u16>,
    inner: Map<u64, PpsUserInfoData>,
)
    requires
        inner.dom().finite(),
        t.len() < MAX_PREFIX48_ENTRIES,
        t.contains_key(key48(ip)),
        t[key48(ip)] == UserBucket::Prefix64(inner),
        inner.len() >= MAX_PREFIX64_ENTRIES,
    ensures
        ({
            let (t2, next2) = activity_step(t, next, now, ip);
            &&& next2 == next
            &&& t2 == t.insert(key48(ip), UserBucket::Prefix48(t2[key48(ip)]->Prefix48_0))
            &&& t2[key48(ip)]->Prefix48_0.pps_counter == 0
            &&& t2[key48(ip)]->Prefix48_0.last_seen == now
            &&& exists|k: u64| #[trigger]
                inner.contains_key(k) && inner[k].user_id == t2[key48(ip)]->Prefix48_0.user_id
            &&& forall|k: u64| #[trigger]
                inner.contains_key(k) ==> t2[key48(ip)]->Prefix48_0.user_id.id
                    <= inner[k].user_id.id
        }),
{
    lemma_min_exists(inner);
}

/// Overflow turns tracking off for 30 seconds: the check at `now` that
/// finds a full table while tracking is on reports tracking off, empties
/// the table and sets the deadline at least 30 s ahead (or at the end of
/// time); every later check before that deadline, whatever the table then
/// holds, reports tracking off, keeps the deadline and leaves the table as
/// it is.
pub proof fn lemma_overflow_disables_for_window(len: nat, now: u64, later: u64, len_later: nat)
    requires
        len >= MAX_PREFIX48_ENTRIES,
        now <= later < disable_deadline(now),
    ensures
        trips_disable(len, None),
        spec_is_disabled(len, None, now),
        next_disabled_until(len, None, now) == Some(disable_deadline(now)),
        disable_deadline(now) >= now + DISABLE_US || disable_deadline(now) == u64::MAX,
        spec_is_disabled(len_later, Some(disable_deadline(now)), later),
        !trips_disable(len_later, Some(disable_deadline(now))),
        next_disabled_until(len_later, Some(disable_deadline(now)), later) == Some(
            disable_deadline(now),
        ),
{
}

/// Every public id in the bucket is below `next`.
pub open spec fn bucket_ids_below(b: UserBucket, next: u64) -> bool {
    match b {
        UserBucket::Prefix48(d) => d.user_id.id < next,
        UserBucket::Prefix64(inner) => forall|k: u64| #[trigger]
            inner.contains_key(k) ==> inner[k].user_id.id < next,
    }
}

/// The /64 entries of the bucket have distinct public ids.
pub open spec fn bucket_ids_distinct(b: UserBucket) -> bool {
    match b {
        UserBucket::Prefix48(_) => true,
        UserBucket::Prefix64(inner) => forall|k1: u64, k2: u64|
            #[trigger] inner.contains_key(k1) && #[trigger] inner.contains_key(k2) && k1 != k2
                ==> inner[k1].user_id != inner[k2].user_id,
    }
}

/// Public ids are unique across the table, and all below `next`.
pub open spec fn ids_fresh(t: Map<u64, UserBucket>, next: u64) -> bool {
    &&& forall|k: u64| #[trigger]
        t.contains_key(k) ==> bucket_ids_below(t[k], next) && bucket_ids_distinct(t[k])
    &&& forall|k1: u64, k2: u64, id: u64|
        t.contains_key(k1) && t.contains_key(k2) && k1 != k2 && #[trigger] bucket_has_user(t[k1], id)
            ==> !#[trigger] bucket_has_user(t[k2], id)
}

/// Public ids stay unique: a packet that creates, touches or collapses an
/// entry keeps every public id in the table unique and below the next id to
/// hand out.
pub proof fn lemma_activity_keeps_ids_unique(t: Map<u64, UserBucket>, next: u64, now: u64, ip: Seq<u16>)
    requires
        ids_fresh(t, next),
        inner_maps_finite(t),
        next < u64::MAX,
    ensures
        ids_fresh(activity_step(t, next, now, ip).0, activity_step(t, next, now, ip).1),
        inner_maps_finite(activity_step(t, next, now, ip).0),
{
    lemma_activity_keeps_inner_maps_finite(t, next, now, ip);
    let k48 = key48(ip);
    let k64 = key64(ip);
    let (t2, n2) = activity_step(t, next, now, ip);
    if t.len() >= MAX_PREFIX48_ENTRIES {
        return;
    }
    assert forall|k: u64| #[trigger] t.contains_key(k) implies bucket_ids_below(t[k], n2) by {
        match t[k] {
            UserBucket::Prefix48(d) => {},
            UserBucket::Prefix64(inner) => {
                assert forall|k2: u64| #[trigger] inner.contains_key(k2) implies inner[k2].user_id.id < n2 by {
                    assert(bucket_ids_below(t[k], next));
                }
            },
        }
    }
    if !t.contains_key(k48) {
        let b = UserBucket::Prefix64(map![k64 => fresh_data(next, now)]);
        assert forall|k1: u64, k2: u64, id: u64|
            t2.contains_key(k1) && t2.contains_key(k2) && k1 != k2 && #[trigger] bucket_has_user(t2[k1], id)
                implies !#[trigger] bucket_has_user(t2[k2], id) by {
            if k1 == k48 {
                assert(id == next) by {
                    let kk = choose|kk: u64| #[trigger] map![k64 => fresh_data(next, now)].contains_key(kk) && map![k64 => fresh_data(next, now)][kk].user_id.id == id;
                }
                if bucket_has_user(t2[k2], id) {
                    assert(t.contains_key(k2));
                    lemma_bucket_user_below(t[k2], next, id);
                }
            } else if k2 == k48 {
                lemma_bucket_user_below(t[k1], next, id);
                if bucket_has_user(t2[k2], id) {
                    let kk = choose|kk: u64| #[trigger] map![k64 => fresh_data(next, now)].contains_key(kk) && map![k64 => fresh_data(next, now)][kk].user_id.id == id;
                }
            }
        }
    } else {
        match t[k48] {
            UserBucket::Prefix48(d) => {
                assert forall|k1: u64, k2: u64, id: u64|
                    t2.contains_key(k1) && t2.contains_key(k2) && k1 != k2 && #[trigger] bucket_has_user(t2[k1], id)
                        implies !#[trigger] bucket_has_user(t2[k2], id) by {
                    assert(bucket_has_user(t2[k1], id) == bucket_has_user(t[k1], id));
                    assert(bucket_has_user(t2[k2], id) == bucket_has_user(t[k2], id));
                }
            },
            UserBucket::Prefix64(inner) => {
                if inner.len() < MAX_PREFIX64_ENTRIES {
                    if inner.contains_key(k64) {
                        let inner2 = inner.insert(k64, touched(inner[k64], now));
                        assert forall|id: u64| #[trigger] bucket_has_user(UserBucket::Prefix64(inner2), id) == bucket_has_user(t[k48], id) by {
                            if bucket_has_user(UserBucket::Prefix64(inner2), id) {
                                let kk = choose|kk: u64| #[trigger] inner2.contains_key(kk) && inner2[kk].user_id.id == id;
                                assert(inner.contains_key(kk));
                            }
                            if bucket_has_user(t[k48], id) {
                                let kk = choose|kk: u64| #[trigger] inner.contains_key(kk) && inner[kk].user_id.id == id;
                                assert(inner2.contains_key(kk));
                            }
                        }
                        assert forall|k1: u64, k2: u64, id: u64|
                            t2.contains_key(k1) && t2.contains_key(k2) && k1 != k2 && #[trigger] bucket_has_user(t2[k1], id)
                                implies !#[trigger] bucket_has_user(t2[k2], id) by {
                            assert(bucket_has_user(t2[k1], id) == bucket_has_user(t[k1], id));
                            assert(bucket_has_user(t2[k2], id) == bucket_has_user(t[k2], id));
                        }
                    } else {
                        let inner2 = inner.insert(k64, fresh_data(next, now));
                        assert forall|id: u64| #[trigger] bucket_has_user(UserBucket::Prefix64(inner2), id) implies (id == next || bucket_has_user(t[k48], id)) by {
                            if bucket_has_user(UserBucket::Prefix64(inner2), id) {
                                let kk = choose|kk: u64| #[trigger] inner2.contains_key(kk) && inner2[kk].user_id.id == id;
                                if kk != k64 {
                                    assert(inner.contains_key(kk));
                                }
                            }
                        }
                        assert(bucket_has_user(UserBucket::Prefix64(inner2), next)) by {
                            assert(inner2.contains_key(k64));
                        }
                        assert forall|k1: u64, k2: u64, id: u64|
                            t2.contains_key(k1) && t2.contains_key(k2) && k1 != k2 && #[trigger] bucket_has_user(t2[k1], id)
                                implies !#[trigger] bucket_has_user(t2[k2], id) by {
                            if k1 == k48 {
                                if id == next && bucket_has_user(t2[k2], id) {
                                    assert(t.contains_key(k2));
                                    lemma_bucket_user_below(t[k2], next, id);
                                }
                            } else if k2 == k48 {
                                lemma_bucket_user_below(t[k1], next, id);
                            }
                        }
                        assert(bucket_ids_distinct(UserBucket::Prefix64(inner2))) by {
                            assert forall|k1: u64, k2: u64|
                                #[trigger] inner2.contains_key(k1) && #[trigger] inner2.contains_key(k2) && k1 != k2
                                    implies inner2[k1].user_id != inner2[k2].user_id by {
                                if k1 == k64 {
                                    assert(inner.contains_key(k2));
                                    assert(bucket_ids_below(t[k48], next));
                                } else if k2 == k64 {
                                    assert(inner.contains_key(k1));
                                    assert(bucket_ids_below(t[k48], next));
                                } else {
                                    assert(bucket_ids_distinct(t[k48]));
                                }
                            }
                        }
                    }
                } else {
                    lemma_min_exists(inner);
                    let m = min_user_id(inner);
                    let km = choose|kk: u64| #[trigger] inner.contains_key(kk) && inner[kk].user_id.id == m;
                    assert(bucket_has_user(t[k48], m));
                    assert forall|k1: u64, k2: u64, id: u64|
                        t2.contains_key(k1) && t2.contains_key(k2) && k1 != k2 && #[trigger] bucket_has_user(t2[k1], id)
                            implies !#[trigger] bucket_has_user(t2[k2], id) by {
                        if k1 == k48 {
                            assert(id == m);
                        } else if k2 == k48 {
                            if bucket_has_user(t2[k2], id) {
                                assert(id == m);
                            }
                        }
                    }
                    assert(bucket_ids_below(t[k48], next));
                    assert(inner.contains_key(km));
                }
            },
        }
    }
}

proof fn lemma_activity_keeps_inner_maps_finite(t: Map<u64, UserBucket>, next: u64, now: u64, ip: Seq<u16>)
    requires
        inner_maps_finite(t),
    ensures
        inner_maps_finite(activity_step(t, next, now, ip).0),
{
    let k64 = key64(ip);
    let t2 = activity_step(t, next, now, ip).0;
    assert forall|k: u64| #[trigger] t2.contains_key(k) implies (t2[k] matches UserBucket::Prefix64(inner2) ==> inner2.dom().finite()) by {
        if k == key48(ip) && t2[k] is Prefix64 {
            if t.contains_key(k) {
                let inner = t[k]->Prefix64_0;
                assert(inner.dom().finite());
                assert(inner.insert(k64, fresh_data(next, now)).dom() =~= inner.dom().insert(k64));
                assert(inner.insert(k64, fresh_data(next, now)).dom().finite());
                if inner.contains_key(k64) {
                    assert(inner.insert(k64, touched(inner[k64], now)).dom() =~= inner.dom().insert(k64));
                }
            } else {
                assert(map![k64 => fresh_data(next, now)].dom() =~= set![k64]);
            }
        }
    }
}

proof fn lemma_bucket_user_below(b: UserBucket, next: u64, id: u64)
    requires
        bucket_ids_below(b, next),
        bucket_has_user(b, id),
    ensures
        id < next,
{
    match b {
        UserBucket::Prefix48(d) => {},
        UserBucket::Prefix64(inner) => {
            let kk = choose|kk: u64| #[trigger] inner.contains_key(kk) && inner[kk].user_id.id == id;
        },
    }
}

/// With unique public ids a rate sample is exact: two counters that the
/// table holds for the same public id are the same counter.
pub proof fn lemma_unique_ids_pin_counters(t: Map<u64, UserBucket>, next: u64, id: u64, c1: usize, c2: usize)
    requires
        ids_fresh(t, next),
        table_has_counter(t, id, c1),
        table_has_counter(t, id, c2),
    ensures
        c1 == c2,
{
    let k1 = choose|k: u64| #[trigger] t.contains_key(k) && bucket_has_counter(t[k], id, c1);
    let k2 = choose|k: u64| #[trigger] t.contains_key(k) && bucket_has_counter(t[k], id, c2);
    match t[k1] {
        UserBucket::Prefix48(d) => {
            assert(bucket_has_user(t[k1], id));
        },
        UserBucket::Prefix64(inner) => {
            let kk = choose|kk: u64| #[trigger] inner.contains_key(kk) && inner[kk].user_id.id == id && inner[kk].pps_counter == c1;
            assert(bucket_has_user(t[k1], id));
        },
    }
    match t[k2] {
        UserBucket::Prefix48(d) => {
            assert(bucket_has_user(t[k2], id));
        },
        UserBucket::Prefix64(inner) => {
            let kk = choose|kk: u64| #[trigger] inner.contains_key(kk) && inner[kk].user_id.id == id && inner[kk].pps_counter == c2;
            assert(bucket_has_user(t[k2], id));
        },
    }
    assert(k1 == k2);
    match t[k1] {
        UserBucket::Prefix48(d) => {},
        UserBucket::Prefix64(inner) => {
            let a = choose|kk: u64| #[trigger] inner.contains_key(kk) && inner[kk].user_id.id == id && inner[kk].pps_counter == c1;
            let b = choose|kk: u64| #[trigger] inner.contains_key(kk) && inner[kk].user_id.id == id && inner[kk].pps_counter == c2;
            assert(bucket_ids_distinct(t[k1]));
            if a != b {
                assert(inner[a].user_id != inner[b].user_id);
            }
        },
    }
}

/// The /64 maps of the table are finite, as those of a real table are.
pub open spec fn inner_maps_finite(t: Map<u64, UserBucket>) -> bool {
    forall|k: u64| #[trigger]
        t.contains_key(k) ==> (t[k] matches UserBucket::Prefix64(inner) ==> inner.dom().finite())
}

/// A table whose entries hold no public id that `t` does not hold at the
/// same key keeps ids unique, as long as its /64 maps keep theirs distinct.
proof fn lemma_ids_fresh_sub(t: Map<u64, UserBucket>, t2: Map<u64, UserBucket>, next: u64)
    requires
        ids_fresh(t, next),
        forall|k: u64| #[trigger] t2.contains_key(k) ==> t.contains_key(k),
        forall|k: u64, id: u64|
            t2.contains_key(k) && #[trigger] bucket_has_user(t2[k], id) ==> bucket_has_user(t[k], id),
        forall|k: u64| #[trigger] t2.contains_key(k) ==> bucket_ids_distinct(t2[k]),
    ensures
        ids_fresh(t2, next),
{
    assert forall|k: u64| #[trigger] t2.contains_key(k) implies bucket_ids_below(t2[k], next) by {
        match t2[k] {
            UserBucket::Prefix48(d) => {
                assert(bucket_has_user(t2[k], d.user_id.id));
                lemma_bucket_user_below(t[k], next, d.user_id.id);
            },
            UserBucket::Prefix64(inner) => {
                assert forall|kk: u64| #[trigger] inner.contains_key(kk) implies inner[kk].user_id.id < next by {
                    assert(bucket_has_user(t2[k], inner[kk].user_id.id));
                    lemma_bucket_user_below(t[k], next, inner[kk].user_id.id);
                }
            },
        }
    }
    assert forall|k1: u64, k2: u64, id: u64|
        t2.contains_key(k1) && t2.contains_key(k2) && k1 != k2 && #[trigger] bucket_has_user(t2[k1], id)
            implies !#[trigger] bucket_has_user(t2[k2], id) by {
        assert(bucket_has_user(t[k1], id));
        if bucket_has_user(t2[k2], id) {
            assert(bucket_has_user(t[k2], id));
        }
    }
}

/// Cleanup keeps public ids unique, and the /64 maps finite.
pub proof fn lemma_cleanup_keeps_ids_unique(t: Map<u64, UserBucket>, next: u64, now: u64)
    requires
        ids_fresh(t, next),
        inner_maps_finite(t),
    ensures
        ids_fresh(cleanup_table(t, now), next),
        inner_maps_finite(cleanup_table(t, now)),
{
    let t2 = cleanup_table(t, now);
    assert forall|k: u64, id: u64| t2.contains_key(k) && #[trigger] bucket_has_user(t2[k], id) implies bucket_has_user(t[k], id) by {
        match t[k] {
            UserBucket::Prefix48(d) => {},
            UserBucket::Prefix64(inner) => {
                let f = fresh_entries(inner, now);
                let kk = choose|kk: u64| #[trigger] f.contains_key(kk) && f[kk].user_id.id == id;
                assert(inner.contains_key(kk));
            },
        }
    }
    assert forall|k: u64| #[trigger] t2.contains_key(k) implies bucket_ids_distinct(t2[k]) by {
        assert(bucket_ids_distinct(t[k]));
    }
    assert forall|k: u64| #[trigger] t2.contains_key(k) implies (t2[k] matches UserBucket::Prefix64(inner2) ==> inner2.dom().finite()) by {
        match t[k] {
            UserBucket::Prefix48(d) => {},
            UserBucket::Prefix64(inner) => {
                assert(fresh_entries(inner, now).dom().subset_of(inner.dom()));
                vstd::set_lib::lemma_set_subset_finite(inner.dom(), fresh_entries(inner, now).dom());
            },
        }
    }
    lemma_ids_fresh_sub(t, t2, next);
}

/// Counting a packet keeps public ids unique, and the /64 maps finite.
pub proof fn lemma_counted_keeps_ids_unique(t: Map<u64, UserBucket>, next: u64, ip: Seq<u16>)
    requires
        ids_fresh(t, next),
        inner_maps_finite(t),
    ensures
        ids_fresh(counted(t, ip), next),
        inner_maps_finite(counted(t, ip)),
{
    let t2 = counted(t, ip);
    let k48 = key48(ip);
    let k64 = key64(ip);
    if lookup(t, ip) is Some {
        assert forall|k: u64, id: u64| t2.contains_key(k) && #[trigger] bucket_has_user(t2[k], id) implies bucket_has_user(t[k], id) by {
            if k == k48 {
                match t[k48] {
                    UserBucket::Prefix48(d) => {},
                    UserBucket::Prefix64(inner) => {
                        let inner2 = t2[k48]->Prefix64_0;
                        let kk = choose|kk: u64| #[trigger] inner2.contains_key(kk) && inner2[kk].user_id.id == id;
                        assert(inner.contains_key(kk));
                    },
                }
            }
        }
        assert forall|k: u64| #[trigger] t2.contains_key(k) implies bucket_ids_distinct(t2[k]) by {
            assert(bucket_ids_distinct(t[k]));
        }
        lemma_ids_fresh_sub(t, t2, next);
    }
}

/// Setting all counters back to zero keeps public ids unique, and the /64 maps finite.
pub proof fn lemma_reset_keeps_ids_unique(t: Map<u64, UserBucket>, next: u64)
    requires
        ids_fresh(t, next),
        inner_maps_finite(t),
    ensures
        ids_fresh(t.map_values(|b: UserBucket| reset_bucket(b)), next),
        inner_maps_finite(t.map_values(|b: UserBucket| reset_bucket(b))),
{
    let t2 = t.map_values(|b: UserBucket| reset_bucket(b));
    assert forall|k: u64, id: u64| t2.contains_key(k) && #[trigger] bucket_has_user(t2[k], id) implies bucket_has_user(t[k], id) by {
        match t[k] {
            UserBucket::Prefix48(d) => {},
            UserBucket::Prefix64(inner) => {
                let inner2 = inner.map_values(|d: PpsUserInfoData| reset_data(d));
                let kk = choose|kk: u64| #[trigger] inner2.contains_key(kk) && inner2[kk].user_id.id == id;
                assert(inner.contains_key(kk));
            },
        }
    }
    assert forall|k: u64| #[trigger] t2.contains_key(k) implies bucket_ids_distinct(t2[k]) by {
        assert(bucket_ids_distinct(t[k]));
    }
    assert forall|k: u64| #[trigger] t2.contains_key(k) implies (t2[k] matches UserBucket::Prefix64(inner2) ==> inner2.dom().finite()) by {
        match t[k] {
            UserBucket::Prefix48(d) => {},
            UserBucket::Prefix64(inner) => {
                assert(inner.map_values(|d: PpsUserInfoData| reset_data(d)).dom() =~= inner.dom());
            },
        }
    }
    lemma_ids_fresh_sub(t, t2, next);
}

} // verus!
