//! Device registry: every discovered etag device and its live stats, keyed and
//! ordered by BLE address.
use vstd::prelude::*;
use vstd::string::StringSliceAdditionalSpecFns;
use crate::grocycode::{product_id_from_code, product_id_of};

verus! {

/// All tracked information for a single etag device.
///
/// Optional fields are `None` until the value has been read from the device.
/// Timestamps are Unix times in seconds (UTC).
#[derive(Debug, Clone)]
pub struct TagInfo {
    /// BLE device address (e.g. `"AA:BB:CC:DD:EE:FF"`).
    pub address: String,
    /// Device name broadcast in BLE advertisement packets, if available.
    pub name: Option<String>,
    /// Grocycode read from the GATT characteristic (e.g. `"grcy-p-42"`).
    pub grocycode: Option<String>,
    /// Grocy product ID parsed from the grocycode.
    pub product_id: Option<u32>,
    /// Human-readable product name read from the `product_name` characteristic.
    pub product_name: Option<String>,
    /// Current in-stock quantity (last value seen via GATT read or notification).
    pub stock_count: Option<i32>,
    /// Battery percentage (0–100) read from the `battery_pct` characteristic.
    pub battery_pct: Option<u8>,
    /// Last received RSSI in dBm.
    pub rssi: Option<i16>,
    /// When this device was first seen.
    pub first_seen: i64,
    /// When the most recent BLE advertisement or characteristic update arrived.
    pub last_seen: i64,
    /// Whether the bridge currently has an active GATT connection to this device.
    pub connected: bool,
}

/// What a [`TagInfo`] holds, with its strings as characters.
pub struct TagView {
    pub address: Seq<char>,
    pub name: Option<Seq<char>>,
    pub grocycode: Option<Seq<char>>,
    pub product_id: Option<u32>,
    pub product_name: Option<Seq<char>>,
    pub stock_count: Option<i32>,
    pub battery_pct: Option<u8>,
    pub rssi: Option<i16>,
    pub first_seen: i64,
    pub last_seen: i64,
    pub connected: bool,
}

/// The characters of an optional string.
pub open spec fn opt_chars(o: Option<String>) -> Option<Seq<char>> {
    match o {
        Some(s) => Some(s@),
        None => None,
    }
}

impl View for TagInfo {
    type V = TagView;

    open spec fn view(&self) -> TagView {
        TagView {
            address: self.address@,
            name: opt_chars(self.name),
            grocycode: opt_chars(self.grocycode),
            product_id: self.product_id,
            product_name: opt_chars(self.product_name),
            stock_count: self.stock_count,
            battery_pct: self.battery_pct,
            rssi: self.rssi,
            first_seen: self.first_seen,
            last_seen: self.last_seen,
            connected: self.connected,
        }
    }
}

/// A freshly discovered device at time `now`: nothing known but its address.
pub open spec fn new_tag_view(address: Seq<char>, now: i64) -> TagView {
    TagView {
        address,
        name: None,
        grocycode: None,
        product_id: None,
        product_name: None,
        stock_count: None,
        battery_pct: None,
        rssi: None,
        first_seen: now,
        last_seen: now,
        connected: false,
    }
}

fn clone_opt_string(o: &Option<String>) -> (r: Option<String>)
    ensures
        opt_chars(r) == opt_chars(*o),
{
    match o {
        Some(s) => Some(s.clone()),
        None => None,
    }
}

impl TagInfo {
    fn new(address: &str, now: i64) -> (r: TagInfo)
        ensures
            r@ == new_tag_view(address@, now),
    {
        TagInfo {
            address: address.to_owned(),
            name: None,
            grocycode: None,
            product_id: None,
            product_name: None,
            stock_count: None,
            battery_pct: None,
            rssi: None,
            first_seen: now,
            last_seen: now,
            connected: false,
        }
    }

    /// A copy of this record.
    pub fn snapshot(&self) -> (r: TagInfo)
        ensures
            r@ == self@,
    {
        TagInfo {
            address: self.address.clone(),
            name: clone_opt_string(&self.name),
            grocycode: clone_opt_string(&self.grocycode),
            product_id: self.product_id,
            product_name: clone_opt_string(&self.product_name),
            stock_count: self.stock_count,
            battery_pct: self.battery_pct,
            rssi: self.rssi,
            first_seen: self.first_seen,
            last_seen: self.last_seen,
            connected: self.connected,
        }
    }
}

/// Byte-wise lexicographic order, the order of `str` and `String` comparison.
pub open spec fn bytes_lt(a: Seq<u8>, b: Seq<u8>) -> bool
    decreases a.len(),
{
    if a.len() == 0 {
        b.len() > 0
    } else if b.len() == 0 {
        false
    } else if a[0] != b[0] {
        a[0] < b[0]
    } else {
        bytes_lt(a.drop_first(), b.drop_first())
    }
}

proof fn lemma_bytes_lt_irreflexive(a: Seq<u8>)
    ensures
        !bytes_lt(a, a),
    decreases a.len(),
{
    if a.len() > 0 {
        lemma_bytes_lt_irreflexive(a.drop_first());
    }
}

proof fn lemma_bytes_lt_trans(a: Seq<u8>, b: Seq<u8>, c: Seq<u8>)
    requires
        bytes_lt(a, b),
        bytes_lt(b, c),
    ensures
        bytes_lt(a, c),
    decreases a.len(),
{
    if a.len() > 0 && b.len() > 0 && c.len() > 0 && a[0] == b[0] && b[0] == c[0] {
        lemma_bytes_lt_trans(a.drop_first(), b.drop_first(), c.drop_first());
    }
}

proof fn lemma_bytes_lt_total(a: Seq<u8>, b: Seq<u8>)
    ensures
        a == b || bytes_lt(a, b) || bytes_lt(b, a),
    decreases a.len(),
{
    if a.len() > 0 && b.len() > 0 && a[0] == b[0] {
        lemma_bytes_lt_total(a.drop_first(), b.drop_first());
        if a.drop_first() == b.drop_first() {
            assert(a =~= seq![a[0]] + a.drop_first());
            assert(b =~= seq![b[0]] + b.drop_first());
        }
    } else if a.len() == 0 && b.len() == 0 {
        assert(a =~= b);
    }
}

/// Three-way byte-wise comparison: negative, zero or positive as `a` sorts
/// before, equal to or after `b`.
fn compare_bytes(a: &[u8], b: &[u8]) -> (r: i8)
    ensures
        (r < 0) == bytes_lt(a@, b@),
        (r == 0) == (a@ == b@),
        (r > 0) == bytes_lt(b@, a@),
    decreases a@.len(),
{
    proof {
        lemma_bytes_lt_total(a@, b@);
        lemma_bytes_lt_irreflexive(a@);
        if bytes_lt(a@, b@) && bytes_lt(b@, a@) {
            lemma_bytes_lt_trans(a@, b@, a@);
        }
    }
    if a.len() == 0 {
        if b.len() == 0 {
            0
        } else {
            -1
        }
    } else if b.len() == 0 {
        1
    } else if a[0] != b[0] {
        if a[0] < b[0] {
            -1
        } else {
            1
        }
    } else {
        let a1 = vstd::slice::slice_subrange(a, 1, a.len());
        let b1 = vstd::slice::slice_subrange(b, 1, b.len());
        assert(a1@ =~= a@.drop_first());
        assert(b1@ =~= b@.drop_first());
        compare_bytes(a1, b1)
    }
}

/// The registry key of an address: its UTF-8 bytes.
pub open spec fn addr_key(address: Seq<char>) -> Seq<u8> {
    vstd::utf8::encode_utf8(address)
}

proof fn lemma_addr_key_injective(a: Seq<char>, b: Seq<char>)
    requires
        addr_key(a) == addr_key(b),
    ensures
        a == b,
{
    vstd::utf8::encode_utf8_decode_utf8(a);
    vstd::utf8::encode_utf8_decode_utf8(b);
}

/// Whether the records are in strictly increasing address order (so no two
/// share an address).
pub open spec fn sorted_tags(s: Seq<TagView>) -> bool {
    forall|i: int, j: int|
        0 <= i < j < s.len() ==> bytes_lt(addr_key(#[trigger] s[i].address), addr_key(
            #[trigger] s[j].address,
        ))
}

/// Whether some record has address `a`.
pub open spec fn has_address(s: Seq<TagView>, a: Seq<char>) -> bool {
    exists|i: int| 0 <= i < s.len() && #[trigger] s[i].address == a
}

/// The records as a map from address to record.
pub open spec fn tags_map(s: Seq<TagView>) -> Map<Seq<char>, TagView> {
    Map::new(
        |a: Seq<char>| has_address(s, a),
        |a: Seq<char>| s[choose|i: int| 0 <= i < s.len() && #[trigger] s[i].address == a],
    )
}

proof fn lemma_sorted_distinct(s: Seq<TagView>, i: int, j: int)
    requires
        sorted_tags(s),
        0 <= i < s.len(),
        0 <= j < s.len(),
        s[i].address == s[j].address,
    ensures
        i == j,
{
    if i < j {
        assert(bytes_lt(addr_key(s[i].address), addr_key(s[j].address)));
        lemma_bytes_lt_irreflexive(addr_key(s[i].address));
    } else if j < i {
        assert(bytes_lt(addr_key(s[j].address), addr_key(s[i].address)));
        lemma_bytes_lt_irreflexive(addr_key(s[i].address));
    }
}

pub proof fn lemma_tags_map_at(s: Seq<TagView>, i: int)
    requires
        sorted_tags(s),
        0 <= i < s.len(),
    ensures
        tags_map(s).contains_key(s[i].address),
        tags_map(s)[s[i].address] == s[i],
{
    let a = s[i].address;
    assert(has_address(s, a));
    let k = choose|k: int| 0 <= k < s.len() && #[trigger] s[k].address == a;
    lemma_sorted_distinct(s, i, k);
}

proof fn lemma_tags_map_update(s: Seq<TagView>, i: int, v: TagView)
    requires
        sorted_tags(s),
        0 <= i < s.len(),
        v.address == s[i].address,
    ensures
        sorted_tags(s.update(i, v)),
        tags_map(s.update(i, v)) == tags_map(s).insert(v.address, v),
{
    let t = s.update(i, v);
    assert forall|x: int, y: int| 0 <= x < y < t.len() implies bytes_lt(
        addr_key(#[trigger] t[x].address),
        addr_key(#[trigger] t[y].address),
    ) by {
        assert(t[x].address == s[x].address);
        assert(t[y].address == s[y].address);
    }
    assert forall|a: Seq<char>| #[trigger] has_address(t, a) == has_address(s, a) by {
        if has_address(t, a) {
            let k = choose|k: int| 0 <= k < t.len() && #[trigger] t[k].address == a;
            assert(s[k].address == a);
        }
        if has_address(s, a) {
            let k = choose|k: int| 0 <= k < s.len() && #[trigger] s[k].address == a;
            assert(t[k].address == a);
        }
    }
    assert forall|a: Seq<char>| #[trigger] tags_map(t).contains_key(a) implies tags_map(t)[a] == (
    if a == v.address {
        v
    } else {
        tags_map(s)[a]
    }) by {
        let k = choose|k: int| 0 <= k < t.len() && #[trigger] t[k].address == a;
        lemma_tags_map_at(t, k);
        if k != i {
            assert(t[k] == s[k]);
            lemma_tags_map_at(s, k);
            if a == v.address {
                lemma_sorted_distinct(s, k, i);
            }
        } else {
            assert(a == v.address);
        }
    }
    assert(tags_map(t) =~= tags_map(s).insert(v.address, v));
}

proof fn lemma_tags_map_insert(s: Seq<TagView>, p: int, v: TagView)
    requires
        sorted_tags(s),
        0 <= p <= s.len(),
        forall|i: int| 0 <= i < p ==> bytes_lt(addr_key(#[trigger] s[i].address), addr_key(v.address)),
        forall|i: int|
            p <= i < s.len() ==> bytes_lt(addr_key(v.address), addr_key(#[trigger] s[i].address)),
    ensures
        sorted_tags(s.insert(p, v)),
        !has_address(s, v.address),
        tags_map(s.insert(p, v)) == tags_map(s).insert(v.address, v),
{
    let t = s.insert(p, v);
    assert forall|x: int, y: int| 0 <= x < y < t.len() implies bytes_lt(
        addr_key(#[trigger] t[x].address),
        addr_key(#[trigger] t[y].address),
    ) by {
        if y < p {
        } else if y == p {
        } else if x < p {
            assert(bytes_lt(addr_key(s[x].address), addr_key(v.address)));
            assert(bytes_lt(addr_key(v.address), addr_key(s[y - 1].address)));
            lemma_bytes_lt_trans(addr_key(s[x].address), addr_key(v.address), addr_key(s[y - 1].address));
        } else if x == p {
        } else {
            assert(t[x] == s[x - 1] && t[y] == s[y - 1]);
        }
    }
    if has_address(s, v.address) {
        let k = choose|k: int| 0 <= k < s.len() && #[trigger] s[k].address == v.address;
        lemma_bytes_lt_irreflexive(addr_key(v.address));
        if k < p {
            assert(bytes_lt(addr_key(s[k].address), addr_key(v.address)));
        } else {
            assert(bytes_lt(addr_key(v.address), addr_key(s[k].address)));
        }
        assert(false);
    }
    assert(!has_address(s, v.address));
    assert forall|a: Seq<char>| #[trigger] has_address(t, a) == (has_address(s, a) || a == v.address) by {
        if has_address(t, a) {
            let k = choose|k: int| 0 <= k < t.len() && #[trigger] t[k].address == a;
            if k < p {
                assert(s[k].address == a);
            } else if k > p {
                assert(s[k - 1].address == a);
            }
        }
        if has_address(s, a) {
            let k = choose|k: int| 0 <= k < s.len() && #[trigger] s[k].address == a;
            if k < p {
                assert(t[k].address == a);
            } else {
                assert(t[k + 1].address == a);
            }
        }
        if a == v.address {
            assert(t[p].address == a);
        }
    }
    assert forall|a: Seq<char>| #[trigger] tags_map(t).contains_key(a) implies tags_map(t)[a] == (
    if a == v.address {
        v
    } else {
        tags_map(s)[a]
    }) by {
        let k = choose|k: int| 0 <= k < t.len() && #[trigger] t[k].address == a;
        lemma_tags_map_at(t, k);
        if k < p {
            assert(t[k] == s[k]);
            lemma_tags_map_at(s, k);
            assert(has_address(s, a));
        } else if k > p {
            assert(t[k] == s[k - 1]);
            lemma_tags_map_at(s, k - 1);
            assert(has_address(s, a));
        } else {
            assert(t[k] == v);
        }
    }
    assert(tags_map(t) =~= tags_map(s).insert(v.address, v));
}

/// The views of a sequence of records.
pub open spec fn views(s: Seq<TagInfo>) -> Seq<TagView> {
    s.map_values(|t: TagInfo| t@)
}

/// Where the record of `address` is (`(i, true)`), or where it would go to keep
/// the order (`(i, false)`).
fn position(tags: &Vec<TagInfo>, address: &str) -> (r: (usize, bool))
    requires
        sorted_tags(views(tags@)),
    ensures
        r.0 <= tags@.len(),
        r.1 == has_address(views(tags@), address@),
        r.1 ==> r.0 < tags@.len() && tags@[r.0 as int]@.address == address@,
        !r.1 ==> (forall|i: int|
            0 <= i < r.0 ==> bytes_lt(
                addr_key(#[trigger] views(tags@)[i].address),
                addr_key(address@),
            )) && (forall|i: int|
            r.0 <= i < tags@.len() ==> bytes_lt(
                addr_key(address@),
                addr_key(#[trigger] views(tags@)[i].address),
            )),
{
    let key = address.as_bytes();
    let ghost vs = views(tags@);
    let mut i: usize = 0;
    while i < tags.len()
        invariant
            i <= tags@.len(),
            vs == views(tags@),
            sorted_tags(vs),
            key@ == addr_key(address@),
            forall|k: int| 0 <= k < i ==> bytes_lt(addr_key(#[trigger] vs[k].address), addr_key(address@)),
        decreases tags@.len() - i,
    {
        let c = compare_bytes(tags[i].address.as_str().as_bytes(), key);
        assert(vs[i as int] == tags@[i as int]@);
        if c == 0 {
            proof {
                lemma_addr_key_injective(vs[i as int].address, address@);
                assert(has_address(vs, address@));
            }
            return (i, true);
        }
        if c > 0 {
            proof {
                assert forall|k: int| i <= k < tags@.len() implies bytes_lt(
                    addr_key(address@),
                    addr_key(#[trigger] vs[k].address),
                ) by {
                    if k > i {
                        lemma_bytes_lt_trans(addr_key(address@), addr_key(vs[i as int].address), addr_key(vs[k].address));
                    }
                }
                if has_address(vs, address@) {
                    let k = choose|k: int| 0 <= k < vs.len() && #[trigger] vs[k].address == address@;
                    lemma_bytes_lt_irreflexive(addr_key(address@));
                    assert(false);
                }
            }
            return (i, false);
        }
        i += 1;
    }
    proof {
        if has_address(vs, address@) {
            let k = choose|k: int| 0 <= k < vs.len() && #[trigger] vs[k].address == address@;
            lemma_bytes_lt_irreflexive(addr_key(address@));
            assert(false);
        }
    }
    (i, false)
}

/// Thread-agnostic registry of all discovered etag devices, keyed by BLE address
/// and kept in address order.
pub struct DeviceRegistry {
    tags: Vec<TagInfo>,
}

impl DeviceRegistry {
    #[verifier::type_invariant]
    spec fn ordered(self) -> bool {
        sorted_tags(views(self.tags@))
    }

    /// The records, in increasing address order.
    pub closed spec fn view_tags(&self) -> Seq<TagView> {
        views(self.tags@)
    }

    /// The records by address.
    pub open spec fn view_map(&self) -> Map<Seq<char>, TagView> {
        tags_map(self.view_tags())
    }

    /// A new, empty registry.
    pub fn new() -> (r: DeviceRegistry)
        ensures
            r.view_map() == Map::<Seq<char>, TagView>::empty(),
    {
        let r = DeviceRegistry { tags: Vec::new() };
        assert(r.view_map() =~= Map::<Seq<char>, TagView>::empty());
        r
    }

    /// Put `t` in the place of the record at `i`, which has the same address.
    fn replace_at(&mut self, i: usize, t: TagInfo)
        requires
            i < old(self).view_tags().len(),
            t@.address == old(self).view_tags()[i as int].address,
        ensures
            final(self).view_map() == old(self).view_map().insert(t@.address, t@),
    {
        proof {
            use_type_invariant(&*self);
        }
        let ghost vs = views(self.tags@);
        let mut tags: Vec<TagInfo> = Vec::new();
        std::mem::swap(&mut tags, &mut self.tags);
        tags[i] = t;
        proof {
            assert(views(tags@) =~= vs.update(i as int, t@));
            lemma_tags_map_update(vs, i as int, t@);
        }
        self.tags = tags;
    }

    /// Insert or update the entry for `address`: `last_seen` becomes `now`, and
    /// the advertised name and RSSI are recorded when present. A new address
    /// starts as a fresh record first seen at `now`.
    pub fn upsert_seen(&mut self, address: &str, name: Option<String>, rssi: Option<i16>, now: i64)
        ensures
            ({
                let base = if old(self).view_map().contains_key(address@) {
                    old(self).view_map()[address@]
                } else {
                    new_tag_view(address@, now)
                };
                final(self).view_map() == old(self).view_map().insert(
                    address@,
                    TagView {
                        last_seen: now,
                        name: if name is Some {
                            opt_chars(name)
                        } else {
                            base.name
                        },
                        rssi: if rssi is Some {
                            rssi
                        } else {
                            base.rssi
                        },
                        ..base
                    },
                )
            }),
    {
        proof {
            use_type_invariant(&*self);
        }
        let ghost vs = views(self.tags@);
        let (i, found) = position(&self.tags, address);
        if found {
            proof {
                lemma_tags_map_at(vs, i as int);
            }
            let mut t = self.tags[i].snapshot();
            t.last_seen = now;
            if name.is_some() {
                t.name = name;
            }
            if let Some(r) = rssi {
                t.rssi = Some(r);
            }
            self.replace_at(i, t);
        } else {
            let mut t = TagInfo::new(address, now);
            t.last_seen = now;
            if name.is_some() {
                t.name = name;
            }
            if let Some(r) = rssi {
                t.rssi = Some(r);
            }
            let mut tags: Vec<TagInfo> = Vec::new();
            std::mem::swap(&mut tags, &mut self.tags);
            let ghost tv = t@;
            tags.insert(i, t);
            proof {
                assert(views(tags@) =~= vs.insert(i as int, tv));
                lemma_tags_map_insert(vs, i as int, tv);
            }
            self.tags = tags;
        }
    }

    /// Store the Grocycode of a known device, the product ID parsed from it, and
    /// bump `last_seen`; unknown addresses are ignored.
    pub fn update_grocycode(&mut self, address: &str, code: &str, now: i64)
        ensures
            old(self).view_map().contains_key(address@) ==> final(self).view_map()
                == old(self).view_map().insert(
                address@,
                TagView {
                    grocycode: Some(code@),
                    product_id: product_id_of(code.spec_bytes()),
                    last_seen: now,
                    ..old(self).view_map()[address@]
                },
            ),
            !old(self).view_map().contains_key(address@) ==> final(self).view_map()
                == old(self).view_map(),
    {
        proof {
            use_type_invariant(&*self);
        }
        let ghost vs = views(self.tags@);
        let (i, found) = position(&self.tags, address);
        if found {
            proof {
                lemma_tags_map_at(vs, i as int);
            }
            let mut t = self.tags[i].snapshot();
            t.grocycode = Some(code.to_owned());
            t.product_id = parse_product_id(code);
            t.last_seen = now;
            self.replace_at(i, t);
        }
    }

    /// Store the product name of a known device and bump `last_seen`.
    pub fn update_product_name(&mut self, address: &str, name: &str, now: i64)
        ensures
            old(self).view_map().contains_key(address@) ==> final(self).view_map()
                == old(self).view_map().insert(
                address@,
                TagView {
                    product_name: Some(name@),
                    last_seen: now,
                    ..old(self).view_map()[address@]
                },
            ),
            !old(self).view_map().contains_key(address@) ==> final(self).view_map()
                == old(self).view_map(),
    {
        proof {
            use_type_invariant(&*self);
        }
        let ghost vs = views(self.tags@);
        let (i, found) = position(&self.tags, address);
        if found {
            proof {
                lemma_tags_map_at(vs, i as int);
            }
            let mut t = self.tags[i].snapshot();
            t.product_name = Some(name.to_owned());
            t.last_seen = now;
            self.replace_at(i, t);
        }
    }

    /// Update the stock count of a known device, bump `last_seen`, and return
    /// the previous count (`None` for an unknown device or a first count).
    pub fn update_stock(&mut self, address: &str, count: i32, now: i64) -> (r: Option<i32>)
        ensures
            old(self).view_map().contains_key(address@) ==> final(self).view_map()
                == old(self).view_map().insert(
                address@,
                TagView { stock_count: Some(count), last_seen: now, ..old(self).view_map()[address@] },
            ) && r == old(self).view_map()[address@].stock_count,
            !old(self).view_map().contains_key(address@) ==> final(self).view_map()
                == old(self).view_map() && r is None,
    {
        proof {
            use_type_invariant(&*self);
        }
        let ghost vs = views(self.tags@);
        let (i, found) = position(&self.tags, address);
        if found {
            proof {
                lemma_tags_map_at(vs, i as int);
            }
            let mut t = self.tags[i].snapshot();
            let prev = t.stock_count;
            t.stock_count = Some(count);
            t.last_seen = now;
            self.replace_at(i, t);
            prev
        } else {
            None
        }
    }

    /// Update the battery percentage of a known device and bump `last_seen`.
    pub fn update_battery(&mut self, address: &str, pct: u8, now: i64)
        ensures
            old(self).view_map().contains_key(address@) ==> final(self).view_map()
                == old(self).view_map().insert(
                address@,
                TagView { battery_pct: Some(pct), last_seen: now, ..old(self).view_map()[address@] },
            ),
            !old(self).view_map().contains_key(address@) ==> final(self).view_map()
                == old(self).view_map(),
    {
        proof {
            use_type_invariant(&*self);
        }
        let ghost vs = views(self.tags@);
        let (i, found) = position(&self.tags, address);
        if found {
            proof {
                lemma_tags_map_at(vs, i as int);
            }
            let mut t = self.tags[i].snapshot();
            t.battery_pct = Some(pct);
            t.last_seen = now;
            self.replace_at(i, t);
        }
    }

    /// Update the RSSI reading of a known device and bump `last_seen`.
    pub fn update_rssi(&mut self, address: &str, rssi: i16, now: i64)
        ensures
            old(self).view_map().contains_key(address@) ==> final(self).view_map()
                == old(self).view_map().insert(
                address@,
                TagView { rssi: Some(rssi), last_seen: now, ..old(self).view_map()[address@] },
            ),
            !old(self).view_map().contains_key(address@) ==> final(self).view_map()
                == old(self).view_map(),
    {
        proof {
            use_type_invariant(&*self);
        }
        let ghost vs = views(self.tags@);
        let (i, found) = position(&self.tags, address);
        if found {
            proof {
                lemma_tags_map_at(vs, i as int);
            }
            let mut t = self.tags[i].snapshot();
            t.rssi = Some(rssi);
            t.last_seen = now;
            self.replace_at(i, t);
        }
    }

    /// Mark a known device as connected or disconnected.
    pub fn set_connected(&mut self, address: &str, connected: bool)
        ensures
            old(self).view_map().contains_key(address@) ==> final(self).view_map()
                == old(self).view_map().insert(
                address@,
                TagView { connected, ..old(self).view_map()[address@] },
            ),
            !old(self).view_map().contains_key(address@) ==> final(self).view_map()
                == old(self).view_map(),
    {
        proof {
            use_type_invariant(&*self);
        }
        let ghost vs = views(self.tags@);
        let (i, found) = position(&self.tags, address);
        if found {
            proof {
                lemma_tags_map_at(vs, i as int);
            }
            let mut t = self.tags[i].snapshot();
            t.connected = connected;
            self.replace_at(i, t);
        }
    }

    /// A copy of the record of `address`, or `None` if unknown.
    pub fn get(&self, address: &str) -> (r: Option<TagInfo>)
        ensures
            r is Some == self.view_map().contains_key(address@),
            (r matches Some(t) ==> t@ == self.view_map()[address@]),
    {
        proof {
            use_type_invariant(self);
        }
        let (i, found) = position(&self.tags, address);
        if found {
            proof {
                lemma_tags_map_at(views(self.tags@), i as int);
            }
            Some(self.tags[i].snapshot())
        } else {
            None
        }
    }

    /// Copies of all records, sorted by address.
    pub fn get_all(&self) -> (r: Vec<TagInfo>)
        ensures
            views(r@) == self.view_tags(),
            sorted_tags(views(r@)),
            tags_map(views(r@)) == self.view_map(),
    {
        proof {
            use_type_invariant(self);
        }
        let mut out: Vec<TagInfo> = Vec::new();
        let n = self.tags.len();
        let mut i: usize = 0;
        while i < n
            invariant
                i <= n,
                n == self.tags@.len(),
                out@.len() == i,
                forall|k: int| 0 <= k < i ==> (#[trigger] out@[k])@ == self.tags@[k]@,
            decreases n - i,
        {
            let t = self.tags[i].snapshot();
            out.push(t);
            i += 1;
        }
        proof {
            assert(views(out@) =~= views(self.tags@));
        }
        out
    }

    /// Number of known devices.
    pub fn count(&self) -> (r: usize)
        ensures
            r == self.view_tags().len(),
            r == self.view_map().dom().len(),
    {
        proof {
            use_type_invariant(self);
            lemma_tags_map_size(self.view_tags());
        }
        self.tags.len()
    }
}

/// Parse a Grocy product ID from a Grocycode string (`grcy-p-{id}`).
pub fn parse_product_id(grocycode: &str) -> (r: Option<u32>)
    ensures
        r == product_id_of(grocycode.spec_bytes()),
{
    product_id_from_code(grocycode)
}

proof fn lemma_tags_map_size(s: Seq<TagView>)
    requires
        sorted_tags(s),
    ensures
        tags_map(s).dom().len() == s.len(),
{
    let addrs = s.map_values(|t: TagView| t.address);
    assert(addrs.no_duplicates()) by {
        assert forall|i: int, j: int| 0 <= i < addrs.len() && 0 <= j < addrs.len() && i != j implies addrs[i] != addrs[j] by {
            if addrs[i] == addrs[j] {
                lemma_sorted_distinct(s, i, j);
            }
        }
    }
    addrs.unique_seq_to_set();
    assert forall|a: Seq<char>| #[trigger] tags_map(s).dom().contains(a) == addrs.to_set().contains(a) by {
        if has_address(s, a) {
            let k = choose|k: int| 0 <= k < s.len() && #[trigger] s[k].address == a;
            assert(addrs[k] == a);
        }
        if addrs.to_set().contains(a) {
            let k = choose|k: int| 0 <= k < addrs.len() && #[trigger] addrs[k] == a;
            assert(s[k].address == a);
        }
    }
    assert(tags_map(s).dom() =~= addrs.to_set());
}

} // verus!
