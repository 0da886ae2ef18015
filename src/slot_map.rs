use vstd::prelude::*;
use vstd::utf8::{decode_utf8, valid_utf8};
use crate::resp::Resp;

verus! {

/// Relies on `String::from_utf8_lossy`: the text it makes of a byte string
/// depends on the bytes alone.
pub uninterp spec fn lossy_text(b: Seq<u8>) -> Seq<char>;

/// Relies on `String::from_utf8_lossy` to read a host name sent as bytes:
/// valid UTF-8 comes back as the text it encodes.
#[verifier::external_body]
fn text_of_bytes(b: &[u8]) -> (r: String)
    ensures
        r@ == lossy_text(b@),
        valid_utf8(b@) ==> r@ == decode_utf8(b@),
{
    String::from_utf8_lossy(b).into_owned()
}

/// A range of slots and the address of the primary that serves it.
#[derive(Debug)]
pub struct Slot {
    pub start: u16,
    pub end: u16,
    pub primary: String,
}

impl View for Slot {
    type V = (u16, u16, Seq<char>);

    open spec fn view(&self) -> (u16, u16, Seq<char>) {
        (self.start, self.end, self.primary@)
    }
}

/// The ranges lie in `[0, 16383]`, each with `start <= end`, sorted by
/// `start` and pairwise disjoint.
pub open spec fn ranges_well_formed(m: Seq<(u16, u16, Seq<char>)>) -> bool {
    &&& forall|i: int| 0 <= i < m.len() ==> #[trigger] m[i].0 <= m[i].1 && m[i].1 < 16384
    &&& forall|i: int, j: int| 0 <= i < j < m.len() ==> #[trigger] m[i].1 < #[trigger] m[j].0
}

pub open spec fn covers(r: (u16, u16, Seq<char>), slot: u16) -> bool {
    r.0 <= slot && slot <= r.1
}

/// The primary serving `slot`, if a range covers it.
pub open spec fn owner(m: Seq<(u16, u16, Seq<char>)>, slot: u16) -> Option<Seq<char>> {
    if exists|i: int| 0 <= i < m.len() && covers(#[trigger] m[i], slot) {
        let i = choose|i: int| 0 <= i < m.len() && covers(#[trigger] m[i], slot);
        Some(m[i].2)
    } else {
        None
    }
}

pub open spec fn digit_char(d: int) -> char {
    "0123456789"@[d]
}

/// The decimal digits of `n`.
pub open spec fn decimal(n: nat) -> Seq<char>
    decreases n,
{
    if n < 10 {
        seq![digit_char(n as int)]
    } else {
        decimal(n / 10).push(digit_char((n % 10) as int))
    }
}

/// The decimal text of `i`, with `-` in front when it is negative.
pub open spec fn signed_decimal(i: int) -> Seq<char> {
    if i < 0 {
        "-"@ + decimal((-i) as nat)
    } else {
        decimal(i as nat)
    }
}

/// The text of a host name: a bulk string (read as UTF-8), a simple string,
/// or an integer in decimal.
pub open spec fn host_of(r: Resp) -> Option<Seq<char>> {
    match r {
        Resp::BulkString(b) => Some(lossy_text(b@)),
        Resp::SimpleString(s) => Some(s@),
        Resp::Integer(i) => Some(signed_decimal(i as int)),
        _ => None,
    }
}

/// The address of a node entry `[host, port, ...]` as `host:port`.
pub open spec fn node_of(r: Resp) -> Option<Seq<char>> {
    match r {
        Resp::Array(v) => if v@.len() >= 2 && host_of(v@[0]) is Some && v@[1] is Integer
            && v@[1]->Integer_0 >= 0 {
            Some(host_of(v@[0])->0 + ":"@ + decimal(v@[1]->Integer_0 as nat))
        } else {
            None
        },
        _ => None,
    }
}

/// A row of the topology reply, `[start, end, [host, port, ...], ...]`,
/// with `start <= end <= 16383`.
pub open spec fn row_of(r: Resp) -> Option<(u16, u16, Seq<char>)> {
    match r {
        Resp::Array(v) => if v@.len() >= 3 && v@[0] is Integer && v@[1] is Integer {
            let s = v@[0]->Integer_0;
            let e = v@[1]->Integer_0;
            if 0 <= s <= e < 16384 && node_of(v@[2]) is Some {
                Some((s as u16, e as u16, node_of(v@[2])->0))
            } else {
                None
            }
        } else {
            None
        },
        _ => None,
    }
}

/// The rows of `v` that are well formed, in order.
pub open spec fn rows_of(v: Seq<Resp>) -> Seq<(u16, u16, Seq<char>)>
    decreases v.len(),
{
    if v.len() == 0 {
        Seq::empty()
    } else {
        let rest = rows_of(v.drop_last());
        match row_of(v.last()) {
            Some(x) => rest.push(x),
            None => rest,
        }
    }
}

/// The slot map that a topology reply describes: `None` when the reply is
/// not an array, when it has rows and none is well formed, or when the rows
/// are out of order or overlap.
pub open spec fn slot_map_of(reply: Resp) -> Option<Seq<(u16, u16, Seq<char>)>> {
    match reply {
        Resp::Array(v) => {
            let rows = rows_of(v@);
            if (v@.len() > 0 && rows.len() == 0) || !ranges_well_formed(rows) {
                None
            } else {
                Some(rows)
            }
        },
        _ => None,
    }
}

/// Slot ranges sorted by start, with the primary of each.
#[derive(Debug)]
pub struct SlotMap {
    slots: Vec<Slot>,
}

impl View for SlotMap {
    type V = Seq<(u16, u16, Seq<char>)>;

    closed spec fn view(&self) -> Seq<(u16, u16, Seq<char>)> {
        self.slots@.map_values(|s: Slot| s@)
    }
}

fn digit_str(d: u64) -> (r: &'static str)
    requires
        d < 10,
    ensures
        r@ == seq![digit_char(d as int)],
{
    proof {
        reveal_strlit("0123456789");
    }
    let digits = "0123456789";
    let r = digits.substring_char(d as usize, d as usize + 1);
    assert(r@ =~= seq![digit_char(d as int)]);
    r
}

/// The decimal digits of `n`.
fn decimal_string(n: u64) -> (r: String)
    ensures
        r@ == decimal(n as nat),
    decreases n,
{
    if n < 10 {
        String::from_str(digit_str(n))
    } else {
        let mut s = decimal_string(n / 10);
        s.append(digit_str(n % 10));
        s
    }
}

fn host_text(r: &Resp) -> (h: Option<String>)
    ensures
        match host_of(*r) {
            Some(t) => h is Some && h->0@ == t,
            None => h is None,
        },
{
    match r {
        Resp::BulkString(b) => Some(text_of_bytes(b.as_slice())),
        Resp::SimpleString(s) => Some(s.clone()),
        Resp::Integer(i) => Some(signed_decimal_string(*i)),
        _ => None,
    }
}

/// See `signed_decimal`.
fn signed_decimal_string(i: i64) -> (r: String)
    ensures
        r@ == signed_decimal(i as int),
{
    if i < 0 {
        let m: u64 = (-(i + 1)) as u64 + 1;
        let d = decimal_string(m);
        String::from_str("-").concat(d.as_str())
    } else {
        decimal_string(i as u64)
    }
}

fn parse_node(r: &Resp) -> (a: Option<String>)
    ensures
        match node_of(*r) {
            Some(t) => a is Some && a->0@ == t,
            None => a is None,
        },
{
    match r {
        Resp::Array(v) => {
            if v.len() < 2 {
                return None;
            }
            let port = match &v[1] {
                Resp::Integer(p) => *p,
                _ => return None,
            };
            if port < 0 {
                return None;
            }
            match host_text(&v[0]) {
                Some(h) => {
                    let s = h.concat(":");
                    let d = decimal_string(port as u64);
                    Some(s.concat(d.as_str()))
                },
                None => None,
            }
        },
        _ => None,
    }
}

/// Reads one row of the topology reply, see `row_of`.
pub fn parse_row(r: &Resp) -> (s: Option<Slot>)
    ensures
        match row_of(*r) {
            Some(x) => s is Some && s->0@ == x,
            None => s is None,
        },
{
    match r {
        Resp::Array(v) => {
            if v.len() < 3 {
                return None;
            }
            let start = match &v[0] {
                Resp::Integer(x) => *x,
                _ => return None,
            };
            let end = match &v[1] {
                Resp::Integer(x) => *x,
                _ => return None,
            };
            if !(0 <= start && start <= end && end < 16384) {
                return None;
            }
            match parse_node(&v[2]) {
                Some(primary) => Some(Slot { start: start as u16, end: end as u16, primary }),
                None => None,
            }
        },
        _ => None,
    }
}

impl SlotMap {
    pub open spec fn well_formed(&self) -> bool {
        ranges_well_formed(self@)
    }

    /// The empty map: no slot has a known owner.
    pub fn new() -> (m: SlotMap)
        ensures
            m@ == Seq::<(u16, u16, Seq<char>)>::empty(),
            m.well_formed(),
    {
        let m = SlotMap { slots: Vec::new() };
        assert(m@ =~= Seq::<(u16, u16, Seq<char>)>::empty());
        m
    }

    /// Builds the slot map that a topology reply describes, see
    /// `slot_map_of`. Malformed rows are skipped; a map is only made of
    /// sorted, disjoint ranges.
    pub fn from_reply(reply: &Resp) -> (m: Option<SlotMap>)
        ensures
            match slot_map_of(*reply) {
                Some(rows) => m is Some && m->0@ == rows,
                None => m is None,
            },
            m is Some ==> m->0.well_formed(),
    {
        let v = match reply {
            Resp::Array(v) => v,
            _ => return None,
        };
        let mut slots: Vec<Slot> = Vec::new();
        let mut i: usize = 0;
        while i < v.len()
            invariant
                i <= v@.len(),
                slots@.map_values(|s: Slot| s@) == rows_of(v@.subrange(0, i as int)),
            decreases v@.len() - i,
        {
            assert(v@.subrange(0, i + 1).drop_last() =~= v@.subrange(0, i as int));
            match parse_row(&v[i]) {
                Some(s) => {
                    slots.push(s);
                    assert(slots@.map_values(|s: Slot| s@) =~= rows_of(
                        v@.subrange(0, i + 1),
                    ));
                },
                None => {},
            }
            i = i + 1;
        }
        assert(v@.subrange(0, v@.len() as int) =~= v@);
        let ghost rows = rows_of(v@);
        if v.len() > 0 && slots.len() == 0 {
            return None;
        }
        assert(slot_map_of(*reply) == if ranges_well_formed(rows) {
            Some(rows)
        } else {
            None
        });
        let mut k: usize = 0;
        while k < slots.len()
            invariant
                k <= slots@.len() == rows.len(),
                slot_map_of(*reply) == if ranges_well_formed(rows) {
                    Some(rows)
                } else {
                    None
                },
                slots@.map_values(|s: Slot| s@) == rows,
                forall|a: int| 0 <= a < k ==> #[trigger] rows[a].0 <= rows[a].1 && rows[a].1 < 16384,
                forall|a: int, b: int| 0 <= a < b < k ==> #[trigger] rows[a].1 < #[trigger] rows[b].0,
            decreases slots@.len() - k,
        {
            assert(rows[k as int] == slots@[k as int]@);
            if !(slots[k].start <= slots[k].end && slots[k].end < 16384) {
                assert(!(rows[k as int].0 <= rows[k as int].1 && rows[k as int].1 < 16384));
                assert(!ranges_well_formed(rows));
                return None;
            }
            if k > 0 {
                assert(rows[k - 1] == slots@[k - 1]@);
                if !(slots[k - 1].end < slots[k].start) {
                    assert(!(rows[k - 1].1 < rows[k as int].0));
                    assert(!ranges_well_formed(rows));
                    return None;
                }
            }
            proof {
                assert forall|a: int| 0 <= a < k implies #[trigger] rows[a].1 < rows[k as int].0 by {
                    assert(rows[k - 1].0 <= rows[k - 1].1);
                    if a < k - 1 {
                        assert(rows[a].1 < rows[k - 1].0);
                    }
                }
            }
            k = k + 1;
        }
        Some(SlotMap { slots })
    }

    /// The primary serving `slot`, by binary search on the starts.
    pub fn resolve(&self, slot: u16) -> (r: Option<&String>)
        requires
            self.well_formed(),
        ensures
            match owner(self@, slot) {
                Some(a) => r is Some && r->0@ == a,
                None => r is None,
            },
    {
        let ghost m = self@;
        let mut lo: usize = 0;
        let mut hi: usize = self.slots.len();
        while lo < hi
            invariant
                lo <= hi <= self.slots@.len() == m.len(),
                m == self@,
                ranges_well_formed(m),
                forall|k: int| 0 <= k < lo ==> (#[trigger] m[k]).0 <= slot,
                forall|k: int| hi <= k < m.len() ==> (#[trigger] m[k]).0 > slot,
            decreases hi - lo,
        {
            let mid = lo + (hi - lo) / 2;
            assert(m[mid as int] == self.slots@[mid as int]@);
            if self.slots[mid].start <= slot {
                proof {
                    assert forall|k: int| 0 <= k <= mid implies (#[trigger] m[k]).0 <= slot by {
                        if k < mid {
                            assert(m[k].1 < m[mid as int].0);
                        }
                    }
                }
                lo = mid + 1;
            } else {
                proof {
                    assert forall|k: int| mid <= k < m.len() implies (#[trigger] m[k]).0 > slot by {
                        if k > mid {
                            assert(m[mid as int].0 <= m[mid as int].1);
                            assert(m[mid as int].1 < m[k].0);
                        }
                    }
                }
                hi = mid;
            }
        }
        if lo == 0 {
            assert forall|k: int| 0 <= k < m.len() implies !covers(#[trigger] m[k], slot) by {}
            return None;
        }
        let idx = lo - 1;
        assert(m[idx as int] == self.slots@[idx as int]@);
        if slot <= self.slots[idx].end {
            proof {
                let i = choose|i: int| 0 <= i < m.len() && covers(#[trigger] m[i], slot);
                if i < idx {
                    assert(m[i].1 < m[idx as int].0);
                } else if i > idx {
                    assert(m[i].0 > slot);
                }
            }
            Some(&self.slots[idx].primary)
        } else {
            assert forall|k: int| 0 <= k < m.len() implies !covers(#[trigger] m[k], slot) by {
                if k < idx {
                    assert(m[k].1 < m[idx as int].0);
                }
            }
            None
        }
    }

    /// Number of ranges.
    pub fn len(&self) -> (n: usize)
        ensures
            n == self@.len(),
    {
        self.slots.len()
    }

    /// The primary of the `i`-th range.
    pub fn primary(&self, i: usize) -> (a: &String)
        requires
            i < self@.len(),
        ensures
            a@ == self@[i as int].2,
    {
        &self.slots[i].primary
    }
}

} // verus!
