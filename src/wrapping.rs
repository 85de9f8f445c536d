//! Fixed-width counters that wrap around, ordered by circular distance.
//!
//! Both widths share one mathematical model: a value on a ring of `m` points,
//! `circular_delta` for the signed distance and `ring_add` for addition.
use vstd::prelude::*;
use vstd::arithmetic::div_mod::{
    lemma_mod_add_multiples_vanish, lemma_mod_sub_multiples_vanish, lemma_small_mod,
};

verus! {

/// The number of distinct sequence numbers.
pub const SEQ_MODULUS: u64 = 0x1_0000;

/// The number of distinct timestamps.
pub const TIMESTAMP_MODULUS: u64 = 0x1_0000_0000;

/// The shortest signed distance from `b` to `a` on a ring of `m` points.
/// When both ways round are equally long (half the ring), the result is `-m/2`,
/// the most negative value of the matching signed type.
pub open spec fn circular_delta(a: int, b: int, m: int) -> int {
    let forward = (a - b) % m;
    let backward = (b - a) % m;
    if forward < backward {
        forward
    } else {
        -backward
    }
}

/// `a` moved by `d` steps round a ring of `m` points.
pub open spec fn ring_add(a: int, d: int, m: int) -> int {
    (a + d) % m
}

proof fn lemma_mod_near(x: int, m: int)
    requires
        0 < m,
        -m < x < m,
    ensures
        x % m == if x >= 0 {
            x
        } else {
            x + m
        },
{
    if x >= 0 {
        lemma_small_mod(x as nat, m as nat);
    } else {
        lemma_mod_add_multiples_vanish(x, m);
        lemma_small_mod((m + x) as nat, m as nat);
    }
}

proof fn lemma_ring_algebra(a: int, b: int, m: int)
    requires
        m == SEQ_MODULUS as int || m == TIMESTAMP_MODULUS as int,
        0 <= a < m,
        0 <= b < m,
    ensures
        ring_add(b, circular_delta(a, b, m), m) == a,
        circular_delta(a, a, m) == 0,
        (a - b) % m == m / 2 ==> circular_delta(a, b, m) == -(m / 2) && circular_delta(b, a, m)
            == -(m / 2),
        (a - b) % m != m / 2 ==> circular_delta(a, b, m) == -circular_delta(b, a, m),
        -(m / 2) <= circular_delta(a, b, m) < m / 2,
{
    lemma_mod_near(a - b, m);
    lemma_mod_near(b - a, m);
    lemma_mod_near(0, m);
    lemma_small_mod(a as nat, m as nat);
    lemma_mod_add_multiples_vanish(a, m);
    if a > 0 {
        lemma_mod_near(a - m, m);
    } else {
        lemma_mod_sub_multiples_vanish(0, m);
    }
}

/// One step from `a` towards `b`, when `a` is before `b`, shortens the
/// distance by one.
proof fn lemma_step_towards(a: int, b: int, m: int)
    requires
        m == SEQ_MODULUS as int || m == TIMESTAMP_MODULUS as int,
        0 <= a < m,
        0 <= b < m,
        circular_delta(a, b, m) < 0,
    ensures
        circular_delta(ring_add(a, 1, m), b, m) == circular_delta(a, b, m) + 1,
{
    let a1 = ring_add(a, 1, m);
    if a + 1 < m {
        lemma_mod_near(a + 1, m);
    } else {
        lemma_mod_sub_multiples_vanish(m, m);
        lemma_small_mod(0, m as nat);
    }
    lemma_mod_near(a - b, m);
    lemma_mod_near(b - a, m);
    lemma_mod_near(a1 - b, m);
    lemma_mod_near(b - a1, m);
}

/// A 16-bit RTP sequence number.
#[derive(PartialEq, Eq, Structural, Debug, Clone, Copy, Default)]
pub struct SeqNum(pub u16);

impl SeqNum {
    /// The number that follows this one, wrapping from `u16::MAX` to 0.
    pub fn next(self) -> (r: Self)
        ensures
            r.0 == ring_add(self.0 as int, 1, SEQ_MODULUS as int),
    {
        SeqNum(self.0.wrapping_add(1))
    }

    /// Whether `other` is the number right after this one.
    pub fn precedes(self, other: Self) -> (r: bool)
        ensures
            r <==> other.0 == ring_add(self.0 as int, 1, SEQ_MODULUS as int),
    {
        self.next() == other
    }

    /// The shortest signed distance from `other` to `self`.
    pub fn subtract(self, other: Self) -> (r: i16)
        ensures
            r == circular_delta(self.0 as int, other.0 as int, SEQ_MODULUS as int),
    {
        proof {
            lemma_ring_algebra(self.0 as int, other.0 as int, SEQ_MODULUS as int);
        }
        let forward = self.0.wrapping_sub(other.0);
        let backward = other.0.wrapping_sub(self.0);
        if forward < backward {
            forward as i16
        } else if backward == 0x8000 {
            i16::MIN
        } else {
            -(backward as i16)
        }
    }

    /// The numbers from `start` up to `end` (exclusive), one by one.
    pub fn range(start: Self, end: Self) -> (r: SeqNumIter)
        ensures
            r.0 == start,
            r.1 == end,
    {
        SeqNumIter(start, end)
    }
}

/// The circular order: which way the shortest distance points.
pub open spec fn order_of_delta(d: int) -> core::cmp::Ordering {
    if d < 0 {
        core::cmp::Ordering::Less
    } else if d == 0 {
        core::cmp::Ordering::Equal
    } else {
        core::cmp::Ordering::Greater
    }
}

fn ordering_from_delta(d: i64) -> (r: core::cmp::Ordering)
    ensures
        r == order_of_delta(d as int),
{
    if d < 0 {
        core::cmp::Ordering::Less
    } else if d == 0 {
        core::cmp::Ordering::Equal
    } else {
        core::cmp::Ordering::Greater
    }
}

impl PartialOrd for SeqNum {
    fn partial_cmp(&self, other: &SeqNum) -> (r: Option<core::cmp::Ordering>)
        ensures
            r == Some(order_of_delta(circular_delta(self.0 as int, other.0 as int, SEQ_MODULUS as int))),
    {
        Some(ordering_from_delta(self.subtract(*other) as i64))
    }
}

impl vstd::std_specs::cmp::PartialOrdSpecImpl for SeqNum {
    open spec fn obeys_partial_cmp_spec() -> bool {
        true
    }

    open spec fn partial_cmp_spec(&self, other: &SeqNum) -> Option<core::cmp::Ordering> {
        Some(order_of_delta(circular_delta(self.0 as int, other.0 as int, SEQ_MODULUS as int)))
    }
}

impl std::ops::Sub for SeqNum {
    type Output = i16;

    fn sub(self, rhs: SeqNum) -> (r: i16)
        ensures
            r == circular_delta(self.0 as int, rhs.0 as int, SEQ_MODULUS as int),
    {
        self.subtract(rhs)
    }
}

impl vstd::std_specs::ops::SubSpecImpl for SeqNum {
    open spec fn obeys_sub_spec() -> bool {
        true
    }

    open spec fn sub_req(self, rhs: SeqNum) -> bool {
        true
    }

    open spec fn sub_spec(self, rhs: SeqNum) -> i16 {
        circular_delta(self.0 as int, rhs.0 as int, SEQ_MODULUS as int) as i16
    }
}

impl std::ops::Add<i16> for SeqNum {
    type Output = SeqNum;

    fn add(self, rhs: i16) -> (r: SeqNum)
        ensures
            r.0 == ring_add(self.0 as int, rhs as int, SEQ_MODULUS as int),
    {
        SeqNum(self.0.wrapping_add_signed(rhs))
    }
}

impl vstd::std_specs::ops::AddSpecImpl<i16> for SeqNum {
    open spec fn obeys_add_spec() -> bool {
        true
    }

    open spec fn add_req(self, rhs: i16) -> bool {
        true
    }

    open spec fn add_spec(self, rhs: i16) -> SeqNum {
        SeqNum(ring_add(self.0 as int, rhs as int, SEQ_MODULUS as int) as u16)
    }
}

impl std::ops::Add<u16> for SeqNum {
    type Output = SeqNum;

    fn add(self, rhs: u16) -> (r: SeqNum)
        ensures
            r.0 == ring_add(self.0 as int, rhs as int, SEQ_MODULUS as int),
    {
        SeqNum(self.0.wrapping_add(rhs))
    }
}

impl vstd::std_specs::ops::AddSpecImpl<u16> for SeqNum {
    open spec fn obeys_add_spec() -> bool {
        true
    }

    open spec fn add_req(self, rhs: u16) -> bool {
        true
    }

    open spec fn add_spec(self, rhs: u16) -> SeqNum {
        SeqNum(ring_add(self.0 as int, rhs as int, SEQ_MODULUS as int) as u16)
    }
}

impl From<u16> for SeqNum {
    fn from(v: u16) -> (r: SeqNum) {
        SeqNum(v)
    }
}

impl vstd::std_specs::convert::FromSpecImpl<u16> for SeqNum {
    open spec fn obeys_from_spec() -> bool {
        true
    }

    open spec fn from_spec(v: u16) -> SeqNum {
        SeqNum(v)
    }
}

/// Counts how many numbers a range of sequence numbers still yields.
pub open spec fn seq_steps_left(cur: SeqNum, end: SeqNum) -> nat {
    let d = circular_delta(cur.0 as int, end.0 as int, SEQ_MODULUS as int);
    if d < 0 {
        (-d) as nat
    } else {
        0
    }
}

/// The law relating subtraction and addition of sequence numbers: adding the
/// distance from `b` to `a` onto `b` gives `a`; a number is at distance 0 from
/// itself; the distance one way is the negation of the other, except at half
/// the ring, where both ways are the most negative `i16`.
pub proof fn lemma_seq_num_algebra(a: SeqNum, b: SeqNum)
    ensures
        ring_add(b.0 as int, circular_delta(a.0 as int, b.0 as int, SEQ_MODULUS as int), SEQ_MODULUS as int)
            == a.0,
        circular_delta(a.0 as int, a.0 as int, SEQ_MODULUS as int) == 0,
        (a.0 - b.0) % (SEQ_MODULUS as int) == 0x8000 ==> circular_delta(
            a.0 as int,
            b.0 as int,
            SEQ_MODULUS as int,
        ) == i16::MIN && circular_delta(b.0 as int, a.0 as int, SEQ_MODULUS as int) == i16::MIN,
        (a.0 - b.0) % (SEQ_MODULUS as int) != 0x8000 ==> circular_delta(a.0 as int, b.0 as int, SEQ_MODULUS as int)
            == -circular_delta(b.0 as int, a.0 as int, SEQ_MODULUS as int),
{
    lemma_ring_algebra(a.0 as int, b.0 as int, SEQ_MODULUS as int);
}

/// A range of sequence numbers, yielded lazily from the first (inclusive)
/// towards the second (exclusive).
pub struct SeqNumIter(pub SeqNum, pub SeqNum);

impl SeqNumIter {
    /// The next number of the range, or `None` once the start is at or
    /// after the end under the circular order (`start >= end`).
    pub fn next(&mut self) -> (r: Option<SeqNum>)
        ensures
            circular_delta(old(self).0.0 as int, old(self).1.0 as int, SEQ_MODULUS as int) >= 0 ==> {
                &&& r is None
                &&& *final(self) == *old(self)
            },
            circular_delta(old(self).0.0 as int, old(self).1.0 as int, SEQ_MODULUS as int) < 0 ==> {
                &&& r == Some(old(self).0)
                &&& final(self).0.0 == ring_add(old(self).0.0 as int, 1, SEQ_MODULUS as int)
                &&& final(self).1 == old(self).1
                &&& seq_steps_left(final(self).0, final(self).1) + 1 == seq_steps_left(
                    old(self).0,
                    old(self).1,
                )
            },
    {
        if self.0.subtract(self.1) >= 0 {
            None
        } else {
            proof {
                lemma_step_towards(self.0.0 as int, self.1.0 as int, SEQ_MODULUS as int);
            }
            let res = self.0;
            self.0 = self.0.next();
            Some(res)
        }
    }
}

/// A 32-bit RTP media timestamp.
#[derive(PartialEq, Eq, Structural, Debug, Clone, Copy, Default)]
pub struct Timestamp(pub u32);

impl Timestamp {
    /// The timestamp that follows this one, wrapping from `u32::MAX` to 0.
    pub fn next(self) -> (r: Self)
        ensures
            r.0 == ring_add(self.0 as int, 1, TIMESTAMP_MODULUS as int),
    {
        Timestamp(self.0.wrapping_add(1))
    }

    /// Whether `other` is the timestamp right after this one.
    pub fn precedes(self, other: Self) -> (r: bool)
        ensures
            r <==> other.0 == ring_add(self.0 as int, 1, TIMESTAMP_MODULUS as int),
    {
        self.next() == other
    }

    /// The shortest signed distance from `other` to `self`.
    pub fn subtract(self, other: Self) -> (r: i32)
        ensures
            r == circular_delta(self.0 as int, other.0 as int, TIMESTAMP_MODULUS as int),
    {
        proof {
            lemma_ring_algebra(self.0 as int, other.0 as int, TIMESTAMP_MODULUS as int);
        }
        let forward = self.0.wrapping_sub(other.0);
        let backward = other.0.wrapping_sub(self.0);
        if forward < backward {
            forward as i32
        } else if backward == 0x8000_0000 {
            i32::MIN
        } else {
            -(backward as i32)
        }
    }

    /// The timestamps from `start` up to `end` (exclusive), one by one.
    pub fn range(start: Self, end: Self) -> (r: TimestampIter)
        ensures
            r.0 == start,
            r.1 == end,
    {
        TimestampIter(start, end)
    }
}

impl PartialOrd for Timestamp {
    fn partial_cmp(&self, other: &Timestamp) -> (r: Option<core::cmp::Ordering>)
        ensures
            r == Some(order_of_delta(circular_delta(self.0 as int, other.0 as int, TIMESTAMP_MODULUS as int))),
    {
        Some(ordering_from_delta(self.subtract(*other) as i64))
    }
}

impl vstd::std_specs::cmp::PartialOrdSpecImpl for Timestamp {
    open spec fn obeys_partial_cmp_spec() -> bool {
        true
    }

    open spec fn partial_cmp_spec(&self, other: &Timestamp) -> Option<core::cmp::Ordering> {
        Some(order_of_delta(circular_delta(self.0 as int, other.0 as int, TIMESTAMP_MODULUS as int)))
    }
}

impl std::ops::Sub for Timestamp {
    type Output = i32;

    fn sub(self, rhs: Timestamp) -> (r: i32)
        ensures
            r == circular_delta(self.0 as int, rhs.0 as int, TIMESTAMP_MODULUS as int),
    {
        self.subtract(rhs)
    }
}

impl vstd::std_specs::ops::SubSpecImpl for Timestamp {
    open spec fn obeys_sub_spec() -> bool {
        true
    }

    open spec fn sub_req(self, rhs: Timestamp) -> bool {
        true
    }

    open spec fn sub_spec(self, rhs: Timestamp) -> i32 {
        circular_delta(self.0 as int, rhs.0 as int, TIMESTAMP_MODULUS as int) as i32
    }
}

impl std::ops::Add<i32> for Timestamp {
    type Output = Timestamp;

    fn add(self, rhs: i32) -> (r: Timestamp)
        ensures
            r.0 == ring_add(self.0 as int, rhs as int, TIMESTAMP_MODULUS as int),
    {
        Timestamp(self.0.wrapping_add_signed(rhs))
    }
}

impl vstd::std_specs::ops::AddSpecImpl<i32> for Timestamp {
    open spec fn obeys_add_spec() -> bool {
        true
    }

    open spec fn add_req(self, rhs: i32) -> bool {
        true
    }

    open spec fn add_spec(self, rhs: i32) -> Timestamp {
        Timestamp(ring_add(self.0 as int, rhs as int, TIMESTAMP_MODULUS as int) as u32)
    }
}

impl std::ops::Add<u32> for Timestamp {
    type Output = Timestamp;

    fn add(self, rhs: u32) -> (r: Timestamp)
        ensures
            r.0 == ring_add(self.0 as int, rhs as int, TIMESTAMP_MODULUS as int),
    {
        Timestamp(self.0.wrapping_add(rhs))
    }
}

impl vstd::std_specs::ops::AddSpecImpl<u32> for Timestamp {
    open spec fn obeys_add_spec() -> bool {
        true
    }

    open spec fn add_req(self, rhs: u32) -> bool {
        true
    }

    open spec fn add_spec(self, rhs: u32) -> Timestamp {
        Timestamp(ring_add(self.0 as int, rhs as int, TIMESTAMP_MODULUS as int) as u32)
    }
}

impl From<u32> for Timestamp {
    fn from(v: u32) -> (r: Timestamp) {
        Timestamp(v)
    }
}

impl vstd::std_specs::convert::FromSpecImpl<u32> for Timestamp {
    open spec fn obeys_from_spec() -> bool {
        true
    }

    open spec fn from_spec(v: u32) -> Timestamp {
        Timestamp(v)
    }
}

/// Counts how many timestamps a range still yields.
pub open spec fn timestamp_steps_left(cur: Timestamp, end: Timestamp) -> nat {
    let d = circular_delta(cur.0 as int, end.0 as int, TIMESTAMP_MODULUS as int);
    if d < 0 {
        (-d) as nat
    } else {
        0
    }
}

/// The law relating subtraction and addition of timestamps: adding the
/// distance from `b` to `a` onto `b` gives `a`; a timestamp is at distance 0 from
/// itself; the distance one way is the negation of the other, except at half
/// the ring, where both ways are the most negative `i32`.
pub proof fn lemma_timestamp_algebra(a: Timestamp, b: Timestamp)
    ensures
        ring_add(b.0 as int, circular_delta(a.0 as int, b.0 as int, TIMESTAMP_MODULUS as int), TIMESTAMP_MODULUS as int)
            == a.0,
        circular_delta(a.0 as int, a.0 as int, TIMESTAMP_MODULUS as int) == 0,
        (a.0 - b.0) % (TIMESTAMP_MODULUS as int) == 0x8000_0000 ==> circular_delta(
            a.0 as int,
            b.0 as int,
            TIMESTAMP_MODULUS as int,
        ) == i32::MIN && circular_delta(b.0 as int, a.0 as int, TIMESTAMP_MODULUS as int) == i32::MIN,
        (a.0 - b.0) % (TIMESTAMP_MODULUS as int) != 0x8000_0000 ==> circular_delta(a.0 as int, b.0 as int, TIMESTAMP_MODULUS as int)
            == -circular_delta(b.0 as int, a.0 as int, TIMESTAMP_MODULUS as int),
{
    lemma_ring_algebra(a.0 as int, b.0 as int, TIMESTAMP_MODULUS as int);
}

/// A range of timestamps, yielded lazily from the first (inclusive)
/// towards the second (exclusive).
pub struct TimestampIter(pub Timestamp, pub Timestamp);

impl TimestampIter {
    /// The next timestamp of the range, or `None` once the start is at or
    /// after the end under the circular order (`start >= end`).
    pub fn next(&mut self) -> (r: Option<Timestamp>)
        ensures
            circular_delta(old(self).0.0 as int, old(self).1.0 as int, TIMESTAMP_MODULUS as int) >= 0 ==> {
                &&& r is None
                &&& *final(self) == *old(self)
            },
            circular_delta(old(self).0.0 as int, old(self).1.0 as int, TIMESTAMP_MODULUS as int) < 0 ==> {
                &&& r == Some(old(self).0)
                &&& final(self).0.0 == ring_add(old(self).0.0 as int, 1, TIMESTAMP_MODULUS as int)
                &&& final(self).1 == old(self).1
                &&& timestamp_steps_left(final(self).0, final(self).1) + 1 == timestamp_steps_left(
                    old(self).0,
                    old(self).1,
                )
            },
    {
        if self.0.subtract(self.1) >= 0 {
            None
        } else {
            proof {
                lemma_step_towards(self.0.0 as int, self.1.0 as int, TIMESTAMP_MODULUS as int);
            }
            let res = self.0;
            self.0 = self.0.next();
            Some(res)
        }
    }
}

} // verus!
