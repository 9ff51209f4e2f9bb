//! The fingerprint function and its distance metric.
//!
//! A fingerprint is a fixed-shape numeric feature vector summarizing image
//! content, produced only by [`compute_fingerprint`] and never mutated. This
//! library's documented choice of fingerprint function is a four-lane
//! interleaved byte sum over the raw image payload: lane `l` holds the sum of
//! every byte whose position is congruent to `l` modulo 4. The paired
//! distance metric is the L1 distance between the lane vectors, measured in
//! tenths of a distance unit, and the paired duplicate threshold is 1.0
//! units, i.e. a raw distance of [`DUPLICATE_THRESHOLD`]. An empty payload
//! holds no content to fingerprint and is rejected as undecodable.

use vstd::prelude::*;

verus! {

/// Maximum fingerprint distance (in raw tenths of a unit) still classified
/// as "same image": 1.0 distance units.
pub const DUPLICATE_THRESHOLD: u128 = 10;

/// Strict upper bound on the value of one fingerprint lane: a lane sums at
/// most `usize::MAX < 2^64` bytes, each at most 255.
pub const LANE_BOUND: u128 = 0xFF * 0x1_0000_0000_0000_0000;

/// Whether a byte payload can be decoded at all: an empty payload cannot.
pub open spec fn decodable(bytes: Seq<u8>) -> bool {
    bytes.len() > 0
}

/// The mathematical value of one fingerprint lane: the sum of every byte of
/// `bytes` whose position is congruent to `lane` modulo 4.
pub open spec fn lane_sum(bytes: Seq<u8>, lane: int) -> int
    decreases bytes.len(),
{
    if bytes.len() == 0 {
        0
    } else {
        lane_sum(bytes.drop_last(), lane) + if (bytes.len() - 1) % 4 == lane {
            bytes.last() as int
        } else {
            0
        }
    }
}

/// The fingerprint of a byte payload, as a four-lane vector.
pub open spec fn fingerprint_of(bytes: Seq<u8>) -> Seq<int> {
    seq![lane_sum(bytes, 0), lane_sum(bytes, 1), lane_sum(bytes, 2), lane_sum(bytes, 3)]
}

/// The absolute difference of two integers.
pub open spec fn abs_diff(x: int, y: int) -> int {
    if x >= y {
        x - y
    } else {
        y - x
    }
}

/// The L1 distance between two four-lane fingerprint vectors.
pub open spec fn distance_of(a: Seq<int>, b: Seq<int>) -> int
    recommends
        a.len() == 4,
        b.len() == 4,
{
    abs_diff(a[0], b[0]) + abs_diff(a[1], b[1]) + abs_diff(a[2], b[2]) + abs_diff(a[3], b[3])
}

/// A fingerprint: an opaque, fixed-shape numeric vector with a defined
/// distance operation, produced only by [`compute_fingerprint`].
pub struct Fingerprint {
    l0: u128,
    l1: u128,
    l2: u128,
    l3: u128,
}

impl View for Fingerprint {
    type V = Seq<int>;

    closed spec fn view(&self) -> Seq<int> {
        seq![self.l0 as int, self.l1 as int, self.l2 as int, self.l3 as int]
    }
}

impl Fingerprint {
    /// Well-formedness: every lane is below [`LANE_BOUND`], so distance
    /// computations cannot overflow.
    pub closed spec fn wf(&self) -> bool {
        self.l0 < LANE_BOUND && self.l1 < LANE_BOUND && self.l2 < LANE_BOUND && self.l3
            < LANE_BOUND
    }
}

/// Extending a prefix of the payload by one byte adds that byte to exactly
/// the lane its position selects.
proof fn lemma_lane_sum_step(bytes: Seq<u8>, i: int, lane: int)
    requires
        0 <= i < bytes.len(),
    ensures
        lane_sum(bytes.take(i + 1), lane) == lane_sum(bytes.take(i), lane) + if i % 4 == lane {
            bytes[i] as int
        } else {
            0
        },
{
    let t = bytes.take(i + 1);
    assert(t.drop_last() =~= bytes.take(i));
    assert(t.last() == bytes[i]);
}

/// Computes the fingerprint of an image payload, or `None` if the payload
/// cannot be decoded (it is empty).
pub fn compute_fingerprint(bytes: &Vec<u8>) -> (r: Option<Fingerprint>)
    ensures
        r is Some <==> decodable(bytes@),
        r matches Some(fp) ==> fp@ == fingerprint_of(bytes@) && fp.wf(),
{
    let n = bytes.len();
    if n == 0 {
        return None;
    }
    let mut l0: u128 = 0;
    let mut l1: u128 = 0;
    let mut l2: u128 = 0;
    let mut l3: u128 = 0;
    let mut i: usize = 0;
    while i < n
        invariant
            i <= n,
            n == bytes@.len(),
            l0 == lane_sum(bytes@.take(i as int), 0),
            l1 == lane_sum(bytes@.take(i as int), 1),
            l2 == lane_sum(bytes@.take(i as int), 2),
            l3 == lane_sum(bytes@.take(i as int), 3),
            l0 <= 255 * i,
            l1 <= 255 * i,
            l2 <= 255 * i,
            l3 <= 255 * i,
        decreases n - i,
    {
        let b = bytes[i] as u128;
        proof {
            lemma_lane_sum_step(bytes@, i as int, 0);
            lemma_lane_sum_step(bytes@, i as int, 1);
            lemma_lane_sum_step(bytes@, i as int, 2);
            lemma_lane_sum_step(bytes@, i as int, 3);
        }
        if i % 4 == 0 {
            l0 = l0 + b;
        } else if i % 4 == 1 {
            l1 = l1 + b;
        } else if i % 4 == 2 {
            l2 = l2 + b;
        } else {
            l3 = l3 + b;
        }
        i = i + 1;
    }
    proof {
        assert(bytes@.take(n as int) =~= bytes@);
    }
    Some(Fingerprint { l0, l1, l2, l3 })
}

/// The absolute difference of two lanes.
fn lane_diff(x: u128, y: u128) -> (r: u128)
    ensures
        r == abs_diff(x as int, y as int),
{
    if x >= y {
        x - y
    } else {
        y - x
    }
}

/// The distance between two fingerprints: lower means more similar, zero for
/// identical fingerprints.
pub fn distance(a: &Fingerprint, b: &Fingerprint) -> (r: u128)
    requires
        a.wf(),
        b.wf(),
    ensures
        r == distance_of(a@, b@),
{
    let d0 = lane_diff(a.l0, b.l0);
    let d1 = lane_diff(a.l1, b.l1);
    let d2 = lane_diff(a.l2, b.l2);
    let d3 = lane_diff(a.l3, b.l3);
    d0 + d1 + d2 + d3
}

/// The distance metric is symmetric.
pub proof fn lemma_distance_symmetric(a: Seq<int>, b: Seq<int>)
    ensures
        distance_of(a, b) == distance_of(b, a),
{
}

/// The distance metric is zero on identical fingerprints, and never
/// negative.
pub proof fn lemma_distance_zero_nonneg(a: Seq<int>, b: Seq<int>)
    ensures
        distance_of(a, a) == 0,
        distance_of(a, b) >= 0,
{
}

} // verus!
