//! Latencies between cloud regions, for simulating a validator set that is
//! spread over the world.

use vstd::prelude::*;

verus! {

/// A cloud region.
#[derive(Debug, Clone, Copy, PartialEq, Eq, Hash, Structural)]
pub enum Region {
    /// N. Virginia
    USEast,
    /// Oregon
    USWest,
    /// Ireland
    EUWest,
    /// Frankfurt
    EUCentral,
    /// Mumbai
    APSouth,
    /// Tokyo
    APNortheast,
    /// Sao Paulo
    SAEast,
    /// Cape Town
    AFSouth,
}

/// The latency within a region, in microseconds.
pub const LOCAL_LATENCY_US: u64 = 1_000;

/// The latency between two regions of which nothing is measured, in
/// microseconds.
pub const DEFAULT_LATENCY_US: u64 = 100_000;

/// The position of a region in `all_regions`.
pub open spec fn region_index(r: Region) -> int {
    match r {
        Region::USEast => 0,
        Region::USWest => 1,
        Region::EUWest => 2,
        Region::EUCentral => 3,
        Region::APSouth => 4,
        Region::APNortheast => 5,
        Region::SAEast => 6,
        Region::AFSouth => 7,
    }
}

/// The measured latency from one region to another, in microseconds, where
/// the link was measured in this direction.
pub open spec fn measured_us(from: Region, to: Region) -> Option<u64> {
    match (from, to) {
        (Region::USEast, Region::USWest) => Some(60_000u64),
        (Region::USWest, Region::USEast) => Some(60_000u64),
        (Region::USEast, Region::EUWest) => Some(75_000u64),
        (Region::USEast, Region::EUCentral) => Some(85_000u64),
        (Region::USWest, Region::EUWest) => Some(140_000u64),
        (Region::USWest, Region::EUCentral) => Some(150_000u64),
        (Region::USEast, Region::APSouth) => Some(200_000u64),
        (Region::USEast, Region::APNortheast) => Some(150_000u64),
        (Region::USWest, Region::APSouth) => Some(180_000u64),
        (Region::USWest, Region::APNortheast) => Some(100_000u64),
        (Region::USEast, Region::SAEast) => Some(110_000u64),
        (Region::USWest, Region::SAEast) => Some(180_000u64),
        (Region::USEast, Region::AFSouth) => Some(210_000u64),
        (Region::USWest, Region::AFSouth) => Some(280_000u64),
        (Region::EUWest, Region::EUCentral) => Some(15_000u64),
        (Region::EUCentral, Region::EUWest) => Some(15_000u64),
        (Region::EUWest, Region::APSouth) => Some(120_000u64),
        (Region::EUWest, Region::APNortheast) => Some(220_000u64),
        (Region::EUCentral, Region::APSouth) => Some(110_000u64),
        (Region::EUCentral, Region::APNortheast) => Some(210_000u64),
        (Region::EUWest, Region::SAEast) => Some(180_000u64),
        (Region::EUCentral, Region::SAEast) => Some(190_000u64),
        (Region::EUWest, Region::AFSouth) => Some(160_000u64),
        (Region::EUCentral, Region::AFSouth) => Some(150_000u64),
        (Region::APSouth, Region::APNortheast) => Some(90_000u64),
        (Region::APNortheast, Region::APSouth) => Some(90_000u64),
        (Region::APSouth, Region::SAEast) => Some(310_000u64),
        (Region::APNortheast, Region::SAEast) => Some(280_000u64),
        (Region::APSouth, Region::AFSouth) => Some(140_000u64),
        (Region::APNortheast, Region::AFSouth) => Some(250_000u64),
        (Region::SAEast, Region::AFSouth) => Some(270_000u64),
        _ => None,
    }
}

/// The latency from one region to another, in microseconds: 1 ms within a
/// region; otherwise what was measured in this direction, or else in the
/// other; and 100 ms where neither was measured.
pub open spec fn latency_us(from: Region, to: Region) -> u64 {
    if from == to {
        LOCAL_LATENCY_US
    } else {
        match measured_us(from, to) {
            Some(l) => l,
            None => match measured_us(to, from) {
                Some(l) => l,
                None => DEFAULT_LATENCY_US,
            },
        }
    }
}

/// The latency between two regions is the same in both directions.
pub proof fn lemma_latency_symmetric(a: Region, b: Region)
    ensures
        latency_us(a, b) == latency_us(b, a),
{
}

/// No latency is above 310 ms, and none is below 1 ms.
pub proof fn lemma_latency_bounds(a: Region, b: Region)
    ensures
        1_000 <= latency_us(a, b) <= 310_000,
{
}

/// The sum of the latencies from each region of `from` to `to`, in
/// microseconds.
pub open spec fn latency_to(from: Seq<Region>, to: Region) -> nat
    decreases from.len(),
{
    if from.len() == 0 {
        0
    } else {
        latency_to(from.drop_last(), to) + latency_us(from.last(), to) as nat
    }
}

/// The sum of the latencies between every two validators of a set, each
/// pair once, in microseconds.
pub open spec fn pair_latency_total(regions: Seq<Region>) -> nat
    decreases regions.len(),
{
    if regions.len() == 0 {
        0
    } else {
        pair_latency_total(regions.drop_last()) + latency_to(regions.drop_last(), regions.last())
    }
}

/// The number of pairs among `n` validators.
pub open spec fn pair_count(n: nat) -> nat
    decreases n,
{
    if n == 0 {
        0
    } else {
        pair_count((n - 1) as nat) + (n - 1) as nat
    }
}

/// Computes `measured_us`.
fn measured(from: Region, to: Region) -> (r: Option<u64>)
    ensures
        r == measured_us(from, to),
{
    match (from, to) {
        (Region::USEast, Region::USWest) => Some(60_000),
        (Region::USWest, Region::USEast) => Some(60_000),
        (Region::USEast, Region::EUWest) => Some(75_000),
        (Region::USEast, Region::EUCentral) => Some(85_000),
        (Region::USWest, Region::EUWest) => Some(140_000),
        (Region::USWest, Region::EUCentral) => Some(150_000),
        (Region::USEast, Region::APSouth) => Some(200_000),
        (Region::USEast, Region::APNortheast) => Some(150_000),
        (Region::USWest, Region::APSouth) => Some(180_000),
        (Region::USWest, Region::APNortheast) => Some(100_000),
        (Region::USEast, Region::SAEast) => Some(110_000),
        (Region::USWest, Region::SAEast) => Some(180_000),
        (Region::USEast, Region::AFSouth) => Some(210_000),
        (Region::USWest, Region::AFSouth) => Some(280_000),
        (Region::EUWest, Region::EUCentral) => Some(15_000),
        (Region::EUCentral, Region::EUWest) => Some(15_000),
        (Region::EUWest, Region::APSouth) => Some(120_000),
        (Region::EUWest, Region::APNortheast) => Some(220_000),
        (Region::EUCentral, Region::APSouth) => Some(110_000),
        (Region::EUCentral, Region::APNortheast) => Some(210_000),
        (Region::EUWest, Region::SAEast) => Some(180_000),
        (Region::EUCentral, Region::SAEast) => Some(190_000),
        (Region::EUWest, Region::AFSouth) => Some(160_000),
        (Region::EUCentral, Region::AFSouth) => Some(150_000),
        (Region::APSouth, Region::APNortheast) => Some(90_000),
        (Region::APNortheast, Region::APSouth) => Some(90_000),
        (Region::APSouth, Region::SAEast) => Some(310_000),
        (Region::APNortheast, Region::SAEast) => Some(280_000),
        (Region::APSouth, Region::AFSouth) => Some(140_000),
        (Region::APNortheast, Region::AFSouth) => Some(250_000),
        (Region::SAEast, Region::AFSouth) => Some(270_000),
        _ => None,
    }
}

/// Computes `region_index`.
fn index_of(r: Region) -> (i: usize)
    ensures
        i == region_index(r),
        i < 8,
{
    match r {
        Region::USEast => 0,
        Region::USWest => 1,
        Region::EUWest => 2,
        Region::EUCentral => 3,
        Region::APSouth => 4,
        Region::APNortheast => 5,
        Region::SAEast => 6,
        Region::AFSouth => 7,
    }
}

/// The table of latencies between all pairs of regions.
pub struct GeoLatencyMatrix {
    /// Row by row: the entry of (from, to) is at 8 * index(from) + index(to).
    matrix: Vec<u64>,
}

impl GeoLatencyMatrix {
    #[verifier::type_invariant]
    spec fn inv(self) -> bool {
        &&& self.matrix@.len() == 64
        &&& forall|a: Region, b: Region|
            self.matrix@[8 * region_index(a) + region_index(b)] == #[trigger] latency_us(a, b)
    }

    /// The entry of the table for the latency from one region to another,
    /// in microseconds.
    pub closed spec fn entry(&self, from: Region, to: Region) -> u64 {
        self.matrix@[8 * region_index(from) + region_index(to)]
    }

    /// All regions.
    pub fn all_regions() -> (regions: Vec<Region>)
        ensures
            regions@.len() == 8,
            forall|r: Region| #[trigger] regions@[region_index(r)] == r,
            forall|i: int| 0 <= i < 8 ==> region_index(#[trigger] regions@[i]) == i,
    {
        vec![
            Region::USEast,
            Region::USWest,
            Region::EUWest,
            Region::EUCentral,
            Region::APSouth,
            Region::APNortheast,
            Region::SAEast,
            Region::AFSouth,
        ]
    }

    /// The table of all latencies: its entry for each pair of regions is
    /// the latency between them.
    pub fn new() -> (m: Self)
        ensures
            forall|from: Region, to: Region| #[trigger] m.entry(from, to) == latency_us(from, to),
    {
        let regions: Vec<Region> = Self::all_regions();
        let mut matrix: Vec<u64> = Vec::new();
        let mut i: usize = 0;
        while i < 8
            invariant
                i <= 8,
                regions@.len() == 8,
                forall|r: Region| #[trigger] regions@[region_index(r)] == r,
                forall|i: int| 0 <= i < 8 ==> region_index(#[trigger] regions@[i]) == i,
                matrix@.len() == 8 * i,
                forall|a: Region, b: Region|
                    region_index(a) < i ==> matrix@[8 * region_index(a) + region_index(b)]
                        == #[trigger] latency_us(a, b),
            decreases 8 - i,
        {
            let from: Region = regions[i];
            let mut j: usize = 0;
            while j < 8
                invariant
                    i < 8,
                    j <= 8,
                    regions@.len() == 8,
                    forall|r: Region| #[trigger] regions@[region_index(r)] == r,
                    forall|i: int| 0 <= i < 8 ==> region_index(#[trigger] regions@[i]) == i,
                    from == regions@[i as int],
                    region_index(from) == i,
                    matrix@.len() == 8 * i + j,
                    forall|a: Region, b: Region|
                        region_index(a) < i ==> matrix@[8 * region_index(a) + region_index(b)]
                            == #[trigger] latency_us(a, b),
                    forall|b: Region|
                        region_index(b) < j ==> matrix@[8 * i + region_index(b)]
                            == #[trigger] latency_us(from, b),
                decreases 8 - j,
            {
                let to: Region = regions[j];
                let value: u64 = if from == to {
                    LOCAL_LATENCY_US
                } else {
                    match measured(from, to) {
                        Some(l) => l,
                        None => match measured(to, from) {
                            Some(l) => l,
                            None => DEFAULT_LATENCY_US,
                        },
                    }
                };
                matrix.push(value);
                j = j + 1;
            }
            i = i + 1;
        }
        let m = GeoLatencyMatrix { matrix };
        assert forall|from: Region, to: Region| #[trigger] m.entry(from, to) == latency_us(
            from,
            to,
        ) by {
            assert(m.matrix@[8 * region_index(from) + region_index(to)] == latency_us(from, to));
        }
        m
    }

    /// The latency from one region to another, in microseconds.
    pub fn get_latency_us(&self, from: Region, to: Region) -> (us: u64)
        ensures
            us == latency_us(from, to),
            us == self.entry(from, to),
    {
        proof {
            use_type_invariant(self);
        }
        self.matrix[8 * index_of(from) + index_of(to)]
    }

    /// The latency from one region to another, in whole milliseconds.
    pub fn get_latency_ms(&self, from: Region, to: Region) -> (ms: u64)
        ensures
            ms == latency_us(from, to) / 1000,
    {
        self.get_latency_us(from, to) / 1000
    }

    /// The sum of the latencies between every two validators of a set,
    /// each pair once, in microseconds, and the number of pairs. Their
    /// quotient is the average latency of the set.
    pub fn pair_latencies(&self, regions: &[Region]) -> (r: (u128, u128))
        requires
            regions@.len() <= u32::MAX,
        ensures
            r.0 == pair_latency_total(regions@),
            r.1 == pair_count(regions@.len()),
    {
        let mut total: u128 = 0;
        let mut count: u128 = 0;
        let mut j: usize = 0;
        proof {
            assert(regions@.take(0) =~= Seq::<Region>::empty());
        }
        while j < regions.len()
            invariant
                j <= regions.len(),
                regions@.len() <= u32::MAX,
                total == pair_latency_total(regions@.take(j as int)),
                count == pair_count(j as nat),
                count <= j * 0x1_0000_0000,
                total <= count * 310_000,
            decreases regions.len() - j,
        {
            let ghost before = regions@.take(j as int);
            let mut row: u128 = 0;
            let mut i: usize = 0;
            proof {
                assert(before.take(0) =~= Seq::<Region>::empty());
            }
            while i < j
                invariant
                    i <= j < regions.len(),
                    regions@.len() <= u32::MAX,
                    before == regions@.take(j as int),
                    row == latency_to(before.take(i as int), regions@[j as int]),
                    row <= 310_000 * i,
                decreases j - i,
            {
                proof {
                    assert(before.take(i + 1).drop_last() =~= before.take(i as int));
                    assert(before.take(i + 1).last() == regions@[i as int]);
                    lemma_latency_bounds(regions@[i as int], regions@[j as int]);
                }
                row = row + self.get_latency_us(regions[i], regions[j]) as u128;
                i = i + 1;
            }
            proof {
                assert(before.take(j as int) =~= before);
                assert(regions@.take(j + 1).drop_last() =~= before);
                assert(regions@.take(j + 1).last() == regions@[j as int]);
                assert((count + j) * 310_000 == count * 310_000 + j * 310_000) by (nonlinear_arith);
            }
            total = total + row;
            count = count + j as u128;
            j = j + 1;
        }
        proof {
            assert(regions@.take(j as int) =~= regions@);
        }
        (total, count)
    }

    /// The largest latency between two validators of a set, in whole
    /// milliseconds; 0 for the empty set.
    pub fn max_latency(&self, regions: &[Region]) -> (ms: u64)
        ensures
            regions@.len() == 0 ==> ms == 0,
            forall|i: int, j: int|
                0 <= i < regions@.len() && 0 <= j < regions@.len() ==> #[trigger] latency_us(
                    regions@[i],
                    regions@[j],
                ) / 1000 <= ms,
            regions@.len() > 0 ==> exists|i: int, j: int|
                0 <= i < regions@.len() && 0 <= j < regions@.len() && ms == #[trigger] latency_us(
                    regions@[i],
                    regions@[j],
                ) / 1000,
    {
        let mut max: u64 = 0;
        let mut i: usize = 0;
        while i < regions.len()
            invariant
                i <= regions.len(),
                forall|a: int, b: int|
                    0 <= a < i && 0 <= b < regions@.len() ==> #[trigger] latency_us(
                        regions@[a],
                        regions@[b],
                    ) <= max,
                i == 0 ==> max == 0,
                i > 0 ==> exists|a: int, b: int|
                    0 <= a < regions@.len() && 0 <= b < regions@.len() && max
                        == #[trigger] latency_us(regions@[a], regions@[b]),
            decreases regions.len() - i,
        {
            let mut j: usize = 0;
            while j < regions.len()
                invariant
                    i < regions.len(),
                    j <= regions.len(),
                    forall|a: int, b: int|
                        0 <= a < i && 0 <= b < regions@.len() ==> #[trigger] latency_us(
                            regions@[a],
                            regions@[b],
                        ) <= max,
                    forall|b: int|
                        0 <= b < j ==> #[trigger] latency_us(regions@[i as int], regions@[b]) <= max,
                    i == 0 && j == 0 ==> max == 0,
                    i > 0 || j > 0 ==> exists|a: int, b: int|
                        0 <= a < regions@.len() && 0 <= b < regions@.len() && max
                            == #[trigger] latency_us(regions@[a], regions@[b]),
                decreases regions.len() - j,
            {
                let l: u64 = self.get_latency_us(regions[i], regions[j]);
                if l > max {
                    max = l;
                }
                j = j + 1;
            }
            i = i + 1;
        }
        max / 1000
    }
}

} // verus!
