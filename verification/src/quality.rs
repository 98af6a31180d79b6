use vstd::prelude::*;

verus! {

/// The most that one stage of matching adds to the quality of a prediction.
pub const STAGE_QUALITY_MAX: i32 = 50;

/// What a stage that matched at edit distance `distance` adds to the quality,
/// out of 50: `50 * (1 - distance / max_distance)` rounded to the nearest
/// integer, a half rounding up, and 0 once the distance reaches the limit.
pub open spec fn stage_quality(distance: nat, max_distance: nat) -> int {
    if distance >= max_distance {
        0
    } else {
        (100 * (max_distance - distance) + max_distance) / (2 * max_distance as int)
    }
}

/// A stage adds between 0 and 50 points.
pub proof fn lemma_stage_quality_bounds(distance: nat, max_distance: nat)
    ensures
        0 <= stage_quality(distance, max_distance) <= 50,
{
    if distance < max_distance {
        let m = max_distance as int;
        let d = distance as int;
        assert(0 <= (100 * (m - d) + m) / (2 * m) <= 50) by (nonlinear_arith)
            requires
                0 <= d < m,
        ;
    }
}

/// With the limit fixed, a greater distance never earns more points.
pub proof fn lemma_stage_quality_monotonic(near: nat, far: nat, max_distance: nat)
    requires
        near <= far,
    ensures
        stage_quality(far, max_distance) <= stage_quality(near, max_distance),
{
    lemma_stage_quality_bounds(near, max_distance);
    if far < max_distance {
        let m = max_distance as int;
        let x = 100 * (m - far) + m;
        let y = 100 * (m - near) + m;
        assert(x / (2 * m) <= y / (2 * m)) by (nonlinear_arith)
            requires
                0 <= x <= y,
                m > 0,
        ;
    }
}

/// Scores a stage that matched at `best_distance` under the limit
/// `max_distance`.
pub fn calculate_quality(best_distance: usize, max_distance: usize) -> (quality: i32)
    ensures
        quality == stage_quality(best_distance as nat, max_distance as nat),
        0 <= quality <= STAGE_QUALITY_MAX,
{
    proof {
        lemma_stage_quality_bounds(best_distance as nat, max_distance as nat);
    }
    if best_distance >= max_distance {
        0
    } else {
        let limit = max_distance as u128;
        let gap = (max_distance - best_distance) as u128;
        ((100 * gap + limit) / (2 * limit)) as i32
    }
}

} // verus!
