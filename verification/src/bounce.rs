//! The order of work on one ray.
//!
//! A ray that comes from the eye is first tried against the floor and the
//! spheres. Where it meets the floor and no sphere, that hit is the answer.
//! Otherwise the ray is deflected by each sphere in turn, all spheres once
//! per round for a fixed number of rounds, and what the deflected ray meets
//! is collected. A ray towards the light is never deflected.
//!
//! The caller does the geometry; this module says what comes next.

use vstd::prelude::*;
use vstd::arithmetic::div_mod::lemma_fundamental_div_mod_converse;

verus! {

/// How many times a ray from the eye goes round the spheres.
pub const BOUNCE_ROUNDS: u32 = 3;

/// What is to be done next with a ray.
#[derive(Debug, PartialEq, Eq, Structural, Clone, Copy)]
pub enum Stage {
    /// Answer with the floor hit of the ray as it first was.
    FloorOnly,
    /// Deflect the ray by the sphere at this index.
    Deflect { round: u32, sphere: usize },
    /// Collect what the ray, as it now is, meets on the floor and the spheres.
    Collect,
}

impl Stage {
    /// Whether the stage names a round and a sphere that exist.
    pub open spec fn valid(self, sphere_count: int) -> bool {
        self matches Stage::Deflect { round, sphere } ==> round < BOUNCE_ROUNDS && sphere
            < sphere_count
    }

    /// The number of deflections still to be made, this stage included.
    pub open spec fn deflections_left(self, sphere_count: int) -> int {
        match self {
            Stage::Deflect { round, sphere } => (BOUNCE_ROUNDS - round) * sphere_count - sphere,
            _ => 0,
        }
    }
}

/// The stage at which a ray starts.
pub open spec fn first_stage_of(
    with_mirroring: bool,
    floor_hit: bool,
    sphere_hit: bool,
    sphere_count: int,
) -> Stage {
    if with_mirroring && floor_hit && !sphere_hit {
        Stage::FloorOnly
    } else if with_mirroring && sphere_count > 0 {
        Stage::Deflect { round: 0, sphere: 0 }
    } else {
        Stage::Collect
    }
}

/// The stage that follows `stage`: the next sphere of the round, then the
/// first sphere of the next round, then the collecting. The two stages that
/// end the work are followed by themselves.
pub open spec fn next_stage_of(stage: Stage, sphere_count: int) -> Stage {
    match stage {
        Stage::Deflect { round, sphere } => if round < BOUNCE_ROUNDS && sphere + 1 < sphere_count {
            Stage::Deflect { round: round, sphere: (sphere + 1) as usize }
        } else if round + 1 < BOUNCE_ROUNDS && sphere_count > 0 {
            Stage::Deflect { round: (round + 1) as u32, sphere: 0 }
        } else {
            Stage::Collect
        },
        _ => stage,
    }
}

/// The stage reached after `done` deflections of a ray that is deflected at
/// all: round after round, and within a round sphere after sphere.
pub open spec fn stage_after(done: int, sphere_count: int) -> Stage {
    if 0 <= done < BOUNCE_ROUNDS * sphere_count {
        Stage::Deflect {
            round: (done / sphere_count) as u32,
            sphere: (done % sphere_count) as usize,
        }
    } else {
        Stage::Collect
    }
}

/// Decides where a ray starts, from whether it may be deflected and what it
/// met on the floor and on the spheres as it first was.
pub fn first_stage(with_mirroring: bool, floor_hit: bool, sphere_hit: bool, sphere_count: usize) -> (stage: Stage)
    ensures
        stage == first_stage_of(with_mirroring, floor_hit, sphere_hit, sphere_count as int),
        stage.valid(sphere_count as int),
{
    if with_mirroring && floor_hit && !sphere_hit {
        Stage::FloorOnly
    } else if with_mirroring && sphere_count > 0 {
        Stage::Deflect { round: 0, sphere: 0 }
    } else {
        Stage::Collect
    }
}

/// Decides what follows a stage.
pub fn next_stage(stage: Stage, sphere_count: usize) -> (next: Stage)
    ensures
        next == next_stage_of(stage, sphere_count as int),
        next.valid(sphere_count as int),
{
    match stage {
        Stage::Deflect { round, sphere } => {
            if round < BOUNCE_ROUNDS && sphere_count > 0 && sphere < sphere_count - 1 {
                Stage::Deflect { round: round, sphere: sphere + 1 }
            } else if sphere_count > 0 && round < BOUNCE_ROUNDS - 1 {
                Stage::Deflect { round: round + 1, sphere: 0 }
            } else {
                Stage::Collect
            }
        },
        Stage::FloorOnly => Stage::FloorOnly,
        Stage::Collect => Stage::Collect,
    }
}

/// The stages follow each other round after round, and within a round sphere
/// after sphere in the order of the scene: a ray that is deflected at all is
/// deflected `BOUNCE_ROUNDS` times by every sphere, and then collected.
pub proof fn lemma_stages_in_order(done: int, sphere_count: int)
    requires
        0 <= done,
        0 < sphere_count <= usize::MAX,
    ensures
        stage_after(0, sphere_count) == first_stage_of(true, false, false, sphere_count),
        stage_after(0, sphere_count) == first_stage_of(true, true, true, sphere_count),
        next_stage_of(stage_after(done, sphere_count), sphere_count) == stage_after(
            done + 1,
            sphere_count,
        ),
        stage_after(done, sphere_count).valid(sphere_count),
        stage_after(done, sphere_count).deflections_left(sphere_count) == if done < BOUNCE_ROUNDS
            * sphere_count {
            BOUNCE_ROUNDS * sphere_count - done
        } else {
            0
        },
{
    let total = BOUNCE_ROUNDS * sphere_count;
    assert(0int / sphere_count == 0 && 0int % sphere_count == 0) by {
        lemma_fundamental_div_mod_converse(0, sphere_count, 0, 0);
    }
    if done < total {
        let round = done / sphere_count;
        let sphere = done % sphere_count;
        assert(done == sphere_count * round + sphere && 0 <= sphere < sphere_count) by {
            vstd::arithmetic::div_mod::lemma_fundamental_div_mod(done, sphere_count);
            vstd::arithmetic::div_mod::lemma_mod_bound(done, sphere_count);
        }
        assert(0 <= round < BOUNCE_ROUNDS) by (nonlinear_arith)
            requires
                done == sphere_count * round + sphere,
                0 <= sphere < sphere_count,
                0 <= done < 3 * sphere_count,
        ;
        assert((BOUNCE_ROUNDS - round) * sphere_count - sphere == total - done)
            by (nonlinear_arith)
            requires
                done == sphere_count * round + sphere,
                total == 3 * sphere_count,
        ;
        if sphere + 1 < sphere_count {
            assert((done + 1) / sphere_count == round && (done + 1) % sphere_count == sphere + 1)
                by {
                assert(done + 1 == round * sphere_count + (sphere + 1)) by (nonlinear_arith)
                    requires
                        done == sphere_count * round + sphere,
                ;
                lemma_fundamental_div_mod_converse(done + 1, sphere_count, round, sphere + 1);
            }
            assert(done + 1 < total) by (nonlinear_arith)
                requires
                    done == sphere_count * round + sphere,
                    sphere + 1 < sphere_count,
                    round <= 2,
                    sphere_count > 0,
                    total == 3 * sphere_count,
            ;
        } else {
            assert(done + 1 == (round + 1) * sphere_count) by (nonlinear_arith)
                requires
                    done == sphere_count * round + sphere,
                    sphere + 1 == sphere_count,
            ;
            assert((done + 1) / sphere_count == round + 1 && (done + 1) % sphere_count == 0) by {
                lemma_fundamental_div_mod_converse(done + 1, sphere_count, round + 1, 0);
            }
            assert(done + 1 < total <==> round + 1 < BOUNCE_ROUNDS) by (nonlinear_arith)
                requires
                    done + 1 == (round + 1) * sphere_count,
                    total == 3 * sphere_count,
                    sphere_count > 0,
            ;
        }
    }
}

/// Each deflection leaves one fewer to be made, so the work on a ray ends.
pub proof fn lemma_deflections_run_out(stage: Stage, sphere_count: int)
    requires
        stage is Deflect,
        stage.valid(sphere_count),
        sphere_count <= usize::MAX,
    ensures
        stage.deflections_left(sphere_count) > 0,
        next_stage_of(stage, sphere_count).deflections_left(sphere_count)
            == stage.deflections_left(sphere_count) - 1,
        next_stage_of(stage, sphere_count).valid(sphere_count),
{
    let round = stage->round as int;
    let sphere = stage->sphere as int;
    let next = next_stage_of(stage, sphere_count);
    let rounds_left = BOUNCE_ROUNDS - round;
    assert(stage.deflections_left(sphere_count) == rounds_left * sphere_count - sphere);
    assert(rounds_left * sphere_count == (rounds_left - 1) * sphere_count + sphere_count)
        by (nonlinear_arith);
    assert((rounds_left - 1) * sphere_count >= 0) by (nonlinear_arith)
        requires
            rounds_left >= 1,
            sphere_count > 0,
    ;
    if sphere + 1 < sphere_count {
        assert(next.deflections_left(sphere_count) == rounds_left * sphere_count - (sphere + 1));
    } else if round + 1 < BOUNCE_ROUNDS {
        assert(next == (Stage::Deflect { round: (round + 1) as u32, sphere: 0 }));
        assert(next.deflections_left(sphere_count) == (rounds_left - 1) * sphere_count);
    } else {
        assert((rounds_left - 1) * sphere_count == 0) by (nonlinear_arith)
            requires
                rounds_left == 1,
        ;
    }
}

} // verus!
