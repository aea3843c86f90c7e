//! When to attack, and how carefully to verify it.

use vstd::prelude::*;

use crate::risk::Urgency;

verus! {

/// Urgency of a chance: a gain worth having, and the sooner it passes the more
/// urgent.
pub open spec fn urgency_of(window_plies: u32, gain_cp: i32) -> Urgency {
    if gain_cp < 30 {
        Urgency::Low
    } else if window_plies <= 2 {
        if gain_cp >= 50 {
            Urgency::MustTry
        } else {
            Urgency::High
        }
    } else if window_plies <= 5 {
        Urgency::High
    } else if window_plies <= 10 {
        Urgency::Medium
    } else {
        Urgency::Low
    }
}

pub fn urgency_for(window_plies: u32, gain_cp: i32) -> (r: Urgency)
    ensures
        r == urgency_of(window_plies, gain_cp),
{
    if gain_cp < 30 {
        return Urgency::Low;
    }
    if window_plies <= 2 {
        if gain_cp >= 50 {
            Urgency::MustTry
        } else {
            Urgency::High
        }
    } else if window_plies <= 5 {
        Urgency::High
    } else if window_plies <= 10 {
        Urgency::Medium
    } else {
        Urgency::Low
    }
}

/// A shorter window and a larger gain never make a chance less urgent.
pub proof fn law_urgency_monotone(w1: u32, g1: i32, w2: u32, g2: i32)
    requires
        w1 <= w2,
        g1 >= g2,
    ensures
        urgency_of(w1, g1) as int >= urgency_of(w2, g2) as int,
{
}

/// Extra depth for verifying a chance.
pub open spec fn depth_of(urgency: Urgency) -> int {
    match urgency {
        Urgency::Low => 0,
        Urgency::Medium => 0,
        Urgency::High => 2,
        Urgency::MustTry => 3,
    }
}

pub fn verification_depth(urgency: Urgency) -> (r: u8)
    ensures
        r == depth_of(urgency),
{
    match urgency {
        Urgency::Low => 0,
        Urgency::Medium => 0,
        Urgency::High => 2,
        Urgency::MustTry => 3,
    }
}

/// Whether an attack leaves something lasting behind.
pub open spec fn lasting(king: bool, pawns: bool, gain_cp: int, permanent: bool) -> bool {
    king || pawns || permanent || gain_cp >= 25
}

/// Whether an attack leaves something lasting behind.
pub fn attack_creates_value(
    king_displacement: bool,
    pawn_weakness: bool,
    material_gain_cp: i32,
    permanent_weakness: bool,
) -> (r: bool)
    ensures
        r == lasting(
            king_displacement,
            pawn_weakness,
            material_gain_cp as int,
            permanent_weakness,
        ),
{
    king_displacement || pawn_weakness || permanent_weakness || material_gain_cp >= 25
}

/// How urgent a chance is: not at all below a gain of 30; the most urgent where
/// it passes within two plies and gains 50; high within five plies, medium
/// within ten.
pub proof fn law_urgency_by_window(window: u32, gain: i32)
    ensures
        urgency_of(window, gain) is MustTry <==> gain >= 50 && window <= 2,
        urgency_of(window, gain) is High <==> gain >= 30 && window <= 5 && !(gain >= 50 && window
            <= 2),
        urgency_of(window, gain) is Medium <==> gain >= 30 && 6 <= window <= 10,
        urgency_of(window, gain) is Low <==> gain < 30 || window > 10,
{
}

/// A more urgent chance is never verified less deeply, and only urgent ones are
/// verified.
pub proof fn law_urgent_chances_are_verified(a: Urgency, b: Urgency)
    requires
        a as int <= b as int,
    ensures
        depth_of(a) <= depth_of(b),
        depth_of(a) > 0 <==> a is High || a is MustTry,
        depth_of(Urgency::MustTry) == depth_of(Urgency::High) + 1,
        depth_of(Urgency::High) == 2,
{
}

/// Each lasting effect is enough, and without any of them a gain of 25 is
/// needed.
pub proof fn law_lasting_effects(king: bool, pawns: bool, gain: int, permanent: bool)
    ensures
        lasting(true, pawns, gain, permanent),
        lasting(king, true, gain, permanent),
        lasting(king, pawns, gain, true),
        lasting(false, false, gain, false) <==> gain >= 25,
{
}

} // verus!
