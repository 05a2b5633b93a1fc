use vstd::prelude::*;

verus! {

/// Side that owns a unit or a structure.
#[derive(Debug, Clone, Copy, PartialEq, Eq, Hash, Structural)]
pub enum Team {
    Player,
    Enemy,
    Neutral,
}

/// Kind of stock held by a side.
#[derive(Debug, Clone, Copy, PartialEq, Eq, Hash, Structural)]
pub enum ResourceType {
    General,
    Chassis,
    Cannon,
    Missile,
    Phasers,
    Electronics,
    Nuclear,
}

/// Locomotion of a robot.
#[derive(Debug, Clone, Copy, PartialEq, Eq, Hash, Structural)]
pub enum ChassisType {
    Wheels,
    Bipod,
    Tracks,
    AntiGrav,
}

/// Weapon mounted in a robot's slot.
#[derive(Debug, Clone, Copy, PartialEq, Eq, Hash, Structural)]
pub enum WeaponType {
    Cannon,
    Missile,
    Phasers,
}

/// What a factory produces.
#[derive(Debug, Clone, Copy, PartialEq, Eq, Hash, Structural)]
pub enum FactType {
    Chassis,
    Cannon,
    Missile,
    Phasers,
    Electronics,
    Nuclear,
}

} // verus!
