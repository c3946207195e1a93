use vstd::prelude::*;

verus! {

/// One 16-bit output of the linear-congruential generator.
pub type Rand = u16;

/// A 32-bit generator state.
pub type Seed = u32;

/// The seed the console starts the generator with.
pub type InitialSeed = Seed;

/// A personality identifier.
pub type Pid = u32;

/// An individual value, 0 to 31.
pub type IV = u8;

/// Three individual values drawn from one 16-bit output.
pub type IVGroup = [IV; 3];

/// The six individual values of one creature.
#[derive(Clone, Copy, Debug, PartialEq, Eq, Structural)]
pub struct IVs {
    pub hp: IV,
    pub attack: IV,
    pub defense: IV,
    pub speed: IV,
    pub sp_attack: IV,
    pub sp_defense: IV,
}

impl IVs {
    pub fn new(hp: IV, attack: IV, defense: IV, speed: IV, sp_attack: IV, sp_defense: IV) -> (r:
        Self)
        ensures
            r == (IVs { hp, attack, defense, speed, sp_attack, sp_defense }),
    {
        IVs { hp, attack, defense, speed, sp_attack, sp_defense }
    }
}

/// An inclusive range of individual values; empty when `start > end`.
#[derive(Clone, Copy, Debug, PartialEq, Eq, Structural)]
pub struct IVRange {
    pub start: IV,
    pub end: IV,
}

impl IVRange {
    pub open spec fn spec_contains(&self, v: IV) -> bool {
        self.start <= v <= self.end
    }

    /// The number of values in the range.
    pub open spec fn width(&self) -> int {
        if self.start <= self.end {
            self.end - self.start + 1
        } else {
            0
        }
    }

    pub fn new(start: IV, end: IV) -> (r: Self)
        ensures
            r == (IVRange { start, end }),
    {
        IVRange { start, end }
    }

    pub fn contains(&self, v: IV) -> (r: bool)
        ensures
            r == self.spec_contains(v),
    {
        self.start <= v && v <= self.end
    }
}

/// A range for each of the six individual values.
#[derive(Clone, Copy, Debug, PartialEq, Eq, Structural)]
pub struct IVRanges {
    pub hp: IVRange,
    pub attack: IVRange,
    pub defense: IVRange,
    pub speed: IVRange,
    pub sp_attack: IVRange,
    pub sp_defense: IVRange,
}

impl IVRanges {
    /// Every range stays within the values that five bits hold.
    pub open spec fn wf(&self) -> bool {
        &&& self.hp.start < 32 && self.hp.end < 32
        &&& self.attack.start < 32 && self.attack.end < 32
        &&& self.defense.start < 32 && self.defense.end < 32
        &&& self.speed.start < 32 && self.speed.end < 32
        &&& self.sp_attack.start < 32 && self.sp_attack.end < 32
        &&& self.sp_defense.start < 32 && self.sp_defense.end < 32
    }

    pub open spec fn spec_contains(&self, ivs: IVs) -> bool {
        &&& self.hp.spec_contains(ivs.hp)
        &&& self.attack.spec_contains(ivs.attack)
        &&& self.defense.spec_contains(ivs.defense)
        &&& self.speed.spec_contains(ivs.speed)
        &&& self.sp_attack.spec_contains(ivs.sp_attack)
        &&& self.sp_defense.spec_contains(ivs.sp_defense)
    }

    pub fn new(
        hp: IVRange,
        attack: IVRange,
        defense: IVRange,
        speed: IVRange,
        sp_attack: IVRange,
        sp_defense: IVRange,
    ) -> (r: Self)
        ensures
            r == (IVRanges { hp, attack, defense, speed, sp_attack, sp_defense }),
    {
        IVRanges { hp, attack, defense, speed, sp_attack, sp_defense }
    }

    pub fn contains(&self, ivs: &IVs) -> (r: bool)
        ensures
            r == self.spec_contains(*ivs),
    {
        self.hp.contains(ivs.hp) && self.attack.contains(ivs.attack) && self.defense.contains(
            ivs.defense,
        ) && self.speed.contains(ivs.speed) && self.sp_attack.contains(ivs.sp_attack)
            && self.sp_defense.contains(ivs.sp_defense)
    }
}

/// Everything that a creature's personality identifier and individual values determine.
#[derive(Clone, Copy, Debug, PartialEq, Eq, Structural)]
pub struct Status {
    pub ivs: IVs,
    pub gender: u8,
    pub nature: u8,
    pub ability: u8,
    pub shiny: bool,
    pub hidden_power_type: u8,
    pub hidden_power_power: u8,
    pub pid: Pid,
}

/// A creature's personality-derived traits and its six values.
#[derive(Clone, Copy, Debug, PartialEq, Eq, Structural)]
pub struct PokemonData {
    pub ability: u8,
    pub gender: u8,
    pub hidden_power_type: u8,
    pub hidden_power_power: u8,
    pub ivs: IVs,
    pub nature: u8,
    pub pid: Pid,
}

impl PokemonData {
    pub fn new(
        ability: u8,
        gender: u8,
        hidden_power_type: u8,
        hidden_power_power: u8,
        ivs: IVs,
        nature: u8,
        pid: Pid,
    ) -> (r: Self)
        ensures
            r == (PokemonData {
                ability,
                gender,
                hidden_power_type,
                hidden_power_power,
                ivs,
                nature,
                pid,
            }),
    {
        PokemonData { ability, gender, hidden_power_type, hidden_power_power, ivs, nature, pid }
    }
}

} // verus!
