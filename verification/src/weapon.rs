use vstd::prelude::*;

verus! {

/// The kinds of bladed weapon.
#[derive(Copy, Clone, PartialEq, Eq, Structural, Debug)]
pub enum BladedWeaponType {
    DAGGER,
    ARMING,
    LONG,
}

/// The display name of each kind of bladed weapon.
pub open spec fn bladed_name(t: BladedWeaponType) -> Seq<char> {
    match t {
        BladedWeaponType::DAGGER => "Dagger"@,
        BladedWeaponType::ARMING => "Arming Sword"@,
        BladedWeaponType::LONG => "Longsword"@,
    }
}

impl BladedWeaponType {
    pub fn name(&self) -> (r: String)
        ensures
            r@ == bladed_name(*self),
    {
        match self {
            BladedWeaponType::DAGGER => "Dagger".to_string(),
            BladedWeaponType::ARMING => "Arming Sword".to_string(),
            BladedWeaponType::LONG => "Longsword".to_string(),
        }
    }
}

} // verus!
