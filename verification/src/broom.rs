//! A broom that can be chopped into two brooms of half its height.

use vstd::prelude::*;

verus! {

/// What a broom is about to do.
#[derive(Copy, Clone, PartialEq, Eq, Debug, Structural)]
pub enum BroomIntent {
    FetchWater,
    DumpWater,
}

/// A broom. `P` is what says where it stands.
pub struct Broom<P> {
    pub name: String,
    pub height: u32,
    pub health: u32,
    pub position: P,
    pub intent: BroomIntent,
}

/// Chops a broom into two, each of half the height, rounded down. Both keep
/// the health, the position and the intent of the broom they come from; the
/// first has its name followed by `" I"`, the second by `" II"`.
pub fn chop<P: Copy>(b: Broom<P>) -> (halves: (Broom<P>, Broom<P>))
    ensures
        halves.0.name@ == b.name@ + " I"@,
        halves.1.name@ == b.name@ + " II"@,
        halves.0.height == b.height / 2,
        halves.1.height == b.height / 2,
        halves.0.health == b.health,
        halves.1.health == b.health,
        halves.0.position == b.position,
        halves.1.position == b.position,
        halves.0.intent == b.intent,
        halves.1.intent == b.intent,
{
    let mut broom1 = Broom { height: b.height / 2, ..b };
    let mut broom2 = Broom { name: broom1.name.clone(), ..broom1 };
    broom1.name.append(" I");
    broom2.name.append(" II");
    (broom1, broom2)
}

} // verus!
