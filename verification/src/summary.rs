use vstd::prelude::*;

verus! {

/// The rows of the end-of-mission summary screen, in display order.
#[derive(Clone, Copy, Debug, PartialEq, Eq, Structural)]
pub enum SummaryUIType {
    GhostList,
    TimeTaken,
    GhostUnhaunted,
    RepellentUsed,
    AvgSanity,
    PlayersAlive,
    FinalScore,
}

} // verus!
