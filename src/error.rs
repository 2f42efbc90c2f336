use vstd::prelude::*;

verus! {

/// Every way in which a request to the engine can be refused.
#[derive(Debug, PartialEq, Eq, Clone, Copy, Structural)]
pub enum SechsUndSechzigError {
    InvaildTeam,
    InvaildPlayer,
    InvaildBid,
    InvaildParty,
    SuitParseError,
    RankParseError,
    CardParseError,
    WrongStage,
    FullTable,
    CardNotInHand,
    CardCannotBePlayed,
}

pub type SusResult<T> = Result<T, SechsUndSechzigError>;

} // verus!
