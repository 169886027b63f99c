use vstd::prelude::*;

verus! {

#[derive(Debug, Clone, Copy, PartialEq, Eq, Hash, Structural)]
pub enum OrderType {
    Market,
    GoodTillCancel,
    FillAndKill,
    FillOrKill,
    PostOnly,
}

} // verus!
