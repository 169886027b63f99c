//! Gateway boot configuration: which instruments to register at startup.

use crate::commands::InstrumentId;
use vstd::prelude::*;

verus! {

#[derive(Debug, Clone, PartialEq, Eq)]
pub struct GatewayConfig {
    pub instruments: Vec<InstrumentId>,
}

/// Why a loaded configuration is refused.
#[derive(Debug, Clone, Copy, PartialEq, Eq, Structural)]
pub enum ConfigProblem {
    /// The configuration registers no instruments.
    EmptyInstruments,
    /// Some instrument id is 0.
    InvalidInstrumentId,
}

impl GatewayConfig {
    /// The built-in development configuration: instrument 1 alone.
    pub fn default_dev() -> (r: Self)
        ensures
            r.instruments@ == seq![1u32],
    {
        let mut instruments: Vec<InstrumentId> = Vec::new();
        instruments.push(1);
        Self { instruments }
    }

    /// Accept a configuration that registers at least one instrument and no
    /// instrument 0.
    pub fn validate(self) -> (r: Result<Self, ConfigProblem>)
        ensures
            self.instruments@.len() == 0 ==> r == Err::<Self, ConfigProblem>(
                ConfigProblem::EmptyInstruments,
            ),
            self.instruments@.len() > 0 && self.instruments@.contains(0) ==> r == Err::<
                Self,
                ConfigProblem,
            >(ConfigProblem::InvalidInstrumentId),
            self.instruments@.len() > 0 && !self.instruments@.contains(0) ==> r is Ok
                && r->Ok_0.instruments@ == self.instruments@,
    {
        if self.instruments.len() == 0 {
            return Err(ConfigProblem::EmptyInstruments);
        }
        let mut i: usize = 0;
        while i < self.instruments.len()
            invariant
                0 <= i <= self.instruments.len(),
                forall|j: int| 0 <= j < i ==> self.instruments@[j] != 0,
            decreases self.instruments.len() - i,
        {
            if self.instruments[i] == 0 {
                return Err(ConfigProblem::InvalidInstrumentId);
            }
            i = i + 1;
        }
        Ok(self)
    }
}

} // verus!
