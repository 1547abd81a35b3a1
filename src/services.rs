use vstd::prelude::*;

verus! {

/// Reports the status of loading growth information.
pub struct StatusProcessService {}

/// Reads one unit of growth information from the store.
pub struct GrowthInformationService {}

/// Saves all growth information read from a file.
pub struct LoadGrowthInformationService {}

/// Updates one unit of growth information.
pub struct UpdateGrowthInformationService {}

/// Removes a country's growth information.
pub struct RemoveGrowthInformationService {}

} // verus!
