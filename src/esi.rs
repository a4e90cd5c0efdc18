use vstd::prelude::*;

verus! {

/// Identifier that the data source assigns to an alliance, corporation,
/// solar system or structure.
pub type EsiID = u64;

/// An occupancy level (the data source reports it as a real number between
/// 0 and 6) in thousandths: 4.2 is held as 4200.
pub type AdmLevel = u32;

/// An alliance as the data source describes it.
#[derive(Debug, Clone, PartialEq, Eq)]
pub struct Alliance {
    pub creator_corporation_id: EsiID,
    pub creator_id: EsiID,
    pub date_founded: String,
    pub executor_corporation_id: Option<EsiID>,
    pub faction_id: Option<EsiID>,
    pub name: String,
    pub ticker: String,
}

/// A corporation as the data source describes it.
#[derive(Debug, Clone, PartialEq, Eq)]
pub struct Corporation {
    pub alliance_id: Option<EsiID>,
    pub ceo_id: EsiID,
    pub creator_id: EsiID,
    pub date_founded: Option<String>,
    pub description: Option<String>,
    pub faction_id: Option<EsiID>,
    pub home_station_id: Option<EsiID>,
    pub member_count: u64,
    pub name: String,
    pub shares: Option<u64>,
    /// Tax rate in thousandths (0.1 is held as 100).
    pub tax_rate: u32,
    pub ticker: String,
    pub url: Option<String>,
    pub war_eligible: Option<bool>,
}

/// A sovereignty structure: who holds it, where, and how well the system is
/// occupied.
#[derive(Debug, Clone, PartialEq, Eq)]
pub struct SovereigntyStructure {
    pub alliance_id: EsiID,
    pub solar_system_id: EsiID,
    pub structure_id: EsiID,
    pub structure_type_id: EsiID,
    pub vulnerability_occupancy_level: Option<AdmLevel>,
    pub vulnerable_end_time: Option<String>,
    pub vulnerable_start_time: Option<String>,
}

/// A solar system as the data source describes it.
#[derive(Debug, Clone, PartialEq, Eq)]
pub struct System {
    pub system_id: EsiID,
    pub constellation_id: EsiID,
    pub name: String,
    /// Security status in thousandths (-0.5 is held as -500).
    pub security_status: i32,
}

} // verus!
