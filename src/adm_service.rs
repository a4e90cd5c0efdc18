use vstd::prelude::*;

use crate::adm_configuration::{critical_level, warning_level, AdmConfiguration, Importance};
use crate::esi::{AdmLevel, EsiID, SovereigntyStructure};

verus! {

/// Structure type of the territorial claim unit, whose occupancy level says
/// little; left out unless asked for.
pub const TCU_STRUCTURE_ID: EsiID = 32226;

/// How a system's occupancy level compares with its thresholds, with the
/// level itself.
#[derive(Debug, Clone, Copy, PartialEq, Eq, Structural)]
pub enum Status {
    Good(AdmLevel),
    Warning(AdmLevel),
    Critical(AdmLevel),
}

/// A system and its current status.
#[derive(Debug, Clone, Copy, PartialEq, Eq, Structural)]
pub struct SystemAdm {
    pub system_id: EsiID,
    pub status: Status,
}

/// The status of a level: critical at or below the critical threshold
/// (checked first), in warning at or below the warning threshold, good above.
pub open spec fn classify(adm: AdmLevel, warning_threshold: AdmLevel, critical_threshold: AdmLevel) -> Status {
    if adm <= critical_threshold {
        Status::Critical(adm)
    } else if adm <= warning_threshold {
        Status::Warning(adm)
    } else {
        Status::Good(adm)
    }
}

/// How severe a status is: good 0, warning 1, critical 2.
pub open spec fn severity(status: Status) -> nat {
    match status {
        Status::Good(_) => 0,
        Status::Warning(_) => 1,
        Status::Critical(_) => 2,
    }
}

/// Classifies an occupancy level against a pair of thresholds.
pub fn select_adm_status(adm: AdmLevel, warning_threshold: AdmLevel, critical_threshold: AdmLevel) -> (status: Status)
    ensures
        status == classify(adm, warning_threshold, critical_threshold),
{
    if adm <= critical_threshold {
        Status::Critical(adm)
    } else if adm <= warning_threshold {
        Status::Warning(adm)
    } else {
        Status::Good(adm)
    }
}

/// The status of a level in a system of the given importance.
pub open spec fn status_for(adm: AdmLevel, importance: Importance) -> Status {
    classify(adm, warning_level(importance), critical_level(importance))
}

/// Classifies an occupancy level with the thresholds of an importance.
pub fn system_status(adm: AdmLevel, importance: Importance) -> (status: Status)
    ensures
        status == status_for(adm, importance),
{
    select_adm_status(adm, importance.warning_threshold(), importance.critical_threshold())
}

/// A lower level is never classified less severely than a higher one, and a
/// level at or below the critical threshold is critical even where it is
/// also at or below the warning threshold.
pub proof fn lemma_classification_monotonic(
    lower: AdmLevel,
    higher: AdmLevel,
    warning_threshold: AdmLevel,
    critical_threshold: AdmLevel,
)
    requires
        lower <= higher,
    ensures
        severity(classify(lower, warning_threshold, critical_threshold)) >= severity(
            classify(higher, warning_threshold, critical_threshold),
        ),
        lower <= critical_threshold ==> classify(lower, warning_threshold, critical_threshold)
            == Status::Critical(lower),
{
}

/// Which structures of the data source count for an alliance's status.
pub struct AdmService {
    /// The alliance whose systems are watched.
    pub alliance_id: EsiID,
    /// Whether claim units count too.
    pub include_tcus: bool,
}

/// Whether a structure counts: it belongs to the watched alliance, it is not
/// a claim unit unless those are included, and it reports a level.
pub open spec fn monitored(service: AdmService, structure: SovereigntyStructure) -> bool {
    &&& structure.alliance_id == service.alliance_id
    &&& (service.include_tcus || structure.structure_type_id != TCU_STRUCTURE_ID)
    &&& structure.vulnerability_occupancy_level is Some
}

/// (system, level) of each structure that counts, in order.
pub open spec fn monitored_levels_of(service: AdmService, structures: Seq<SovereigntyStructure>) -> Seq<(EsiID, AdmLevel)>
    decreases structures.len(),
{
    if structures.len() == 0 {
        Seq::empty()
    } else {
        let rest = monitored_levels_of(service, structures.drop_last());
        let last = structures.last();
        if monitored(service, last) {
            rest.push((last.solar_system_id, last.vulnerability_occupancy_level->Some_0))
        } else {
            rest
        }
    }
}

/// The importance that applies to a system name: the one configured, `Green`
/// when none is.
pub open spec fn importance_in(configuration: Map<Seq<char>, Importance>, name: Seq<char>) -> Importance {
    if configuration.contains_key(name) {
        configuration[name]
    } else {
        Importance::Green
    }
}

/// The statuses of the first `n` systems whose name was resolved, in order;
/// a system whose name is missing is left out.
pub open spec fn statuses_of(
    levels: Seq<(EsiID, AdmLevel)>,
    names: Seq<Option<String>>,
    configuration: Map<Seq<char>, Importance>,
    n: int,
) -> Seq<SystemAdm>
    decreases n,
{
    if n <= 0 {
        Seq::empty()
    } else {
        let rest = statuses_of(levels, names, configuration, n - 1);
        match names[n - 1] {
            Some(name) => rest.push(
                SystemAdm {
                    system_id: levels[n - 1].0,
                    status: status_for(levels[n - 1].1, importance_in(configuration, name@)),
                },
            ),
            None => rest,
        }
    }
}

impl AdmService {
    pub fn new(alliance_id: EsiID, include_tcus: bool) -> (service: Self)
        ensures
            service.alliance_id == alliance_id,
            service.include_tcus == include_tcus,
    {
        AdmService { alliance_id, include_tcus }
    }

    /// Whether a structure counts for the alliance's status.
    pub fn is_monitored(&self, structure: &SovereigntyStructure) -> (counts: bool)
        ensures
            counts == monitored(*self, *structure),
    {
        structure.alliance_id == self.alliance_id && (self.include_tcus
            || structure.structure_type_id != TCU_STRUCTURE_ID)
            && structure.vulnerability_occupancy_level.is_some()
    }

    /// The (system, level) of each structure that counts, in the order given.
    pub fn monitored_levels(&self, structures: &Vec<SovereigntyStructure>) -> (levels: Vec<(EsiID, AdmLevel)>)
        ensures
            levels@ == monitored_levels_of(*self, structures@),
    {
        let mut levels: Vec<(EsiID, AdmLevel)> = Vec::new();
        let mut i: usize = 0;
        while i < structures.len()
            invariant
                i <= structures@.len(),
                levels@ == monitored_levels_of(*self, structures@.take(i as int)),
            decreases structures@.len() - i,
        {
            let structure = &structures[i];
            assert(structures@.take(i + 1).drop_last() == structures@.take(i as int));
            if self.is_monitored(structure) {
                match structure.vulnerability_occupancy_level {
                    Some(level) => levels.push((structure.solar_system_id, level)),
                    None => {},
                }
            }
            i = i + 1;
        }
        assert(structures@.take(structures@.len() as int) == structures@);
        levels
    }

    /// The status of each system that counts, from its level and the
    /// importance configured for its name; `names[i]` is the name of the
    /// system of `levels[i]`, `None` where it could not be resolved, and such
    /// a system is left out.
    pub fn get_adm_status(
        &self,
        levels: &Vec<(EsiID, AdmLevel)>,
        names: &Vec<Option<String>>,
        configuration: &AdmConfiguration,
    ) -> (systems: Vec<SystemAdm>)
        requires
            levels@.len() == names@.len(),
        ensures
            systems@ == statuses_of(levels@, names@, configuration@, levels@.len() as int),
    {
        let mut systems: Vec<SystemAdm> = Vec::new();
        let mut i: usize = 0;
        while i < levels.len()
            invariant
                i <= levels@.len() == names@.len(),
                systems@ == statuses_of(levels@, names@, configuration@, i as int),
            decreases levels@.len() - i,
        {
            match &names[i] {
                Some(name) => {
                    let importance = configuration.importance_or_default(name.as_str());
                    let status = system_status(levels[i].1, importance);
                    systems.push(SystemAdm { system_id: levels[i].0, status });
                },
                None => {},
            }
            i = i + 1;
        }
        systems
    }
}

} // verus!
