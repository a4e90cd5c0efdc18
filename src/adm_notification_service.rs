use std::collections::HashMap;
use vstd::prelude::*;

use crate::adm_service::{Status, SystemAdm};
use crate::esi::EsiID;

verus! {

broadcast use vstd::std_specs::hash::group_hash_axioms;

/// Whether a change from `previous` (`None`: nothing recorded) to `status`
/// is reported: good to warning, warning to critical, and a first record
/// that is in warning or critical. Every other change is silent, among them
/// critical to warning, warning to good and any status kept.
pub open spec fn notifies(status: Status, previous: Option<Status>) -> bool {
    match (status, previous) {
        (Status::Warning(_), Some(Status::Good(_))) => true,
        (Status::Critical(_), Some(Status::Warning(_))) => true,
        (Status::Warning(_), None) => true,
        (Status::Critical(_), None) => true,
        _ => false,
    }
}

/// Decides whether a change of status is reported.
pub fn should_notify(status: Status, previous: Option<Status>) -> (notify: bool)
    ensures
        notify == notifies(status, previous),
{
    match (status, previous) {
        (Status::Warning(_), Some(Status::Good(_))) => true,
        (Status::Critical(_), Some(Status::Warning(_))) => true,
        (Status::Warning(_), None) => true,
        (Status::Critical(_), None) => true,
        _ => false,
    }
}

/// The history after recording `systems` in order, each replacing the last
/// status of its system.
pub open spec fn history_after(history: Map<EsiID, Status>, systems: Seq<SystemAdm>) -> Map<
    EsiID,
    Status,
>
    decreases systems.len(),
{
    if systems.len() == 0 {
        history
    } else {
        history_after(history, systems.drop_last()).insert(
            systems.last().system_id,
            systems.last().status,
        )
    }
}

/// The systems whose change is reported when `systems` are recorded in
/// order, starting from `history`.
pub open spec fn notices(history: Map<EsiID, Status>, systems: Seq<SystemAdm>) -> Seq<SystemAdm>
    decreases systems.len(),
{
    if systems.len() == 0 {
        Seq::empty()
    } else {
        let before = history_after(history, systems.drop_last());
        let last = systems.last();
        let previous = if before.contains_key(last.system_id) {
            Some(before[last.system_id])
        } else {
            None
        };
        if notifies(last.status, previous) {
            notices(history, systems.drop_last()).push(last)
        } else {
            notices(history, systems.drop_last())
        }
    }
}

/// Remembers the last status of each system and picks the changes to report.
pub struct AdmNotificationService {
    history: HashMap<EsiID, Status>,
}

impl View for AdmNotificationService {
    type V = Map<EsiID, Status>;

    closed spec fn view(&self) -> Map<EsiID, Status> {
        self.history@
    }
}

impl AdmNotificationService {
    /// A notifier with no history.
    pub fn new() -> (service: Self)
        ensures
            service@ == Map::<EsiID, Status>::empty(),
    {
        AdmNotificationService { history: HashMap::new() }
    }

    /// The last status recorded for a system.
    pub fn previous_status(&self, system_id: EsiID) -> (previous: Option<Status>)
        ensures
            previous == if self@.contains_key(system_id) {
                Some(self@[system_id])
            } else {
                None::<Status>
            },
    {
        match self.history.get(&system_id) {
            Some(status) => Some(*status),
            None => None,
        }
    }

    /// Records the statuses in order, each replacing the last one of its
    /// system whether or not it is reported, and returns those whose change
    /// is reported, in order.
    pub fn send_adm_notifications(&mut self, systems: &Vec<SystemAdm>) -> (reported: Vec<SystemAdm>)
        ensures
            final(self)@ == history_after(old(self)@, systems@),
            reported@ == notices(old(self)@, systems@),
    {
        let ghost start = self@;
        let mut reported: Vec<SystemAdm> = Vec::new();
        let mut i: usize = 0;
        while i < systems.len()
            invariant
                i <= systems@.len(),
                start == old(self)@,
                self@ == history_after(start, systems@.take(i as int)),
                reported@ == notices(start, systems@.take(i as int)),
            decreases systems@.len() - i,
        {
            let system = systems[i];
            assert(systems@.take(i + 1).drop_last() == systems@.take(i as int));
            let previous = self.history.remove(&system.system_id);
            if should_notify(system.status, previous) {
                reported.push(system);
            }
            self.history.insert(system.system_id, system.status);
            proof {
                assert(self@ =~= history_after(start, systems@.take(i as int)).insert(
                    system.system_id,
                    system.status,
                ));
            }
            i = i + 1;
        }
        assert(systems@.take(systems@.len() as int) == systems@);
        reported
    }
}

} // verus!
