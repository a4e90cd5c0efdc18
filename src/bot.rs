use vstd::prelude::*;
use vstd::string::*;

use crate::adm_service::{Status, SystemAdm};
use crate::corporations_service::ServiceEvent;
use crate::esi::{AdmLevel, Corporation, EsiID};

verus! {

/// A message for the chat presentation layer.
#[derive(Debug, Clone, Copy, PartialEq, Eq, Structural)]
pub enum BotNotification {
    /// (alliance, corporation)
    NotifyCorpJoinAlliance(EsiID, EsiID),
    /// (alliance, corporation)
    NotifyCorpLeftAlliance(EsiID, EsiID),
    NotifyAdm(SystemAdm),
}

impl From<ServiceEvent> for BotNotification {
    fn from(event: ServiceEvent) -> (notification: BotNotification) {
        match event {
            ServiceEvent::JoinAlliance(a, c) => BotNotification::NotifyCorpJoinAlliance(a, c),
            ServiceEvent::LeftAlliance(a, c) => BotNotification::NotifyCorpLeftAlliance(a, c),
        }
    }
}

impl vstd::std_specs::convert::FromSpecImpl<ServiceEvent> for BotNotification {
    open spec fn obeys_from_spec() -> bool {
        true
    }

    open spec fn from_spec(event: ServiceEvent) -> BotNotification {
        match event {
            ServiceEvent::JoinAlliance(a, c) => BotNotification::NotifyCorpJoinAlliance(a, c),
            ServiceEvent::LeftAlliance(a, c) => BotNotification::NotifyCorpLeftAlliance(a, c),
        }
    }
}

/// Corporations with fewer members are not announced.
pub const MIN_ANNOUNCED_MEMBERS: u64 = 10;

/// Whether a corporation's join or departure is worth a message.
pub fn announces_corporation(corporation: &Corporation) -> (announce: bool)
    ensures
        announce == (corporation.member_count >= MIN_ANNOUNCED_MEMBERS),
{
    corporation.member_count >= MIN_ANNOUNCED_MEMBERS
}

/// A name with every space turned into an underscore.
pub open spec fn underscored(name: Seq<char>) -> Seq<char> {
    name.map_values(
        |c: char|
            if c == ' ' {
                '_'
            } else {
                c
            },
    )
}

/// Relies on `str::replace`: each space replaced by one underscore, every
/// other character kept.
#[verifier::external_body]
fn replace_spaces(name: &str) -> (replaced: String)
    ensures
        replaced@ == underscored(name@),
{
    name.replace(' ', "_")
}

/// The form of a name that map links use: spaces become underscores.
pub fn link_name(name: &str) -> (link: String)
    ensures
        link@ == underscored(name@),
{
    replace_spaces(name)
}

/// How an occupancy notice looks.
pub struct AdmNotice {
    /// Follows the system name in the title.
    pub headline: &'static str,
    pub footer: &'static str,
    /// Red, green, blue.
    pub color: (u8, u8, u8),
    pub level: AdmLevel,
}

/// The notice for a status: one for warning and one for critical, none for
/// good.
pub fn adm_notice(status: Status) -> (notice: Option<AdmNotice>)
    ensures
        notice is Some <==> !(status is Good),
        status is Warning ==> notice->Some_0.level == status->Warning_0 && notice->Some_0.color
            == (238u8, 210u8, 2u8) && notice->Some_0.headline@ == " ADM is deteriorated!"@
            && notice->Some_0.footer@ == "Please do some ratting or mining here."@,
        status is Critical ==> notice->Some_0.level == status->Critical_0 && notice->Some_0.color
            == (255u8, 103u8, 0u8) && notice->Some_0.headline@ == " ADM is critically low!"@
            && notice->Some_0.footer@ == "Do ratting or mining here ASAP!!!"@,
{
    match status {
        Status::Warning(level) => Some(
            AdmNotice {
                headline: " ADM is deteriorated!",
                footer: "Please do some ratting or mining here.",
                color: (238, 210, 2),
                level,
            },
        ),
        Status::Critical(level) => Some(
            AdmNotice {
                headline: " ADM is critically low!",
                footer: "Do ratting or mining here ASAP!!!",
                color: (255, 103, 0),
                level,
            },
        ),
        Status::Good(_) => None,
    }
}

/// The systems of the report whose status is critical (`critical`) or in
/// warning (otherwise), in order.
pub open spec fn systems_with(systems: Seq<SystemAdm>, critical: bool) -> Seq<EsiID>
    decreases systems.len(),
{
    if systems.len() == 0 {
        Seq::empty()
    } else {
        let rest = systems_with(systems.drop_last(), critical);
        let last = systems.last();
        if (critical && last.status is Critical) || (!critical && last.status is Warning) {
            rest.push(last.system_id)
        } else {
            rest
        }
    }
}

/// The systems of a status report that are critical, or that are in warning.
pub fn report_systems(systems: &Vec<SystemAdm>, critical: bool) -> (ids: Vec<EsiID>)
    ensures
        ids@ == systems_with(systems@, critical),
{
    let mut ids: Vec<EsiID> = Vec::new();
    let mut i: usize = 0;
    while i < systems.len()
        invariant
            i <= systems@.len(),
            ids@ == systems_with(systems@.take(i as int), critical),
        decreases systems@.len() - i,
    {
        assert(systems@.take(i + 1).drop_last() == systems@.take(i as int));
        let status = systems[i].status;
        let wanted = match status {
            Status::Critical(_) => critical,
            Status::Warning(_) => !critical,
            Status::Good(_) => false,
        };
        if wanted {
            ids.push(systems[i].system_id);
        }
        i = i + 1;
    }
    assert(systems@.take(systems@.len() as int) == systems@);
    ids
}

/// Names separated by a comma and a space.
pub open spec fn joined(names: Seq<String>) -> Seq<char>
    decreases names.len(),
{
    if names.len() == 0 {
        Seq::empty()
    } else if names.len() == 1 {
        names[0]@
    } else {
        joined(names.drop_last()) + ", "@ + names.last()@
    }
}

/// The names of a report line, `None` when there are none.
pub fn join_names(names: &Vec<String>) -> (line: Option<String>)
    ensures
        names@.len() == 0 <==> line is None,
        line is Some ==> line->Some_0@ == joined(names@),
{
    if names.len() == 0 {
        return None;
    }
    let mut line = names[0].clone();
    let mut i: usize = 1;
    while i < names.len()
        invariant
            1 <= i <= names@.len(),
            line@ == joined(names@.take(i as int)),
        decreases names@.len() - i,
    {
        assert(names@.take(i + 1).drop_last() == names@.take(i as int));
        line.append(", ");
        line.append(names[i].as_str());
        i = i + 1;
    }
    assert(names@.take(names@.len() as int) == names@);
    Some(line)
}

} // verus!
