use vstd::prelude::*;
use vstd::string::*;

use crate::esi::AdmLevel;

verus! {

/// How much a system matters; selects the occupancy thresholds below which
/// it is reported.
#[derive(Debug, Clone, Copy, PartialEq, Eq, Structural)]
pub enum Importance {
    Red,
    Yellow,
    Green,
}

/// The level at or below which a system of this importance is in warning.
pub open spec fn warning_level(importance: Importance) -> AdmLevel {
    match importance {
        Importance::Red => 4200,
        Importance::Yellow => 3200,
        Importance::Green => 1200,
    }
}

/// The level at or below which a system of this importance is critical.
pub open spec fn critical_level(importance: Importance) -> AdmLevel {
    match importance {
        Importance::Red => 4000,
        Importance::Yellow => 3000,
        Importance::Green => 1000,
    }
}

impl Importance {
    /// Warning threshold, in thousandths.
    pub fn warning_threshold(&self) -> (level: AdmLevel)
        ensures
            level == warning_level(*self),
            critical_level(*self) < level,
    {
        match self {
            Importance::Red => 4200,
            Importance::Yellow => 3200,
            Importance::Green => 1200,
        }
    }

    /// Critical threshold, in thousandths.
    pub fn critical_threshold(&self) -> (level: AdmLevel)
        ensures
            level == critical_level(*self),
            level < warning_level(*self),
    {
        match self {
            Importance::Red => 4000,
            Importance::Yellow => 3000,
            Importance::Green => 1000,
        }
    }

    /// How the importance is shown to administrators.
    pub fn label(&self) -> (text: &'static str)
        ensures
            text@ == match *self {
                Importance::Red => "Red (4.0 - 4.2)"@,
                Importance::Yellow => "Yellow (3.0 - 3.2)"@,
                Importance::Green => "Green (1.0 - 1.2)"@,
            },
    {
        match self {
            Importance::Red => "Red (4.0 - 4.2)",
            Importance::Yellow => "Yellow (3.0 - 3.2)",
            Importance::Green => "Green (1.0 - 1.2)",
        }
    }
}

/// The importance that an upper-case label names.
pub open spec fn importance_named(label: Seq<char>) -> Option<Importance> {
    if label == "RED"@ {
        Some(Importance::Red)
    } else if label == "YELLOW"@ {
        Some(Importance::Yellow)
    } else if label == "GREEN"@ {
        Some(Importance::Green)
    } else {
        None
    }
}

/// The upper-case form of a text, as `str::to_uppercase` gives it.
pub uninterp spec fn upper_of(text: Seq<char>) -> Seq<char>;

/// Relies on `str::to_uppercase`: its result depends on the characters alone.
#[verifier::external_body]
fn to_upper(text: &str) -> (upper: String)
    ensures
        upper@ == upper_of(text@),
{
    text.to_uppercase()
}

/// Whether two texts hold the same characters.
pub fn same_text(a: &str, b: &str) -> (same: bool)
    ensures
        same == (a@ == b@),
{
    let n = a.unicode_len();
    if n != b.unicode_len() {
        return false;
    }
    let mut i: usize = 0;
    while i < n
        invariant
            n == a@.len() == b@.len(),
            i <= n,
            forall|j: int| 0 <= j < i ==> a@[j] == b@[j],
        decreases n - i,
    {
        if a.get_char(i) != b.get_char(i) {
            return false;
        }
        i = i + 1;
    }
    assert(a@ =~= b@);
    true
}

/// The importance named by an upper-case label: `RED`, `YELLOW` or `GREEN`.
pub fn importance_from_label(label: &str) -> (importance: Option<Importance>)
    ensures
        importance == importance_named(label@),
{
    if same_text(label, "RED") {
        Some(Importance::Red)
    } else if same_text(label, "YELLOW") {
        Some(Importance::Yellow)
    } else if same_text(label, "GREEN") {
        Some(Importance::Green)
    } else {
        None
    }
}

/// The importance that an administrator typed, in any case.
pub fn parse_importance(input: &str) -> (importance: Option<Importance>)
    ensures
        importance == importance_named(upper_of(input@)),
{
    let upper = to_upper(input);
    importance_from_label(upper.as_str())
}

/// The key under which a system's importance is stored: its name in upper
/// case.
pub fn system_key(system_name: &str) -> (key: String)
    ensures
        key@ == upper_of(system_name@),
{
    to_upper(system_name)
}

/// Importance per system name.
pub struct AdmConfiguration {
    importance: Vec<(String, Importance)>,
}

/// The map that a list of (name, importance) entries describes, a later
/// entry overriding an earlier one with the same name.
pub open spec fn entries_map(entries: Seq<(String, Importance)>) -> Map<Seq<char>, Importance>
    decreases entries.len(),
{
    if entries.len() == 0 {
        Map::empty()
    } else {
        entries_map(entries.drop_last()).insert(entries.last().0@, entries.last().1)
    }
}

/// The map that entries with distinct names describe.
pub open spec fn entries_view(entries: Seq<(String, Importance)>) -> Map<Seq<char>, Importance> {
    Map::new(
        |k: Seq<char>| exists|i: int| 0 <= i < entries.len() && entries[i].0@ == k,
        |k: Seq<char>| entries[choose|i: int| 0 <= i < entries.len() && entries[i].0@ == k].1,
    )
}

/// No name appears twice among the entries.
pub open spec fn distinct_names(entries: Seq<(String, Importance)>) -> bool {
    forall|i: int, j: int|
        0 <= i < j < entries.len() ==> (#[trigger] entries[i]).0@ != (#[trigger] entries[j]).0@
}

impl View for AdmConfiguration {
    type V = Map<Seq<char>, Importance>;

    closed spec fn view(&self) -> Map<Seq<char>, Importance> {
        entries_view(self.importance@)
    }
}

impl AdmConfiguration {
    #[verifier::type_invariant]
    spec fn names_distinct(&self) -> bool {
        distinct_names(self.importance@)
    }

    /// An empty configuration.
    pub fn new() -> (configuration: Self)
        ensures
            configuration@ == Map::<Seq<char>, Importance>::empty(),
    {
        let configuration = AdmConfiguration { importance: Vec::new() };
        assert(configuration@ =~= Map::<Seq<char>, Importance>::empty());
        configuration
    }

    fn position_of(&self, system_name: &str) -> (position: Option<usize>)
        ensures
            match position {
                Some(i) => i < self.importance@.len() && self.importance@[i as int].0@
                    == system_name@,
                None => forall|i: int|
                    0 <= i < self.importance@.len() ==> self.importance@[i].0@ != system_name@,
            },
    {
        let mut i: usize = 0;
        while i < self.importance.len()
            invariant
                i <= self.importance@.len(),
                forall|j: int| 0 <= j < i ==> self.importance@[j].0@ != system_name@,
            decreases self.importance@.len() - i,
        {
            if same_text(self.importance[i].0.as_str(), system_name) {
                return Some(i);
            }
            i = i + 1;
        }
        None
    }

    /// Sets the importance of the system with this name, replacing any
    /// earlier setting.
    pub fn set_importance(&mut self, system_name: &str, importance: Importance)
        ensures
            final(self)@ == old(self)@.insert(system_name@, importance),
    {
        proof {
            use_type_invariant(&*self);
        }
        let position = self.position_of(system_name);
        let mut entries: Vec<(String, Importance)> = Vec::new();
        std::mem::swap(&mut entries, &mut self.importance);
        let ghost before = entries@;
        let entry = (String::from_str(system_name), importance);
        match position {
            Some(i) => {
                entries.set(i, entry);
                assert(distinct_names(entries@)) by {
                    assert forall|a: int, b: int| 0 <= a < b < entries@.len() implies (
                    #[trigger] entries@[a]).0@ != (#[trigger] entries@[b]).0@ by {
                        assert(before[a].0@ != before[b].0@);
                    }
                }
                assert(entries_view(entries@) =~= entries_view(before).insert(system_name@, importance)) by {
                    assert forall|k: Seq<char>| #[trigger] entries_view(entries@).contains_key(k) implies entries_view(entries@)[k]
                        == entries_view(before).insert(system_name@, importance)[k] by {
                        let j = choose|j: int|
                            0 <= j < entries@.len() && entries@[j].0@ == k;
                        if k != system_name@ {
                            let j0 = choose|j: int| 0 <= j < before.len() && before[j].0@ == k;
                            assert(before[j].0@ == k);
                            if j != j0 {
                                assert(before[j].0@ != before[j0].0@);
                            }
                        } else if j != i {
                            assert(before[j].0@ != before[i as int].0@);
                        }
                    }
                    assert forall|k: Seq<char>| #[trigger] entries_view(before).insert(system_name@, importance).contains_key(k) implies entries_view(entries@).contains_key(k) by {
                        if k == system_name@ {
                            assert(entries@[i as int].0@ == k);
                        } else {
                            let j0 = choose|j: int| 0 <= j < before.len() && before[j].0@ == k;
                            assert(entries@[j0].0@ == k);
                        }
                    }
                }
            },
            None => {
                entries.push(entry);
                assert(distinct_names(entries@)) by {
                    assert forall|a: int, b: int| 0 <= a < b < entries@.len() implies (
                    #[trigger] entries@[a]).0@ != (#[trigger] entries@[b]).0@ by {
                        if b < before.len() {
                            assert(before[a].0@ != before[b].0@);
                        }
                    }
                }
                assert(entries_view(entries@) =~= entries_view(before).insert(system_name@, importance)) by {
                    let n = before.len() as int;
                    assert forall|k: Seq<char>| #[trigger] entries_view(entries@).contains_key(k) implies entries_view(entries@)[k]
                        == entries_view(before).insert(system_name@, importance)[k] by {
                        let j = choose|j: int|
                            0 <= j < entries@.len() && entries@[j].0@ == k;
                        if k != system_name@ {
                            let j0 = choose|j: int| 0 <= j < before.len() && before[j].0@ == k;
                            assert(before[j].0@ == k);
                            assert(entries@[j0] == before[j0]);
                            if j != j0 {
                                assert(entries@[j].0@ != entries@[j0].0@);
                            }
                        } else {
                            assert(j == n);
                        }
                    }
                    assert forall|k: Seq<char>| #[trigger] entries_view(before).insert(system_name@, importance).contains_key(k) implies entries_view(entries@).contains_key(k) by {
                        if k == system_name@ {
                            assert(entries@[n].0@ == k);
                        } else {
                            let j0 = choose|j: int| 0 <= j < before.len() && before[j].0@ == k;
                            assert(entries@[j0].0@ == k);
                        }
                    }
                }
            },
        }
        self.importance = entries;
    }

    /// Applies an administrator's request: the importance label may be in
    /// any case, and the system name is stored in upper case. Returns the
    /// stored name and importance, or `None`, changing nothing, when the
    /// label names no importance.
    pub fn configure(&mut self, system_input: &str, importance_input: &str) -> (applied: Option<
        (String, Importance),
    >)
        ensures
            match importance_named(upper_of(importance_input@)) {
                Some(importance) => {
                    &&& applied is Some
                    &&& applied->Some_0.0@ == upper_of(system_input@)
                    &&& applied->Some_0.1 == importance
                    &&& final(self)@ == old(self)@.insert(upper_of(system_input@), importance)
                },
                None => applied is None && final(self)@ == old(self)@,
            },
    {
        match parse_importance(importance_input) {
            Some(importance) => {
                let key = system_key(system_input);
                self.set_importance(key.as_str(), importance);
                Some((key, importance))
            },
            None => None,
        }
    }

    /// The importance set for the system with this name, if any.
    pub fn get_importance(&self, system_name: &str) -> (importance: Option<Importance>)
        ensures
            importance == if self@.contains_key(system_name@) {
                Some(self@[system_name@])
            } else {
                None::<Importance>
            },
    {
        proof {
            use_type_invariant(self);
        }
        match self.position_of(system_name) {
            Some(i) => {
                proof {
                    let j = choose|j: int|
                        0 <= j < self.importance@.len() && self.importance@[j].0@ == system_name@;
                    if j != i {
                        assert(self.importance@[j].0@ != self.importance@[i as int].0@);
                    }
                }
                Some(self.importance[i].1)
            },
            None => None,
        }
    }

    /// The importance that selects a system's thresholds: the one set for it,
    /// `Green` when none is.
    pub fn importance_or_default(&self, system_name: &str) -> (importance: Importance)
        ensures
            importance == if self@.contains_key(system_name@) {
                self@[system_name@]
            } else {
                Importance::Green
            },
    {
        match self.get_importance(system_name) {
            Some(importance) => importance,
            None => Importance::Green,
        }
    }

    /// A configuration holding the given entries, a later entry overriding
    /// an earlier one with the same name.
    pub fn from_entries(entries: &Vec<(String, Importance)>) -> (configuration: Self)
        ensures
            configuration@ == entries_map(entries@),
    {
        let mut configuration = AdmConfiguration::new();
        let mut i: usize = 0;
        while i < entries.len()
            invariant
                i <= entries@.len(),
                configuration@ == entries_map(entries@.take(i as int)),
            decreases entries@.len() - i,
        {
            assert(entries@.take(i + 1).drop_last() == entries@.take(i as int));
            configuration.set_importance(entries[i].0.as_str(), entries[i].1);
            i = i + 1;
        }
        assert(entries@.take(entries@.len() as int) == entries@);
        configuration
    }

    /// The entries of the configuration, each name once.
    pub fn entries(&self) -> (entries: Vec<(String, Importance)>)
        ensures
            entries_map(entries@) == self@,
            forall|i: int, j: int|
                0 <= i < j < entries@.len() ==> (#[trigger] entries@[i]).0@ != (
                #[trigger] entries@[j]).0@,
    {
        proof {
            use_type_invariant(self);
        }
        let mut entries: Vec<(String, Importance)> = Vec::new();
        let mut i: usize = 0;
        while i < self.importance.len()
            invariant
                i <= self.importance@.len(),
                distinct_names(self.importance@),
                entries@.len() == i,
                forall|j: int| 0 <= j < i ==> #[trigger] entries@[j] == self.importance@[j],
            decreases self.importance@.len() - i,
        {
            let entry = (self.importance[i].0.clone(), self.importance[i].1);
            entries.push(entry);
            i = i + 1;
        }
        assert(entries@ == self.importance@);
        proof {
            lemma_entries_map_unique(entries@);
        }
        assert(entries_map(entries@) =~= self@);
        entries
    }
}

/// For entries with distinct names, the map they describe holds each name
/// with its entry's importance, and nothing else.
proof fn lemma_entries_map_unique(entries: Seq<(String, Importance)>)
    requires
        forall|i: int, j: int|
            0 <= i < j < entries.len() ==> (#[trigger] entries[i]).0@ != (#[trigger] entries[j]).0@,
    ensures
        forall|k: Seq<char>| #[trigger]
            entries_map(entries).contains_key(k) <==> exists|i: int|
                0 <= i < entries.len() && entries[i].0@ == k,
        forall|i: int|
            0 <= i < entries.len() ==> entries_map(entries)[#[trigger] entries[i].0@]
                == entries[i].1,
    decreases entries.len(),
{
    if entries.len() > 0 {
        let init = entries.drop_last();
        lemma_entries_map_unique(init);
        assert forall|k: Seq<char>| #[trigger]
            entries_map(entries).contains_key(k) <==> exists|i: int|
                0 <= i < entries.len() && entries[i].0@ == k by {
            if entries_map(init).contains_key(k) {
                let i = choose|i: int| 0 <= i < init.len() && init[i].0@ == k;
                assert(entries[i].0@ == k);
            }
            if exists|i: int| 0 <= i < entries.len() && entries[i].0@ == k {
                let i = choose|i: int| 0 <= i < entries.len() && entries[i].0@ == k;
                if i < init.len() {
                    assert(init[i].0@ == k);
                }
            }
        }
        assert forall|i: int|
            0 <= i < entries.len() implies entries_map(entries)[#[trigger] entries[i].0@]
                == entries[i].1 by {
            if i < init.len() {
                assert(init[i] == entries[i]);
                assert(entries[i].0@ != entries[entries.len() - 1].0@);
            }
        }
    }
}

} // verus!
