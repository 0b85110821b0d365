use vstd::prelude::*;
use crate::api::errors::{agrees, ApiAvroErrorCode, ApiError};
use crate::db::laws::lemma_settings_sound;
use crate::db::models::schemas::clone_text;
use crate::db::models::subjects::{subject_named, Subject};
use crate::db::query::{first_match, first_match_from, inner_view};
use crate::db::store::{Store, StoreView};
use crate::text::same_text;

verus! {

/// A compatibility setting: the global default where `subject_id` is empty,
/// the override of one subject otherwise.
#[derive(Debug)]
pub struct Config {
    pub id: i64,
    pub compatibility: Option<String>,
    pub created_at: i64,
    pub updated_at: i64,
    pub subject_id: Option<i64>,
}

pub struct ConfigView {
    pub id: i64,
    pub compatibility: Option<Seq<char>>,
    pub created_at: i64,
    pub updated_at: i64,
    pub subject_id: Option<i64>,
}

impl View for Config {
    type V = ConfigView;

    open spec fn view(&self) -> ConfigView {
        ConfigView {
            id: self.id,
            compatibility: inner_view(self.compatibility),
            created_at: self.created_at,
            updated_at: self.updated_at,
            subject_id: self.subject_id,
        }
    }
}

impl Clone for Config {
    fn clone(&self) -> (copy: Self)
        ensures
            copy == *self,
    {
        Config {
            id: self.id,
            compatibility: clone_text(&self.compatibility),
            created_at: self.created_at,
            updated_at: self.updated_at,
            subject_id: self.subject_id,
        }
    }
}

/// The policy that decides whether a new schema may follow earlier ones.
#[derive(Debug, Clone, Copy, PartialEq, Eq, Structural)]
pub enum CompatibilityLevel {
    Backward,
    BackwardTransitive,
    Forward,
    ForwardTransitive,
    Full,
    FullTransitive,
    CompatNone,
    /// Stands for any value that is none of the others. It has no name and
    /// is never stored.
    Unknown,
}

/// Which earlier schemas a new schema is compared with.
#[derive(Debug, Clone, Copy, PartialEq, Eq, Structural)]
pub enum CompareAgainst {
    Latest,
    AllPriorVersions,
}

/// What a level asks for: which earlier schemas to compare with, and in
/// which directions. Backward: the new schema reads what the earlier one
/// wrote. Forward: the earlier schema reads what the new one writes.
#[derive(Debug, Clone, Copy, PartialEq, Eq, Structural)]
pub struct ComparisonPlan {
    pub against: CompareAgainst,
    pub backward: bool,
    pub forward: bool,
}

impl ComparisonPlan {
    /// Whether the plan is content with what the two readings gave:
    /// `reads_old` says that the new schema reads the old one's data,
    /// `read_by_old` that the old schema reads the new one's. A direction
    /// that the plan does not look in does not count.
    pub open spec fn content_with(self, reads_old: bool, read_by_old: bool) -> bool {
        (self.backward ==> reads_old) && (self.forward ==> read_by_old)
    }

    pub fn settle(&self, reads_old: bool, read_by_old: bool) -> (content: bool)
        ensures
            content == self.content_with(reads_old, read_by_old),
    {
        (!self.backward || reads_old) && (!self.forward || read_by_old)
    }
}

impl CompatibilityLevel {
    /// The plan of the level; `Unknown` has none.
    pub open spec fn plan_of(self) -> Option<ComparisonPlan> {
        match self {
            CompatibilityLevel::Backward => Some(
                ComparisonPlan { against: CompareAgainst::Latest, backward: true, forward: false },
            ),
            CompatibilityLevel::BackwardTransitive => Some(
                ComparisonPlan {
                    against: CompareAgainst::AllPriorVersions,
                    backward: true,
                    forward: false,
                },
            ),
            CompatibilityLevel::Forward => Some(
                ComparisonPlan { against: CompareAgainst::Latest, backward: false, forward: true },
            ),
            CompatibilityLevel::ForwardTransitive => Some(
                ComparisonPlan {
                    against: CompareAgainst::AllPriorVersions,
                    backward: false,
                    forward: true,
                },
            ),
            CompatibilityLevel::Full => Some(
                ComparisonPlan { against: CompareAgainst::Latest, backward: true, forward: true },
            ),
            CompatibilityLevel::FullTransitive => Some(
                ComparisonPlan {
                    against: CompareAgainst::AllPriorVersions,
                    backward: true,
                    forward: true,
                },
            ),
            CompatibilityLevel::CompatNone => Some(
                ComparisonPlan { against: CompareAgainst::Latest, backward: false, forward: false },
            ),
            CompatibilityLevel::Unknown => None,
        }
    }

    pub fn plan(&self) -> (plan: Option<ComparisonPlan>)
        ensures
            plan == self.plan_of(),
    {
        let (against, backward, forward) = match self {
            CompatibilityLevel::Backward => (CompareAgainst::Latest, true, false),
            CompatibilityLevel::BackwardTransitive => (CompareAgainst::AllPriorVersions, true, false),
            CompatibilityLevel::Forward => (CompareAgainst::Latest, false, true),
            CompatibilityLevel::ForwardTransitive => (CompareAgainst::AllPriorVersions, false, true),
            CompatibilityLevel::Full => (CompareAgainst::Latest, true, true),
            CompatibilityLevel::FullTransitive => (CompareAgainst::AllPriorVersions, true, true),
            CompatibilityLevel::CompatNone => (CompareAgainst::Latest, false, false),
            CompatibilityLevel::Unknown => {
                return None;
            },
        };
        Some(ComparisonPlan { against, backward, forward })
    }

    /// The name of the level; `Unknown` has the empty one.
    pub open spec fn text(self) -> Seq<char> {
        match self {
            CompatibilityLevel::Backward => "BACKWARD"@,
            CompatibilityLevel::BackwardTransitive => "BACKWARD_TRANSITIVE"@,
            CompatibilityLevel::Forward => "FORWARD"@,
            CompatibilityLevel::ForwardTransitive => "FORWARD_TRANSITIVE"@,
            CompatibilityLevel::Full => "FULL"@,
            CompatibilityLevel::FullTransitive => "FULL_TRANSITIVE"@,
            CompatibilityLevel::CompatNone => "NONE"@,
            CompatibilityLevel::Unknown => ""@,
        }
    }

    /// The level that a name stands for, if it is the name of one.
    pub open spec fn named(text: Seq<char>) -> Option<CompatibilityLevel> {
        if text == "BACKWARD"@ {
            Some(CompatibilityLevel::Backward)
        } else if text == "BACKWARD_TRANSITIVE"@ {
            Some(CompatibilityLevel::BackwardTransitive)
        } else if text == "FORWARD"@ {
            Some(CompatibilityLevel::Forward)
        } else if text == "FORWARD_TRANSITIVE"@ {
            Some(CompatibilityLevel::ForwardTransitive)
        } else if text == "FULL"@ {
            Some(CompatibilityLevel::Full)
        } else if text == "FULL_TRANSITIVE"@ {
            Some(CompatibilityLevel::FullTransitive)
        } else if text == "NONE"@ {
            Some(CompatibilityLevel::CompatNone)
        } else {
            None
        }
    }

    /// Every level but `Unknown` is the one that its own name stands for, and
    /// no name stands for `Unknown`.
    pub proof fn lemma_round_trip(self)
        ensures
            Self::named(self.text()) == if self == CompatibilityLevel::Unknown {
                None
            } else {
                Some(self)
            },
            forall|text: Seq<char>| Self::named(text) != Some(CompatibilityLevel::Unknown),
            forall|text: Seq<char>| (#[trigger] Self::named(text)) matches Some(level) ==> level.text() == text,
    {
        reveal_strlit("BACKWARD");
        reveal_strlit("BACKWARD_TRANSITIVE");
        reveal_strlit("FORWARD");
        reveal_strlit("FORWARD_TRANSITIVE");
        reveal_strlit("FULL");
        reveal_strlit("FULL_TRANSITIVE");
        reveal_strlit("NONE");
        reveal_strlit("");
        assert("BACKWARD"@.len() == 8);
        assert("BACKWARD_TRANSITIVE"@.len() == 19);
        assert("FORWARD"@.len() == 7);
        assert("FORWARD_TRANSITIVE"@.len() == 18);
        assert("FULL"@.len() == 4);
        assert("FULL_TRANSITIVE"@.len() == 15);
        assert("NONE"@.len() == 4);
        assert(""@.len() == 0);
        assert("FULL"@[0] == 'F');
        assert("NONE"@[0] == 'N');
    }

    pub fn as_str(&self) -> (name: &'static str)
        ensures
            name@ == self.text(),
    {
        match self {
            CompatibilityLevel::Backward => "BACKWARD",
            CompatibilityLevel::BackwardTransitive => "BACKWARD_TRANSITIVE",
            CompatibilityLevel::Forward => "FORWARD",
            CompatibilityLevel::ForwardTransitive => "FORWARD_TRANSITIVE",
            CompatibilityLevel::Full => "FULL",
            CompatibilityLevel::FullTransitive => "FULL_TRANSITIVE",
            CompatibilityLevel::CompatNone => "NONE",
            CompatibilityLevel::Unknown => "",
        }
    }

    pub fn to_string(&self) -> (name: String)
        ensures
            name@ == self.text(),
    {
        self.as_str().to_owned()
    }

    pub fn from_str(s: &str) -> (level: Result<CompatibilityLevel, ()>)
        ensures
            level == match Self::named(s@) {
                Some(l) => Ok::<CompatibilityLevel, ()>(l),
                None => Err(()),
            },
    {
        if same_text(s, "BACKWARD") {
            Ok(CompatibilityLevel::Backward)
        } else if same_text(s, "BACKWARD_TRANSITIVE") {
            Ok(CompatibilityLevel::BackwardTransitive)
        } else if same_text(s, "FORWARD") {
            Ok(CompatibilityLevel::Forward)
        } else if same_text(s, "FORWARD_TRANSITIVE") {
            Ok(CompatibilityLevel::ForwardTransitive)
        } else if same_text(s, "FULL") {
            Ok(CompatibilityLevel::Full)
        } else if same_text(s, "FULL_TRANSITIVE") {
            Ok(CompatibilityLevel::FullTransitive)
        } else if same_text(s, "NONE") {
            Ok(CompatibilityLevel::CompatNone)
        } else {
            Err(())
        }
    }

    /// Returns the level itself where it has a name that stands for it, and
    /// `InvalidCompatibilityLevel` for `Unknown`.
    pub fn valid(self) -> (checked: Result<CompatibilityLevel, ApiError>)
        ensures
            self != CompatibilityLevel::Unknown ==> checked == Ok::<CompatibilityLevel, ApiError>(self),
            self == CompatibilityLevel::Unknown ==> (checked matches Err(e) && e.stands_for(
                ApiAvroErrorCode::InvalidCompatibilityLevel,
            )),
    {
        proof {
            self.lemma_round_trip();
        }
        match ConfigCompatibility::new(self.to_string()) {
            Ok(_) => Ok(self),
            Err(e) => Err(e),
        }
    }
}

#[derive(Debug, Clone, Copy, PartialEq, Eq, Structural)]
pub struct ConfigCompatibility {
    pub compatibility: CompatibilityLevel,
}

impl View for ConfigCompatibility {
    type V = ConfigCompatibility;

    open spec fn view(&self) -> ConfigCompatibility {
        *self
    }
}

/// The reply that carries the level of the given name.
pub open spec fn compatibility_named(level: Seq<char>) -> Result<ConfigCompatibility, ApiAvroErrorCode> {
    match CompatibilityLevel::named(level) {
        Some(l) => Ok(ConfigCompatibility { compatibility: l }),
        None => Err(ApiAvroErrorCode::InvalidCompatibilityLevel),
    }
}

impl ConfigCompatibility {
    pub fn new(level: String) -> (made: Result<ConfigCompatibility, ApiError>)
        ensures
            agrees(made, compatibility_named(level@)),
    {
        match CompatibilityLevel::from_str(level.as_str()) {
            Ok(l) => Ok(ConfigCompatibility { compatibility: l }),
            Err(_) => Err(ApiError::new(ApiAvroErrorCode::InvalidCompatibilityLevel)),
        }
    }
}

pub type SetConfig = ConfigCompatibility;

pub struct GetSubjectConfig {
    pub subject: String,
}

pub struct SetSubjectConfig {
    pub subject: String,
    pub compatibility: CompatibilityLevel,
}

/// The rows with the given identifier.
pub open spec fn config_has_id(id: i64) -> spec_fn(ConfigView) -> bool {
    |row: ConfigView| row.id == id
}

/// The rows that override the level of the given subject.
pub open spec fn overrides(subject_id: i64) -> spec_fn(ConfigView) -> bool {
    |row: ConfigView| row.subject_id == Some(subject_id)
}

/// The level that a row sets. A row without one is a fault of the datastore.
pub open spec fn level_of(row: ConfigView) -> Result<Seq<char>, ApiAvroErrorCode> {
    match row.compatibility {
        Some(level) => Ok(level),
        None => Err(ApiAvroErrorCode::BackendDatastoreError),
    }
}

/// The row of the global default: identifier 0 and no subject.
pub open spec fn global_row(s: StoreView, level: Seq<char>) -> ConfigView {
    ConfigView {
        id: 0,
        compatibility: Some(level),
        created_at: s.clock,
        updated_at: s.clock,
        subject_id: None,
    }
}

/// The row of a new override for the given subject.
pub open spec fn override_row(s: StoreView, subject_id: i64, level: Seq<char>) -> ConfigView {
    ConfigView {
        id: s.next_config_id,
        compatibility: Some(level),
        created_at: s.clock,
        updated_at: s.clock,
        subject_id: Some(subject_id),
    }
}

/// The table with the level of row `i` replaced.
pub open spec fn with_level(configs: Seq<ConfigView>, i: int, level: Seq<char>) -> Seq<ConfigView> {
    configs.update(i, ConfigView { compatibility: Some(level), ..configs[i] })
}

/// Inserts the global default row, which fails where a row with identifier 0
/// is already there.
pub open spec fn global_inserted(s: StoreView, level: Seq<char>) -> (StoreView, Result<usize, ApiAvroErrorCode>) {
    match first_match(s.configs, config_has_id(0)) {
        Some(_) => (s, Err(ApiAvroErrorCode::BackendDatastoreError)),
        None => (StoreView { configs: s.configs.push(global_row(s, level)), ..s }, Ok(1usize)),
    }
}

/// Reading the global level: the level of the row with identifier 0; where
/// there is no such row, it is inserted with the default level, which is
/// returned.
pub open spec fn global_read(s: StoreView) -> (StoreView, Result<Seq<char>, ApiAvroErrorCode>) {
    match first_match(s.configs, config_has_id(0)) {
        Some(i) => (s, level_of(s.configs[i])),
        None => (
            StoreView {
                configs: s.configs.push(global_row(s, CompatibilityLevel::Backward.text())),
                ..s
            },
            Ok(CompatibilityLevel::Backward.text()),
        ),
    }
}

/// The global level as `global_read` returns it, without the insertion.
pub open spec fn global_level(s: StoreView) -> Result<Seq<char>, ApiAvroErrorCode> {
    global_read(s).1
}

/// Writing the global level: a name that stands for no level is refused;
/// otherwise the row with identifier 0 gets the level, or is inserted with it.
pub open spec fn global_written(s: StoreView, level: Seq<char>) -> (StoreView, Result<Seq<char>, ApiAvroErrorCode>) {
    if CompatibilityLevel::named(level).is_none() {
        (s, Err(ApiAvroErrorCode::InvalidCompatibilityLevel))
    } else {
        match first_match(s.configs, config_has_id(0)) {
            Some(i) => (StoreView { configs: with_level(s.configs, i, level), ..s }, Ok(level)),
            None => (StoreView { configs: s.configs.push(global_row(s, level)), ..s }, Ok(level)),
        }
    }
}

/// The override of the named subject. There is no fallback to the global
/// level here: a subject without an override is a fault of the datastore.
pub open spec fn override_read(s: StoreView, name: Seq<char>) -> Result<Seq<char>, ApiAvroErrorCode> {
    match subject_named(s, name) {
        Err(code) => Err(code),
        Ok(subject) => match first_match(s.configs, overrides(subject.id)) {
            Some(i) => level_of(s.configs[i]),
            None => Err(ApiAvroErrorCode::BackendDatastoreError),
        },
    }
}

/// The level in force for the named subject: its override where it has one,
/// the global level otherwise.
pub open spec fn effective_level(s: StoreView, name: Seq<char>) -> Result<Seq<char>, ApiAvroErrorCode> {
    match subject_named(s, name) {
        Err(code) => Err(code),
        Ok(subject) => match first_match(s.configs, overrides(subject.id)) {
            Some(i) => level_of(s.configs[i]),
            None => global_level(s),
        },
    }
}

/// Writing the override of the named subject: a name that stands for no
/// level is refused before the store is looked at; then the subject must
/// exist; its override gets the level, or is inserted with it.
pub open spec fn override_written(s: StoreView, name: Seq<char>, level: Seq<char>) -> (StoreView, Result<Seq<char>, ApiAvroErrorCode>) {
    if CompatibilityLevel::named(level).is_none() {
        (s, Err(ApiAvroErrorCode::InvalidCompatibilityLevel))
    } else {
        match subject_named(s, name) {
            Err(code) => (s, Err(code)),
            Ok(subject) => match first_match(s.configs, overrides(subject.id)) {
                Some(i) => (StoreView { configs: with_level(s.configs, i, level), ..s }, Ok(level)),
                None => if s.next_config_id == i64::MAX {
                    (s, Err(ApiAvroErrorCode::BackendDatastoreError))
                } else {
                    (
                        StoreView {
                            configs: s.configs.push(override_row(s, subject.id, level)),
                            next_config_id: (s.next_config_id + 1) as i64,
                            ..s
                        },
                        Ok(level),
                    )
                },
            },
        }
    }
}

impl Config {
    /// The level that a store without a global row is taken to have.
    pub const DEFAULT_COMPATIBILITY: CompatibilityLevel = CompatibilityLevel::Backward;

    /// Index of the row with identifier 0.
    fn global_index(store: &Store) -> (at: Option<usize>)
        ensures
            match at {
                Some(i) => i < store.configs.len() && first_match(
                    store@.configs,
                    config_has_id(0),
                ) == Some(i as int),
                None => first_match(store@.configs, config_has_id(0)).is_none(),
            },
    {
        let mut i: usize = 0;
        while i < store.configs.len()
            invariant
                i <= store.configs.len(),
                first_match(store@.configs, config_has_id(0)) == first_match_from(
                    store@.configs,
                    config_has_id(0),
                    i as int,
                ),
            decreases store.configs.len() - i,
        {
            if store.configs[i].id == 0 {
                return Some(i);
            }
            i += 1;
        }
        None
    }

    /// Index of the override of the given subject.
    fn override_index(store: &Store, subject_id: i64) -> (at: Option<usize>)
        ensures
            match at {
                Some(i) => i < store.configs.len() && first_match(
                    store@.configs,
                    overrides(subject_id),
                ) == Some(i as int),
                None => first_match(store@.configs, overrides(subject_id)).is_none(),
            },
    {
        let mut i: usize = 0;
        while i < store.configs.len()
            invariant
                i <= store.configs.len(),
                first_match(store@.configs, overrides(subject_id)) == first_match_from(
                    store@.configs,
                    overrides(subject_id),
                    i as int,
                ),
            decreases store.configs.len() - i,
        {
            let hit = match store.configs[i].subject_id {
                Some(id) => id == subject_id,
                None => false,
            };
            if hit {
                return Some(i);
            }
            i += 1;
        }
        None
    }

    /// The level that row `i` sets.
    fn level_at(store: &Store, i: usize) -> (level: Result<String, ApiError>)
        requires
            i < store.configs.len(),
        ensures
            agrees(level, level_of(store@.configs[i as int])),
    {
        match &store.configs[i].compatibility {
            Some(level) => Ok(level.clone()),
            None => Err(ApiError::new(ApiAvroErrorCode::BackendDatastoreError)),
        }
    }

    /// Gives row `i` the level.
    fn set_level_at(store: &mut Store, i: usize, compat: String)
        requires
            i < old(store).configs.len(),
        ensures
            final(store)@ == (StoreView {
                configs: with_level(old(store)@.configs, i as int, compat@),
                ..old(store)@
            }),
    {
        let row = Config {
            id: store.configs[i].id,
            compatibility: Some(compat),
            created_at: store.configs[i].created_at,
            updated_at: store.configs[i].updated_at,
            subject_id: store.configs[i].subject_id,
        };
        store.configs.set(i, row);
        assert(store@.configs =~= with_level(old(store)@.configs, i as int, compat@));
    }

    /// Retrieves the global compatibility level. Where the store has none
    /// yet, the default level is stored and returned.
    pub fn get_global_compatibility(store: &mut Store) -> (level: Result<String, ApiError>)
        ensures
            final(store)@ == global_read(old(store)@).0,
            agrees(level, global_read(old(store)@).1),
            old(store)@.sound() ==> final(store)@.sound(),
    {
        proof {
            if old(store)@.sound() {
                lemma_settings_sound(old(store)@, Seq::empty(), Seq::empty());
            }
        }
        match Self::global_index(store) {
            Some(i) => Self::level_at(store, i),
            None => {
                let inserted = Self::insert(Self::DEFAULT_COMPATIBILITY.as_str(), store);
                match inserted {
                    Ok(_) => Ok(Self::DEFAULT_COMPATIBILITY.to_string()),
                    Err(e) => Err(e),
                }
            },
        }
    }

    /// The override of the named subject, without fallback to the global
    /// level.
    pub fn get_with_subject_name(store: &Store, subject_name: String) -> (level: Result<String, ApiError>)
        ensures
            agrees(level, override_read(store@, subject_name@)),
    {
        let subject = match Subject::get_by_name(store, subject_name) {
            Ok(s) => s,
            Err(e) => {
                return Err(e);
            },
        };
        match Self::override_index(store, subject.id) {
            Some(i) => Self::level_at(store, i),
            None => Err(ApiError::new(ApiAvroErrorCode::BackendDatastoreError)),
        }
    }

    /// The level in force for the named subject: its override, or else the
    /// global level, which is the default where none is stored.
    pub fn get_effective(store: &Store, subject_name: String) -> (level: Result<String, ApiError>)
        ensures
            agrees(level, effective_level(store@, subject_name@)),
    {
        let subject = match Subject::get_by_name(store, subject_name) {
            Ok(s) => s,
            Err(e) => {
                return Err(e);
            },
        };
        match Self::override_index(store, subject.id) {
            Some(i) => Self::level_at(store, i),
            None => match Self::global_index(store) {
                Some(g) => Self::level_at(store, g),
                None => Ok(Self::DEFAULT_COMPATIBILITY.to_string()),
            },
        }
    }

    pub fn set_with_subject_name(store: &mut Store, subject_name: String, compat: String) -> (level: Result<String, ApiError>)
        ensures
            final(store)@ == override_written(old(store)@, subject_name@, compat@).0,
            agrees(level, override_written(old(store)@, subject_name@, compat@).1),
            old(store)@.sound() ==> final(store)@.sound(),
    {
        proof {
            if old(store)@.sound() {
                lemma_settings_sound(old(store)@, subject_name@, compat@);
            }
        }
        if CompatibilityLevel::from_str(compat.as_str()).is_err() {
            return Err(ApiError::new(ApiAvroErrorCode::InvalidCompatibilityLevel));
        }
        let subject = match Subject::get_by_name(store, subject_name) {
            Ok(s) => s,
            Err(e) => {
                return Err(e);
            },
        };
        match Self::override_index(store, subject.id) {
            Some(i) => {
                Self::set_level_at(store, i, compat.clone());
                Ok(compat)
            },
            None => {
                if store.next_config_id == i64::MAX {
                    return Err(ApiError::new(ApiAvroErrorCode::BackendDatastoreError));
                }
                let row = Config {
                    id: store.next_config_id,
                    compatibility: Some(compat.clone()),
                    created_at: store.clock,
                    updated_at: store.clock,
                    subject_id: Some(subject.id),
                };
                store.configs.push(row);
                store.next_config_id = store.next_config_id + 1;
                assert(store@.configs =~= old(store)@.configs.push(
                    override_row(old(store)@, subject.id, compat@),
                ));
                Ok(compat)
            },
        }
    }

    /// Updates the global compatibility level. Where the store has none yet,
    /// the level is stored.
    pub fn set_global_compatibility(store: &mut Store, compat: &str) -> (level: Result<String, ApiError>)
        ensures
            final(store)@ == global_written(old(store)@, compat@).0,
            agrees(level, global_written(old(store)@, compat@).1),
            old(store)@.sound() ==> final(store)@.sound(),
    {
        proof {
            if old(store)@.sound() {
                lemma_settings_sound(old(store)@, Seq::empty(), compat@);
            }
        }
        if CompatibilityLevel::from_str(compat).is_err() {
            return Err(ApiError::new(ApiAvroErrorCode::InvalidCompatibilityLevel));
        }
        match Self::global_index(store) {
            Some(i) => {
                Self::set_level_at(store, i, compat.to_owned());
                Ok(compat.to_owned())
            },
            None => {
                let inserted = Self::insert(compat, store);
                match inserted {
                    Ok(_) => Ok(compat.to_owned()),
                    Err(e) => Err(e),
                }
            },
        }
    }

    /// Inserts the row of the global default.
    pub fn insert(compat: &str, store: &mut Store) -> (inserted: Result<usize, ApiError>)
        ensures
            final(store)@ == global_inserted(old(store)@, compat@).0,
            agrees(inserted, global_inserted(old(store)@, compat@).1),
            old(store)@.sound() ==> final(store)@.sound(),
    {
        proof {
            if old(store)@.sound() {
                lemma_settings_sound(old(store)@, Seq::empty(), compat@);
            }
        }
        if Self::global_index(store).is_some() {
            return Err(ApiError::new(ApiAvroErrorCode::BackendDatastoreError));
        }
        let row = Config {
            id: 0,
            compatibility: Some(compat.to_owned()),
            created_at: store.clock,
            updated_at: store.clock,
            subject_id: None,
        };
        store.configs.push(row);
        assert(store@.configs =~= old(store)@.configs.push(global_row(old(store)@, compat@)));
        Ok(1)
    }
}

} // verus!
