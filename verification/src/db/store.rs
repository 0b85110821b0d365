use vstd::prelude::*;
use crate::db::models::configs::{Config, ConfigView};
use crate::db::models::schema_versions::SchemaVersion;
use crate::db::models::schemas::{Schema, SchemaView};
use crate::db::models::subjects::{Subject, SubjectView};
use crate::db::query::views;

verus! {

/// The registry's four tables, each in insertion order, the next identifier
/// that each table assigns, and the time that new rows are stamped with.
pub struct Store {
    pub subjects: Vec<Subject>,
    pub schemas: Vec<Schema>,
    pub schema_versions: Vec<SchemaVersion>,
    pub configs: Vec<Config>,
    pub next_subject_id: i64,
    pub next_schema_id: i64,
    pub next_schema_version_id: i64,
    pub next_config_id: i64,
    pub clock: i64,
}

/// What a `Store` holds, as sequences of row views.
pub struct StoreView {
    pub subjects: Seq<SubjectView>,
    pub schemas: Seq<SchemaView>,
    pub schema_versions: Seq<SchemaVersion>,
    pub configs: Seq<ConfigView>,
    pub next_subject_id: i64,
    pub next_schema_id: i64,
    pub next_schema_version_id: i64,
    pub next_config_id: i64,
    pub clock: i64,
}

impl View for Store {
    type V = StoreView;

    open spec fn view(&self) -> StoreView {
        StoreView {
            subjects: views(self.subjects@),
            schemas: views(self.schemas@),
            schema_versions: self.schema_versions@,
            configs: views(self.configs@),
            next_subject_id: self.next_subject_id,
            next_schema_id: self.next_schema_id,
            next_schema_version_id: self.next_schema_version_id,
            next_config_id: self.next_config_id,
            clock: self.clock,
        }
    }
}

impl StoreView {
    /// The store of a registry that nothing was registered in.
    pub open spec fn empty() -> StoreView {
        StoreView {
            subjects: Seq::empty(),
            schemas: Seq::empty(),
            schema_versions: Seq::empty(),
            configs: Seq::empty(),
            next_subject_id: 1,
            next_schema_id: 1,
            next_schema_version_id: 1,
            next_config_id: 1,
            clock: 0,
        }
    }
}

impl Store {
    /// A store without rows, whose counters stand at 1 and whose clock
    /// stands at 0.
    pub fn new() -> (store: Store)
        ensures
            store@ == StoreView::empty(),
            store@.sound(),
    {
        let store = Store {
            subjects: Vec::new(),
            schemas: Vec::new(),
            schema_versions: Vec::new(),
            configs: Vec::new(),
            next_subject_id: 1,
            next_schema_id: 1,
            next_schema_version_id: 1,
            next_config_id: 1,
            clock: 0,
        };
        assert(store@.subjects =~= Seq::empty());
        assert(store@.schemas =~= Seq::empty());
        assert(store@.configs =~= Seq::empty());
        store
    }
}

} // verus!
