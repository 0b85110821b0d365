use vstd::prelude::*;
use crate::db::models::configs::{Config, ConfigView};
use crate::db::models::schema_versions::SchemaVersion;
use crate::db::models::schemas::{Schema, SchemaView};
use crate::db::models::subjects::{Subject, SubjectView};
use crate::db::query::{inner_view, views};
use crate::db::store::Store;

verus! {

/// A row of one of the tables: it has an identifier, and can be compared
/// and copied.
pub trait Row: View + Sized {
    /// The identifier of a row.
    spec fn key(row: Self::V) -> i64;

    fn id(&self) -> (id: i64)
        ensures
            id == Self::key(self@),
    ;

    /// Whether the two rows hold the same in every column.
    fn same(&self, other: &Self) -> (yes: bool)
        ensures
            yes == (self@ == other@),
    ;

    fn copy(&self) -> (copy: Self)
        ensures
            copy@ == self@,
    ;
}

/// Whether two optional texts are the same.
fn same_optional(a: &Option<String>, b: &Option<String>) -> (yes: bool)
    ensures
        yes == (inner_view(*a) == inner_view(*b)),
{
    match (a, b) {
        (Some(x), Some(y)) => *x == *y,
        (None, None) => true,
        _ => false,
    }
}

impl Row for Subject {
    open spec fn key(row: SubjectView) -> i64 {
        row.id
    }

    fn id(&self) -> (id: i64) {
        self.id
    }

    fn same(&self, other: &Self) -> (yes: bool) {
        self.id == other.id && self.name == other.name && self.created_at == other.created_at
            && self.updated_at == other.updated_at
    }

    fn copy(&self) -> (copy: Self) {
        self.clone()
    }
}

impl Row for Schema {
    open spec fn key(row: SchemaView) -> i64 {
        row.id
    }

    fn id(&self) -> (id: i64) {
        self.id
    }

    fn same(&self, other: &Self) -> (yes: bool) {
        self.id == other.id && self.fingerprint == other.fingerprint && self.json == other.json
            && self.created_at == other.created_at && self.updated_at == other.updated_at
            && same_optional(&self.fingerprint2, &other.fingerprint2)
    }

    fn copy(&self) -> (copy: Self) {
        self.clone()
    }
}

impl Row for SchemaVersion {
    open spec fn key(row: SchemaVersion) -> i64 {
        row.id
    }

    fn id(&self) -> (id: i64) {
        self.id
    }

    fn same(&self, other: &Self) -> (yes: bool) {
        *self == *other
    }

    fn copy(&self) -> (copy: Self) {
        *self
    }
}

impl Row for Config {
    open spec fn key(row: ConfigView) -> i64 {
        row.id
    }

    fn id(&self) -> (id: i64) {
        self.id
    }

    fn same(&self, other: &Self) -> (yes: bool) {
        self.id == other.id && same_optional(&self.compatibility, &other.compatibility)
            && self.created_at == other.created_at && self.updated_at == other.updated_at
            && self.subject_id == other.subject_id
    }

    fn copy(&self) -> (copy: Self) {
        self.clone()
    }
}

/// Every row of the table has an identifier below `next`.
pub open spec fn all_below<T: Row>(rows: Seq<T::V>, next: i64) -> bool {
    forall|i: int| 0 <= i < rows.len() ==> T::key(#[trigger] rows[i]) < next
}

/// Some row of the table has the identifier.
pub open spec fn holds_id<T: Row>(rows: Seq<T::V>, id: i64) -> bool {
    exists|i: int| 0 <= i < rows.len() && T::key(#[trigger] rows[i]) == id
}

/// `next` is the counter for the table: the least number from 1 up that is
/// above every identifier of the table.
pub open spec fn counter_of<T: Row>(rows: Seq<T::V>, next: i64) -> bool {
    &&& next >= 1
    &&& all_below::<T>(rows, next)
    &&& next == 1 || holds_id::<T>(rows, (next - 1) as i64)
}

/// The rows of the table that have no equal among the others.
pub open spec fn unmatched_by<V>(others: Seq<V>) -> spec_fn(V) -> bool {
    |row: V| !others.contains(row)
}

/// The counter for the table; none where the table holds the last
/// identifier there is.
pub fn counter_after<T: Row>(rows: &Vec<T>) -> (next: Option<i64>)
    ensures
        match next {
            Some(n) => counter_of::<T>(views(rows@), n),
            None => holds_id::<T>(views(rows@), i64::MAX),
        },
{
    let mut next: i64 = 1;
    let mut i: usize = 0;
    while i < rows.len()
        invariant
            i <= rows.len(),
            counter_of::<T>(views(rows@).take(i as int), next),
        decreases rows.len() - i,
    {
        let id = rows[i].id();
        let ghost seen = views(rows@).take(i as int);
        let ghost more = views(rows@).take(i as int + 1);
        assert(more[i as int] == rows@[i as int]@);
        assert(forall|k: int| 0 <= k < i ==> more[k] == seen[k]);
        if id == i64::MAX {
            assert(T::key(views(rows@)[i as int]) == i64::MAX);
            return None;
        }
        if id >= next {
            next = id + 1;
            assert(T::key(more[i as int]) == next - 1);
        } else if next > 1 {
            let ghost k = choose|k: int| 0 <= k < seen.len() && T::key(#[trigger] seen[k]) == next - 1;
            assert(T::key(more[k]) == next - 1);
        }
        i += 1;
    }
    assert(views(rows@).take(rows.len() as int) =~= views(rows@));
    Some(next)
}

/// Whether the table holds a row equal to the given one.
pub fn holds_row<T: Row>(rows: &Vec<T>, row: &T) -> (yes: bool)
    ensures
        yes == views(rows@).contains(row@),
{
    let mut i: usize = 0;
    while i < rows.len()
        invariant
            i <= rows.len(),
            forall|k: int| 0 <= k < i ==> views(rows@)[k] != row@,
        decreases rows.len() - i,
    {
        if rows[i].same(row) {
            assert(views(rows@)[i as int] == row@);
            return true;
        }
        i += 1;
    }
    false
}

/// The rows of the table that have no equal among the others, in table
/// order. Taken of an earlier state against a later one, they are the rows
/// that went or changed; taken the other way round, the rows that came or
/// changed.
pub fn unmatched<T: Row>(rows: &Vec<T>, others: &Vec<T>) -> (rest: Vec<T>)
    ensures
        views(rest@) == views(rows@).filter(unmatched_by(views(others@))),
{
    let ghost wanted = unmatched_by(views(others@));
    let mut rest: Vec<T> = Vec::new();
    let mut i: usize = 0;
    proof {
        reveal(Seq::filter);
        assert(views(rest@) =~= views(rows@).take(0).filter(wanted));
    }
    while i < rows.len()
        invariant
            i <= rows.len(),
            wanted == unmatched_by(views(others@)),
            views(rest@) == views(rows@).take(i as int).filter(wanted),
        decreases rows.len() - i,
    {
        proof {
            views(rows@).lemma_take_succ_push(i as int);
            views(rows@).take(i as int).lemma_filter_push(views(rows@)[i as int], wanted);
        }
        if !holds_row(others, &rows[i]) {
            let ghost before = rest@;
            rest.push(rows[i].copy());
            assert(views(rest@) =~= views(before).push(views(rows@)[i as int]));
        }
        i += 1;
    }
    proof {
        views(rows@).lemma_take_len();
    }
    rest
}

/// A copy of the table.
pub fn copies<T: Row>(rows: &Vec<T>) -> (copy: Vec<T>)
    ensures
        views(copy@) == views(rows@),
{
    let mut copy: Vec<T> = Vec::new();
    let mut i: usize = 0;
    while i < rows.len()
        invariant
            i <= rows.len(),
            copy.len() == i,
            forall|k: int| 0 <= k < i ==> (#[trigger] copy@[k])@ == rows@[k]@,
        decreases rows.len() - i,
    {
        copy.push(rows[i].copy());
        i += 1;
    }
    assert(views(copy@) =~= views(rows@));
    copy
}

impl Store {
    /// The store that holds the given tables, with every counter set behind
    /// the identifiers of its table. There is none where a table holds the
    /// last identifier there is, which no counter can stand behind.
    pub fn from_rows(subjects: Vec<Subject>, schemas: Vec<Schema>, schema_versions: Vec<SchemaVersion>, configs: Vec<Config>, clock: i64) -> (store: Option<Store>)
        ensures
            store.is_none() <==> {
                ||| holds_id::<Subject>(views(subjects@), i64::MAX)
                ||| holds_id::<Schema>(views(schemas@), i64::MAX)
                ||| holds_id::<SchemaVersion>(schema_versions@, i64::MAX)
                ||| holds_id::<Config>(views(configs@), i64::MAX)
            },
            store matches Some(made) ==> {
                &&& made@.subjects == views(subjects@)
                &&& made@.schemas == views(schemas@)
                &&& made@.schema_versions == schema_versions@
                &&& made@.configs == views(configs@)
                &&& made@.clock == clock
                &&& counter_of::<Subject>(made@.subjects, made@.next_subject_id)
                &&& counter_of::<Schema>(made@.schemas, made@.next_schema_id)
                &&& counter_of::<SchemaVersion>(made@.schema_versions, made@.next_schema_version_id)
                &&& counter_of::<Config>(made@.configs, made@.next_config_id)
            },
    {
        assert(views(schema_versions@) =~= schema_versions@);
        let next_subject_id = match counter_after(&subjects) {
            Some(n) => n,
            None => {
                return None;
            },
        };
        let next_schema_id = match counter_after(&schemas) {
            Some(n) => n,
            None => {
                return None;
            },
        };
        let next_schema_version_id = match counter_after(&schema_versions) {
            Some(n) => n,
            None => {
                return None;
            },
        };
        let next_config_id = match counter_after(&configs) {
            Some(n) => n,
            None => {
                return None;
            },
        };
        Some(
            Store {
                subjects,
                schemas,
                schema_versions,
                configs,
                next_subject_id,
                next_schema_id,
                next_schema_version_id,
                next_config_id,
                clock,
            },
        )
    }

    /// A copy of the store.
    pub fn copy(&self) -> (copy: Store)
        ensures
            copy@ == self@,
    {
        let copy = Store {
            subjects: copies(&self.subjects),
            schemas: copies(&self.schemas),
            schema_versions: copies(&self.schema_versions),
            configs: copies(&self.configs),
            next_subject_id: self.next_subject_id,
            next_schema_id: self.next_schema_id,
            next_schema_version_id: self.next_schema_version_id,
            next_config_id: self.next_config_id,
            clock: self.clock,
        };
        assert(views(copy.schema_versions@) =~= copy.schema_versions@);
        assert(views(self.schema_versions@) =~= self.schema_versions@);
        copy
    }
}

} // verus!
