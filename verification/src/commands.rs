//! The facade of schema management commands.

use vstd::prelude::*;

use crate::backend::Backend;
use crate::database::Database;
use crate::migration::Migration;

verus! {

/// The number of files sent to the database in a single transaction by default.
pub const DEFAULT_BATCH_SIZE: usize = 128;

/// SQL commands facade
#[derive(Debug)]
pub struct Commands<B> {
    /// The back end the commands go through
    pub backend: B,
    /// The number of files sent to the database in a single transaction
    pub batch_size: usize,
}

/// Whether a migration applies to the database `db`: it names no database, or it names `db`.
pub open spec fn applies_to(m: Migration, db: Database) -> bool {
    m.dbs@.len() == 0 || m.dbs@.contains(db)
}

/// Law: a migration applies to a database exactly when its list of databases is empty or
/// names that database at some position (first, last or between).
pub proof fn lemma_applies_to_any_listed_database(m: Migration, db: Database)
    ensures
        applies_to(m, db) <==> (m.dbs@.len() == 0 || exists|i: int|
            0 <= i < m.dbs@.len() && m.dbs@[i] == db),
{
}

/// Law: the migrations kept for a back end of `db` are exactly, in order, those that name no
/// database or name `db` anywhere in their list; in particular one whose list starts with `db`
/// is kept.
pub proof fn lemma_filter_keeps_listed_databases(ms: Seq<Migration>, db: Database, m: Migration)
    ensures
        ms.filter(|x: Migration| applies_to(x, db)).contains(m) <==> (ms.contains(m) && (
        m.dbs@.len() == 0 || exists|i: int| 0 <= i < m.dbs@.len() && m.dbs@[i] == db)),
        m.dbs@.len() > 0 && m.dbs@[0] == db ==> applies_to(m, db),
{
    let pred = |x: Migration| applies_to(x, db);
    if ms.filter(pred).contains(m) {
        ms.lemma_filter_contains_rev(pred, m);
        let j = choose|j: int| 0 <= j < ms.filter(pred).len() && ms.filter(pred)[j] == m;
        ms.lemma_filter_pred(pred, j);
    }
    if ms.contains(m) && pred(m) {
        let k = choose|k: int| 0 <= k < ms.len() && ms[k] == m;
        ms.lemma_filter_contains(pred, k);
    }
    if m.dbs@.len() > 0 && m.dbs@[0] == db {
        assert(m.dbs@.contains(db));
    }
}

/// Whether `dbs` holds `db`.
fn contains_database(dbs: &Vec<Database>, db: Database) -> (r: bool)
    ensures
        r == dbs@.contains(db),
{
    let mut i: usize = 0;
    while i < dbs.len()
        invariant
            i <= dbs.len(),
            forall|k: int| 0 <= k < i ==> dbs@[k] != db,
        decreases dbs.len() - i,
    {
        if dbs[i] == db {
            return true;
        }
        i += 1;
    }
    false
}

impl<B: Backend> Commands<B> {
    /// Creates a new instance from a given Backend and batch size.
    pub fn new(backend: B, batch_size: usize) -> (r: Self)
        ensures
            r.backend == backend,
            r.batch_size == batch_size,
    {
        Commands { backend, batch_size }
    }

    /// Creates a new instance from a given Backend.
    ///
    /// Batch size will default to 128.
    pub fn with_backend(backend: B) -> (r: Self)
        ensures
            r.backend == backend,
            r.batch_size == DEFAULT_BATCH_SIZE,
    {
        let batch_size = DEFAULT_BATCH_SIZE;
        Commands { backend, batch_size }
    }

    /// The migrations that apply to the database of the back end, in order.
    pub fn filter_by_db<'m>(migrations: &'m Vec<Migration>) -> (r: Vec<&'m Migration>)
        ensures
            r@.map_values(|m: &Migration| *m) == migrations@.filter(
                |m: Migration| applies_to(m, B::spec_database()),
            ),
    {
        let db = B::database();
        let ghost pred = |m: Migration| applies_to(m, B::spec_database());
        let mut out: Vec<&'m Migration> = Vec::new();
        let mut i: usize = 0;
        while i < migrations.len()
            invariant
                i <= migrations.len(),
                db == B::spec_database(),
                pred == (|m: Migration| applies_to(m, B::spec_database())),
                out@.map_values(|m: &Migration| *m) == migrations@.take(i as int).filter(pred),
            decreases migrations.len() - i,
        {
            let m = &migrations[i];
            let ghost before = out@.map_values(|m: &Migration| *m);
            proof {
                reveal_with_fuel(Seq::<_>::filter, 1);
            }
            assert(migrations@.take(i + 1).drop_last() == migrations@.take(i as int));
            assert(migrations@.take(i + 1).last() == migrations@[i as int]);
            if m.dbs.len() == 0 || contains_database(&m.dbs, db) {
                out.push(m);
                assert(out@.map_values(|m: &Migration| *m) == before.push(*m));
            }
            i += 1;
        }
        assert(migrations@.take(migrations.len() as int) == migrations@);
        out
    }
}

} // verus!
