//! The databases a migration can be restricted to.

use vstd::prelude::*;

use crate::text::{chars_of, range_equals};

verus! {

/// Database
#[derive(Clone, Copy, Debug, PartialEq, Eq, Structural, PartialOrd, Ord, Hash)]
pub enum Database {
    /// MS-SQL
    Mssql,
    /// MySql
    Mysql,
    /// PostgreSQL
    Pg,
    /// SQLite
    Sqlite,
    /// Unit (dummy used for testing)
    Unit,
}

/// The textual name of each database.
pub open spec fn database_name(d: Database) -> Seq<char> {
    match d {
        Database::Mssql => "mssql"@,
        Database::Mysql => "mysql"@,
        Database::Pg => "pg"@,
        Database::Sqlite => "sqlite"@,
        Database::Unit => "unit"@,
    }
}

/// The database whose name is exactly `t`, if any; PostgreSQL is called `pg` or `postgres`.
pub open spec fn database_of(t: Seq<char>) -> Option<Database> {
    if t == "mssql"@ {
        Some(Database::Mssql)
    } else if t == "mysql"@ {
        Some(Database::Mysql)
    } else if t == "pg"@ || t == "postgres"@ {
        Some(Database::Pg)
    } else if t == "sqlite"@ {
        Some(Database::Sqlite)
    } else if t == "unit"@ {
        Some(Database::Unit)
    } else {
        None
    }
}

impl Database {
    /// The name of the database, as written in migration files.
    pub fn name(&self) -> (r: &'static str)
        ensures
            r@ == database_name(*self),
    {
        match self {
            Database::Mssql => "mssql",
            Database::Mysql => "mysql",
            Database::Pg => "pg",
            Database::Sqlite => "sqlite",
            Database::Unit => "unit",
        }
    }

    /// The database called `name`, if any.
    pub fn from_name(name: &str) -> (r: Option<Database>)
        ensures
            r == database_of(name@),
    {
        let v = chars_of(name);
        assert(v@.subrange(0, v@.len() as int) == v@);
        database_in_range(&v, 0, v.len())
    }
}

/// The database named by `s[lo..hi]`.
pub fn database_in_range(s: &Vec<char>, lo: usize, hi: usize) -> (r: Option<Database>)
    requires
        lo <= hi <= s.len(),
    ensures
        r == database_of(s@.subrange(lo as int, hi as int)),
{
    if range_equals(s, lo, hi, &chars_of("mssql")) {
        Some(Database::Mssql)
    } else if range_equals(s, lo, hi, &chars_of("mysql")) {
        Some(Database::Mysql)
    } else if range_equals(s, lo, hi, &chars_of("pg")) || range_equals(
        s,
        lo,
        hi,
        &chars_of("postgres"),
    ) {
        Some(Database::Pg)
    } else if range_equals(s, lo, hi, &chars_of("sqlite")) {
        Some(Database::Sqlite)
    } else if range_equals(s, lo, hi, &chars_of("unit")) {
        Some(Database::Unit)
    } else {
        None
    }
}

/// Reading back the name of a database gives that database.
pub proof fn lemma_database_name_roundtrip(d: Database)
    ensures
        database_of(database_name(d)) == Some(d),
{
    reveal_strlit("mssql");
    reveal_strlit("mysql");
    reveal_strlit("pg");
    reveal_strlit("sqlite");
    reveal_strlit("unit");
    assert("mysql"@[1] != "mssql"@[1]);
    assert("sqlite"@.len() != "mssql"@.len() && "sqlite"@.len() != "mysql"@.len());
    assert("pg"@.len() != "mssql"@.len() && "pg"@.len() != "mysql"@.len());
    assert("unit"@.len() != "mssql"@.len() && "unit"@.len() != "mysql"@.len());
    assert("unit"@.len() != "pg"@.len() && "unit"@.len() != "sqlite"@.len());
    assert("sqlite"@.len() != "pg"@.len());
    reveal_strlit("postgres");
    assert("sqlite"@.len() != "postgres"@.len() && "unit"@.len() != "postgres"@.len());
}

} // verus!
