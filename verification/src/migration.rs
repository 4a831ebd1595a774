//! Migrations and migration groups, assembled from what a group directory holds.

use core::fmt::Write;

use arrayvec::ArrayString;
use vstd::prelude::*;
use vstd::string::*;
use vstd::utf8::encode_utf8;

use crate::database::Database;
use crate::error::Error;
use crate::migration_parser::{
    header, lemma_cfg_agrees_with_unified, lemma_unified_sql_is_trimmed, parse_migration_cfg,
    parse_unified_migration, unified_migration,
};
use crate::repeatability::Repeatability;
use crate::text::{lemma_trim_empty, trim, trim_str};
use crate::utils::{
    calc_checksum, dir_name_parts, dir_name_parts_of, migration_file_name_parts,
    migration_file_name_parts_of, sip13_checksum,
};

verus! {

/// A migration: what it changes and to which group and databases it belongs.
#[derive(Debug)]
pub struct Migration {
    /// Checksum of the name, the SQL and the version
    pub checksum: u64,
    /// The databases the migration is restricted to; empty means all of them
    pub dbs: Vec<Database>,
    /// Name
    pub name: String,
    /// When the migration is run again
    pub repeatability: Option<Repeatability>,
    /// The SQL that reverts the migration
    pub sql_down: String,
    /// The SQL that applies the migration
    pub sql_up: String,
    /// Version
    pub version: i32,
}

/// A group of migrations, named after its directory.
#[derive(Debug)]
pub struct MigrationGroup {
    /// Name
    pub name: String,
    /// Version
    pub version: i32,
}

/// A file of a migration directory: its name and, when it was read, its text.
#[derive(Debug)]
pub struct MigrationFile {
    /// File name
    pub name: String,
    /// The text of the file, when it was read
    pub content: Option<String>,
}

/// `arrayvec::ArrayString`, the bounded buffer in which the file names of a migration
/// directory are built.
#[verifier::external_type_specification]
#[verifier::external_body]
pub struct ExArrayString<const CAP: usize>(ArrayString<CAP>);

/// The text held by a 64-byte `ArrayString`.
pub uninterp spec fn file_name_text(s: ArrayString<64>) -> Seq<char>;

/// `ArrayString::<64>::new`: an empty buffer.
#[verifier::external_body]
fn file_name_buffer() -> (r: ArrayString<64>)
    ensures
        file_name_text(r) == Seq::<char>::empty(),
{
    ArrayString::new()
}

/// `write!` of `dir_name` then `suffix` into an `ArrayString<64>` (its `fmt::Write::write_str`,
/// which is `try_push_str`): it succeeds when the UTF-8 bytes of the text and both pieces fit
/// in 64 bytes, and then the text is extended by both.
#[verifier::external_body]
fn write_file_name(buf: &mut ArrayString<64>, dir_name: &str, suffix: &str) -> (r: Result<
    (),
    core::fmt::Error,
>)
    ensures
        r is Ok <==> encode_utf8(file_name_text(*old(buf)) + dir_name@ + suffix@).len() <= 64,
        r is Ok ==> file_name_text(*final(buf)) == file_name_text(*old(buf)) + dir_name@
            + suffix@,
{
    write!(buf, "{}{}", dir_name, suffix)
}

/// `ArrayString<64> == str`.
#[verifier::external_body]
fn file_name_is(buf: &ArrayString<64>, name: &str) -> (r: bool)
    ensures
        r == (file_name_text(*buf) == name@),
{
    buf == name
}

/// The configuration file of the migration directory `dir`.
pub open spec fn cfg_file_name(dir: Seq<char>) -> Seq<char> {
    dir + ".cfg"@
}

/// The configuration file of the migration directory `dir`, in its TOML-named form.
pub open spec fn toml_file_name(dir: Seq<char>) -> Seq<char> {
    dir + ".toml"@
}

/// Whether `name` names a configuration file of the migration directory `dir`.
pub open spec fn is_cfg_file_name(dir: Seq<char>, name: Seq<char>) -> bool {
    name == cfg_file_name(dir) || name == toml_file_name(dir)
}

/// The file holding the `DOWN` SQL of the migration directory `dir`.
pub open spec fn down_file_name(dir: Seq<char>) -> Seq<char> {
    dir + "_down.sql"@
}

/// The file holding the `UP` SQL of the migration directory `dir`.
pub open spec fn up_file_name(dir: Seq<char>) -> Seq<char> {
    dir + "_up.sql"@
}

/// Whether the file names of the migration directory `dir` fit in 64 bytes each.
pub open spec fn dir_file_names_fit(dir: Seq<char>) -> bool {
    &&& encode_utf8(cfg_file_name(dir)).len() <= 64
    &&& encode_utf8(toml_file_name(dir)).len() <= 64
    &&& encode_utf8(down_file_name(dir)).len() <= 64
    &&& encode_utf8(up_file_name(dir)).len() <= 64
}

/// The text of the last file of `files` called `name` that was read.
pub open spec fn last_content(files: Seq<MigrationFile>, name: Seq<char>) -> Option<Seq<char>>
    decreases files.len(),
{
    if files.len() == 0 {
        None
    } else if files.last().name@ == name && files.last().content is Some {
        Some(files.last().content->0@)
    } else {
        last_content(files.drop_last(), name)
    }
}

/// The text of the last configuration file of the directory `dir` in `files` that was read.
pub open spec fn last_cfg_content(files: Seq<MigrationFile>, dir: Seq<char>) -> Option<Seq<char>>
    decreases files.len(),
{
    if files.len() == 0 {
        None
    } else if is_cfg_file_name(dir, files.last().name@) && files.last().content is Some {
        Some(files.last().content->0@)
    } else {
        last_cfg_content(files.drop_last(), dir)
    }
}

/// The text, or the empty text.
pub open spec fn or_empty(t: Option<Seq<char>>) -> Seq<char> {
    match t {
        Some(t) => t,
        None => Seq::empty(),
    }
}

/// The migration that the directory `dir` holding `files` stands for: name and version from
/// the directory's name, configuration from `{dir}.toml` or `{dir}.cfg`, SQL from
/// `{dir}_up.sql` and `{dir}_down.sql`, trimmed as the sections of a migration file are
/// (empty when absent).
pub open spec fn dir_migration_holds(m: Migration, dir: Seq<char>, files: Seq<MigrationFile>) -> bool {
    let (name, version) = dir_name_parts_of(dir)->0;
    let cfg = last_cfg_content(files, dir);
    &&& m.name@ == name
    &&& m.version == version
    &&& m.dbs@ == (match cfg {
        Some(c) => header(c).0,
        None => Seq::empty(),
    })
    &&& m.repeatability == (match cfg {
        Some(c) => header(c).1,
        None => None,
    })
    &&& m.sql_up@ == trim(or_empty(last_content(files, up_file_name(dir))))
    &&& m.sql_down@ == trim(or_empty(last_content(files, down_file_name(dir))))
    &&& m.checksum == sip13_checksum(m.name@, m.sql_up@, m.sql_down@, m.version)
}

proof fn lemma_dir_file_names_distinct(dir: Seq<char>)
    ensures
        cfg_file_name(dir) != down_file_name(dir),
        cfg_file_name(dir) != up_file_name(dir),
        toml_file_name(dir) != down_file_name(dir),
        toml_file_name(dir) != up_file_name(dir),
        down_file_name(dir) != up_file_name(dir),
{
    reveal_strlit(".toml");
    reveal_strlit(".cfg");
    reveal_strlit("_down.sql");
    reveal_strlit("_up.sql");
    assert(toml_file_name(dir).len() != down_file_name(dir).len());
    assert(toml_file_name(dir).len() != up_file_name(dir).len());
    assert(cfg_file_name(dir).len() != down_file_name(dir).len());
    assert(cfg_file_name(dir).len() != up_file_name(dir).len());
    assert(down_file_name(dir).len() != up_file_name(dir).len());
}

/// Builds `dir_name` followed by `suffix` in a 64-byte buffer.
fn suffixed_name(dir_name: &str, suffix: &str) -> (r: Result<ArrayString<64>, Error>)
    ensures
        r is Ok <==> encode_utf8(dir_name@ + suffix@).len() <= 64,
        r matches Ok(b) ==> file_name_text(b) == dir_name@ + suffix@,
        r matches Err(e) ==> e is Fmt,
{
    let mut buf = file_name_buffer();
    assert(Seq::<char>::empty() + dir_name@ + suffix@ == dir_name@ + suffix@);
    match write_file_name(&mut buf, dir_name, suffix) {
        Ok(()) => Ok(buf),
        Err(e) => Err(Error::Fmt(e)),
    }
}

/// What a migration directory is checked and read by: the name and version of its migration
/// and the names of its files, built in 64-byte buffers.
pub struct MigrationDirNames {
    name: String,
    version: i32,
    cfg: ArrayString<64>,
    toml: ArrayString<64>,
    down: ArrayString<64>,
    up: ArrayString<64>,
    dir: Ghost<Seq<char>>,
}

impl MigrationDirNames {
    /// The directory this was made for.
    pub closed spec fn dir(&self) -> Seq<char> {
        self.dir@
    }

    /// The names and buffers are those of the directory.
    pub closed spec fn wf(&self) -> bool {
        &&& dir_name_parts_of(self.dir@) == Some((self.name@, self.version))
        &&& file_name_text(self.cfg) == cfg_file_name(self.dir@)
        &&& file_name_text(self.toml) == toml_file_name(self.dir@)
        &&& file_name_text(self.down) == down_file_name(self.dir@)
        &&& file_name_text(self.up) == up_file_name(self.dir@)
    }

    /// Checks the name of the directory `dir_name`, then builds the names of its files.
    pub fn new(dir_name: &str) -> (r: Result<MigrationDirNames, Error>)
        ensures
            match r {
                Ok(n) => n.wf() && n.dir() == dir_name@ && dir_name_parts_of(dir_name@) is Some
                    && dir_file_names_fit(dir_name@),
                Err(e) => (dir_name_parts_of(dir_name@) is None && e is InvalidMigration) || (
                dir_name_parts_of(dir_name@) is Some && !dir_file_names_fit(dir_name@)
                    && e is Fmt),
            },
    {
        let (name, version) = dir_name_parts(dir_name)?;
        let cfg = suffixed_name(dir_name, ".cfg")?;
        let toml = suffixed_name(dir_name, ".toml")?;
        let down = suffixed_name(dir_name, "_down.sql")?;
        let up = suffixed_name(dir_name, "_up.sql")?;
        Ok(MigrationDirNames { name, version, cfg, toml, down, up, dir: Ghost(dir_name@) })
    }

    /// Whether `file_name` is one of the files of the migration: the ones worth reading.
    pub fn is_migration_file(&self, file_name: &str) -> (r: bool)
        requires
            self.wf(),
        ensures
            r == (is_cfg_file_name(self.dir(), file_name@) || file_name@ == down_file_name(
                self.dir(),
            ) || file_name@ == up_file_name(self.dir())),
    {
        file_name_is(&self.cfg, file_name) || file_name_is(&self.toml, file_name) || file_name_is(
            &self.down,
            file_name,
        ) || file_name_is(&self.up, file_name)
    }

    /// The migration of the directory holding `files`, taken in order, a later file of a role
    /// replacing an earlier one; the SQL of the files is trimmed.
    pub fn migration(&self, files: &Vec<MigrationFile>) -> (m: Migration)
        requires
            self.wf(),
        ensures
            dir_migration_holds(m, self.dir(), files@),
    {
        let ghost dir = self.dir@;
        proof {
            lemma_dir_file_names_distinct(dir);
            lemma_trim_empty();
        }
        let mut dbs: Vec<Database> = Vec::new();
        let mut repeatability: Option<Repeatability> = None;
        let mut sql_down = String::new();
        let mut sql_up = String::new();
        let mut i: usize = 0;
        while i < files.len()
            invariant
                i <= files.len(),
                self.wf(),
                dir == self.dir@,
                cfg_file_name(dir) != down_file_name(dir),
                cfg_file_name(dir) != up_file_name(dir),
                toml_file_name(dir) != down_file_name(dir),
                toml_file_name(dir) != up_file_name(dir),
                down_file_name(dir) != up_file_name(dir),
                dbs@ == (match last_cfg_content(files@.take(i as int), dir) {
                    Some(c) => header(c).0,
                    None => Seq::empty(),
                }),
                repeatability == (match last_cfg_content(files@.take(i as int), dir) {
                    Some(c) => header(c).1,
                    None => None,
                }),
                sql_up@ == trim(or_empty(last_content(files@.take(i as int), up_file_name(dir)))),
                sql_down@ == trim(
                    or_empty(last_content(files@.take(i as int), down_file_name(dir))),
                ),
            decreases files.len() - i,
        {
            let file = &files[i];
            let ghost prefix = files@.take(i + 1);
            assert(prefix.drop_last() == files@.take(i as int));
            assert(prefix.last() == files@[i as int]);
            if let Some(content) = &file.content {
                if file_name_is(&self.cfg, file.name.as_str()) || file_name_is(
                    &self.toml,
                    file.name.as_str(),
                ) {
                    let cfg = parse_migration_cfg(content.as_str());
                    dbs = cfg.dbs;
                    repeatability = cfg.repeatability;
                } else if file_name_is(&self.down, file.name.as_str()) {
                    sql_down = trim_str(content.as_str());
                } else if file_name_is(&self.up, file.name.as_str()) {
                    sql_up = trim_str(content.as_str());
                }
            }
            i += 1;
        }
        assert(files@.take(files.len() as int) == files@);
        let name = self.name.clone();
        let version = self.version;
        let checksum = calc_checksum(name.as_str(), sql_up.as_str(), sql_down.as_str(), version);
        Migration { checksum, dbs, name, repeatability, sql_down, sql_up, version }
    }
}

/// A migration assembled from the files of its directory.
///
/// The directory name is checked first, then the file names are built; the files are then
/// taken in order, a later file of a name replacing an earlier one.
pub fn migration_from_dir(dir_name: &str, files: &Vec<MigrationFile>) -> (r: Result<
    Migration,
    Error,
>)
    ensures
        match r {
            Ok(m) => dir_name_parts_of(dir_name@) is Some && dir_file_names_fit(dir_name@)
                && dir_migration_holds(m, dir_name@, files@),
            Err(e) => (dir_name_parts_of(dir_name@) is None && e is InvalidMigration) || (
            dir_name_parts_of(dir_name@) is Some && !dir_file_names_fit(dir_name@) && e is Fmt),
        },
{
    let names = MigrationDirNames::new(dir_name)?;
    Ok(names.migration(files))
}

/// The migration that the file `file_name` holding `content` stands for: name and version
/// from the file's name, everything else from its text.
pub open spec fn file_migration_holds(m: Migration, file_name: Seq<char>, content: Seq<char>) -> bool {
    &&& migration_file_name_parts_of(file_name) == Some((m.name@, m.version))
    &&& unified_migration(content) == Some((m.dbs@, m.repeatability, m.sql_up@, m.sql_down@))
    &&& m.checksum == sip13_checksum(m.name@, m.sql_up@, m.sql_down@, m.version)
}

/// Law: a migration file and its split form are the same migration. The split form is a
/// directory of the same name and version whose `_up.sql` and `_down.sql` files hold the
/// file's `UP` and `DOWN` sections (whitespace around them aside) and whose configuration
/// file holds the file's header, or which has no configuration file when the header declares
/// nothing.
pub proof fn lemma_split_form_is_the_same_migration(
    mf: Migration,
    file_name: Seq<char>,
    content: Seq<char>,
    md: Migration,
    dir: Seq<char>,
    files: Seq<MigrationFile>,
)
    requires
        file_migration_holds(mf, file_name, content),
        dir_migration_holds(md, dir, files),
        dir_name_parts_of(dir) == migration_file_name_parts_of(file_name),
        trim(or_empty(last_content(files, up_file_name(dir)))) == trim(mf.sql_up@),
        trim(or_empty(last_content(files, down_file_name(dir)))) == trim(mf.sql_down@),
        match last_cfg_content(files, dir) {
            Some(c) => header(c).0 == header(content).0 && header(c).1 == header(content).1,
            None => header(content).0.len() == 0 && header(content).1 is None,
        },
    ensures
        md.name@ == mf.name@,
        md.version == mf.version,
        md.dbs@ == mf.dbs@,
        md.repeatability == mf.repeatability,
        md.sql_up@ == mf.sql_up@,
        md.sql_down@ == mf.sql_down@,
        md.checksum == mf.checksum,
{
    lemma_unified_sql_is_trimmed(content);
    lemma_cfg_agrees_with_unified(content);
}

/// A migration assembled from a single migration file.
pub fn migration_from_file(file_name: &str, content: &str) -> (r: Result<Migration, Error>)
    ensures
        match r {
            Ok(m) => file_migration_holds(m, file_name@, content@),
            Err(e) => (migration_file_name_parts_of(file_name@) is None && e is InvalidMigration)
                || (migration_file_name_parts_of(file_name@) is Some && unified_migration(
                content@,
            ) is None && e is IncompleteSqlFile),
        },
{
    let (name, version) = migration_file_name_parts(file_name)?;
    let parsed = parse_unified_migration(content)?;
    let checksum = calc_checksum(
        name.as_str(),
        parsed.sql_up.as_str(),
        parsed.sql_down.as_str(),
        version,
    );
    Ok(
        Migration {
            checksum,
            dbs: parsed.cfg.dbs,
            name,
            repeatability: parsed.cfg.repeatability,
            sql_down: parsed.sql_down,
            sql_up: parsed.sql_up,
            version,
        },
    )
}

impl MigrationGroup {
    /// The group that the directory `dir_name` (such as `1__initial`) stands for.
    pub fn from_dir_name(dir_name: &str) -> (r: Result<MigrationGroup, Error>)
        ensures
            match r {
                Ok(g) => dir_name_parts_of(dir_name@) == Some((g.name@, g.version)),
                Err(e) => dir_name_parts_of(dir_name@) is None && e is InvalidMigration,
            },
    {
        let (name, version) = dir_name_parts(dir_name)?;
        Ok(MigrationGroup { name, version })
    }
}

} // verus!
