//! Migration files: an optional header of `-- oapth` declarations, an `UP` section and an
//! optional `DOWN` section, read line by line.

use vstd::prelude::*;
use vstd::string::*;

use crate::database::{database_in_range, database_of, Database};
use crate::error::Error;
use crate::repeatability::{repeatability_in_range, repeatability_of, Repeatability};
use crate::text::{
    chars_of, find_char, find_exec, find_in, lemma_find_char, lemma_line_end, line_end,
    line_end_exec, rsplit_second, rsplit_second_exec, split_second, split_second_exec,
    trim_bounds, trim_end, trim_start, trimmed, find_char_exec, owned_range, trim,
    contains, lemma_trimmed_is_trimmed, lemma_found_in_part, lemma_rsplit_second_bounds,
    agree, lemma_agree_narrow, lemma_find_char_shift, lemma_find_char_skip, lemma_find_in_shift,
    lemma_find_in_skip, lemma_line_end_shift, lemma_rsplit_second_shift, lemma_split_second_shift,
    lemma_trim_shift, lemma_find_in, occurs_at, lemma_not_contains, lemma_line_end_at,
    lemma_rfind_in_last, lemma_rfind_in_none, lemma_trimmed_extend_ws, lemma_skip_ws_bounds,
    lemma_skip_ws_back_bounds, is_ws, skip_ws, skip_ws_back,
};

verus! {

/// The declaration of the databases a migration is restricted to.
pub open spec fn dbs_marker() -> Seq<char> {
    "-- oapth dbs"@
}

/// The declaration of the repeatability of a migration.
pub open spec fn repeatability_marker() -> Seq<char> {
    "-- oapth repeatability"@
}

/// The start of the SQL that applies a migration.
pub open spec fn up_marker() -> Seq<char> {
    "-- oapth UP"@
}

/// The start of the SQL that reverts a migration.
pub open spec fn down_marker() -> Seq<char> {
    "-- oapth DOWN"@
}

/// Where a line-by-line read stops.
#[derive(Clone, Copy, Debug, PartialEq, Eq, Structural)]
pub enum Stop {
    /// After the first line that is neither blank nor a `//` comment.
    AtFirstLine,
    /// After the first such line that holds `-- oapth DOWN`.
    AtDown,
    /// At the end of the text.
    Never,
}

/// A line `s[lo..hi]` that reading passes over: blank once trimmed, or a `//` comment.
pub open spec fn is_skipped_line(s: Seq<char>, lo: int, hi: int) -> bool {
    let a = trim_start(s, lo, hi);
    let b = trim_end(s, lo, hi);
    a == b || (b - a >= 2 && s[a] == '/' && s[a + 1] == '/')
}

/// Whether reading stops after a line whose trimmed text is `s[a..b]`.
pub open spec fn stops_at(s: Seq<char>, a: int, b: int, stop: Stop) -> bool {
    match stop {
        Stop::AtFirstLine => true,
        Stop::AtDown => find_in(s, a, b, down_marker()) >= 0,
        Stop::Never => false,
    }
}

/// The position where reading lines from `pos` ends: just past the first line that is not
/// skipped and at which `stop` stops, or the end of `s`.
pub open spec fn iterations_end(s: Seq<char>, pos: int, stop: Stop) -> int
    decreases s.len() - pos,
{
    if pos < 0 || pos >= s.len() {
        s.len() as int
    } else {
        let e = line_end(s, pos);
        proof {
            lemma_line_end(s, pos);
        }
        if !is_skipped_line(s, pos, e) && stops_at(
            s,
            trim_start(s, pos, e),
            trim_end(s, pos, e),
            stop,
        ) {
            e
        } else {
            iterations_end(s, e, stop)
        }
    }
}

/// The databases named in the comma-separated list `s[lo..hi]`, each trimmed; names of no
/// database are left out.
pub open spec fn dbs_in(s: Seq<char>, lo: int, hi: int) -> Seq<Database>
    decreases hi - lo,
{
    if lo < 0 || lo > hi {
        seq![]
    } else {
        let j = find_char(s, lo, hi, ',');
        proof {
            lemma_find_char(s, lo, hi, ',');
        }
        let end = if j < 0 {
            hi
        } else {
            j
        };
        let first = match database_of(trimmed(s, lo, end)) {
            Some(d) => seq![d],
            None => seq![],
        };
        if j < 0 {
            first
        } else {
            first + dbs_in(s, j + 1, hi)
        }
    }
}

/// The header of a migration text: its databases, its repeatability and the bounds of the
/// last block of lines read, which must hold `-- oapth UP`.
///
/// The first block is the text up to the first line that is neither blank nor a `//` comment.
/// When it declares `-- oapth dbs`, the list that follows names the databases and the next
/// block is read; then likewise for `-- oapth repeatability`.
pub open spec fn header(s: Seq<char>) -> (Seq<Database>, Option<Repeatability>, int, int) {
    let e1 = iterations_end(s, 0, Stop::AtFirstLine);
    let (dbs, b2lo, b2hi) = match split_second(s, 0, e1, dbs_marker()) {
        Some((a, b)) => (dbs_in(s, a, b), e1, iterations_end(s, e1, Stop::AtFirstLine)),
        None => (seq![], 0, e1),
    };
    let (rep, b3lo, b3hi) = match split_second(s, b2lo, b2hi, repeatability_marker()) {
        Some((a, b)) => (
            repeatability_of(trimmed(s, a, b)),
            b2hi,
            iterations_end(s, b2hi, Stop::AtFirstLine),
        ),
        None => (None, b2lo, b2hi),
    };
    (dbs, rep, b3lo, b3hi)
}

/// What a migration text holds: its databases, its repeatability, its `UP` SQL and its
/// `DOWN` SQL; `None` when it has no `-- oapth UP` section or its `UP` SQL is empty while a
/// `DOWN` section follows.
pub open spec fn unified_migration(s: Seq<char>) -> Option<
    (Seq<Database>, Option<Repeatability>, Seq<char>, Seq<char>),
> {
    let (dbs, rep, blo, bhi) = header(s);
    if find_in(s, blo, bhi, up_marker()) < 0 {
        None
    } else {
        let e = iterations_end(s, bhi, Stop::AtDown);
        match rsplit_second(s, bhi, e, down_marker()) {
            None => Some((dbs, rep, trimmed(s, bhi, e), seq![])),
            Some((a, b)) => {
                let up = trimmed(s, a, b);
                if up.len() == 0 {
                    None
                } else {
                    Some((dbs, rep, up, trimmed(s, e, s.len() as int)))
                }
            },
        }
    }
}

/// The configuration of a migration.
#[derive(Debug, Default)]
pub struct MigrationCfg {
    /// The databases the migration is restricted to; empty means all of them.
    pub dbs: Vec<Database>,
    /// When the migration is run again.
    pub repeatability: Option<Repeatability>,
}

/// A migration parsed from a single text.
#[derive(Debug, Default)]
pub struct ParsedMigration {
    /// Configuration
    pub cfg: MigrationCfg,
    /// The SQL that reverts the migration
    pub sql_down: String,
    /// The SQL that applies the migration
    pub sql_up: String,
}

/// Reads lines of `s` from `pos` and returns where reading ended (see `iterations_end`).
pub fn iterations(s: &Vec<char>, pos: usize, stop: Stop) -> (r: usize)
    requires
        pos <= s.len(),
    ensures
        r == iterations_end(s@, pos as int, stop),
        pos <= r <= s.len(),
{
    let down = chars_of("-- oapth DOWN");
    let mut p = pos;
    while p < s.len()
        invariant
            pos <= p <= s.len(),
            down@ == down_marker(),
            iterations_end(s@, pos as int, stop) == iterations_end(s@, p as int, stop),
        decreases s.len() - p,
    {
        let e = line_end_exec(s, p);
        let (a, b) = trim_bounds(s, p, e);
        let skipped = a == b || (b - a >= 2 && s[a] == '/' && s[a + 1] == '/');
        if !skipped {
            let stops = match stop {
                Stop::AtFirstLine => true,
                Stop::AtDown => find_exec(s, a, b, &down).is_some(),
                Stop::Never => false,
            };
            if stops {
                return e;
            }
        }
        p = e;
    }
    p
}

/// The databases of the comma-separated list `s[lo..hi]`.
pub fn dbs_in_range(s: &Vec<char>, lo: usize, hi: usize) -> (r: Vec<Database>)
    requires
        lo <= hi <= s.len(),
    ensures
        r@ == dbs_in(s@, lo as int, hi as int),
{
    let mut out: Vec<Database> = Vec::new();
    let mut p = lo;
    loop
        invariant
            lo <= p <= hi <= s.len(),
            dbs_in(s@, lo as int, hi as int) == out@ + dbs_in(s@, p as int, hi as int),
        decreases hi - p,
    {
        let ghost old_out = out@;
        match find_char_exec(s, p, hi, ',') {
            Some(j) => {
                let (a, b) = trim_bounds(s, p, j);
                let d = database_in_range(s, a, b);
                if let Some(d) = d {
                    out.push(d);
                }
                assert(dbs_in(s@, p as int, hi as int) == (match database_of(
                    trimmed(s@, p as int, j as int),
                ) {
                    Some(d) => seq![d],
                    None => seq![],
                }) + dbs_in(s@, j + 1, hi as int));
                assert(old_out + dbs_in(s@, p as int, hi as int) == out@ + dbs_in(
                    s@,
                    j + 1,
                    hi as int,
                ));
                p = j + 1;
            },
            None => {
                let (a, b) = trim_bounds(s, p, hi);
                let d = database_in_range(s, a, b);
                if let Some(d) = d {
                    out.push(d);
                }
                assert(out@ == old_out + dbs_in(s@, p as int, hi as int));
                return out;
            },
        }
    }
}

/// When the block of lines `buffer` declares `-- oapth dbs`, adds the databases it names to
/// `dbs` and reads the next block; returns the block now at hand.
pub fn parse_dbs(s: &Vec<char>, buffer: (usize, usize), dbs: &mut Vec<Database>) -> (r: (
    usize,
    usize,
))
    requires
        buffer.0 <= buffer.1 <= s.len(),
    ensures
        match split_second(s@, buffer.0 as int, buffer.1 as int, dbs_marker()) {
            Some((a, b)) => {
                &&& final(dbs)@ == old(dbs)@ + dbs_in(s@, a, b)
                &&& r.0 == buffer.1
                &&& r.1 == iterations_end(s@, buffer.1 as int, Stop::AtFirstLine)
            },
            None => final(dbs)@ == old(dbs)@ && r == buffer,
        },
        r.0 <= r.1 <= s.len(),
{
    let marker = chars_of("-- oapth dbs");
    match split_second_exec(s, buffer.0, buffer.1, &marker) {
        Some((a, b)) => {
            let found = dbs_in_range(s, a, b);
            let mut i: usize = 0;
            let ghost start = dbs@;
            while i < found.len()
                invariant
                    i <= found.len(),
                    dbs@ == start + found@.take(i as int),
                decreases found.len() - i,
            {
                dbs.push(found[i]);
                assert(found@.take(i + 1) == found@.take(i as int).push(found@[i as int]));
                i += 1;
            }
            assert(found@.take(found.len() as int) == found@);
            let e = iterations(s, buffer.1, Stop::AtFirstLine);
            (buffer.1, e)
        },
        None => buffer,
    }
}

/// When the block of lines `buffer` declares `-- oapth repeatability`, sets `repeatability`
/// to the one it names (if it names one) and reads the next block; returns the block now at
/// hand.
pub fn parse_repeatability(
    s: &Vec<char>,
    buffer: (usize, usize),
    repeatability: &mut Option<Repeatability>,
) -> (r: (usize, usize))
    requires
        buffer.0 <= buffer.1 <= s.len(),
    ensures
        match split_second(s@, buffer.0 as int, buffer.1 as int, repeatability_marker()) {
            Some((a, b)) => {
                &&& *final(repeatability) == match repeatability_of(trimmed(s@, a, b)) {
                    Some(p) => Some(p),
                    None => *old(repeatability),
                }
                &&& r.0 == buffer.1
                &&& r.1 == iterations_end(s@, buffer.1 as int, Stop::AtFirstLine)
            },
            None => *final(repeatability) == *old(repeatability) && r == buffer,
        },
        r.0 <= r.1 <= s.len(),
{
    let marker = chars_of("-- oapth repeatability");
    match split_second_exec(s, buffer.0, buffer.1, &marker) {
        Some((a, b)) => {
            let (ta, tb) = trim_bounds(s, a, b);
            if let Some(p) = repeatability_in_range(s, ta, tb) {
                *repeatability = Some(p);
            }
            let e = iterations(s, buffer.1, Stop::AtFirstLine);
            (buffer.1, e)
        },
        None => buffer,
    }
}

/// Reads the header of the migration text `s`: its configuration and the last block read.
fn parse_header(s: &Vec<char>) -> (r: (MigrationCfg, (usize, usize)))
    ensures
        header(s@) == (r.0.dbs@, r.0.repeatability, r.1.0 as int, r.1.1 as int),
        r.1.0 <= r.1.1 <= s.len(),
{
    let mut cfg = MigrationCfg { dbs: Vec::new(), repeatability: None };
    let e1 = iterations(s, 0, Stop::AtFirstLine);
    let b2 = parse_dbs(s, (0, e1), &mut cfg.dbs);
    let b3 = parse_repeatability(s, b2, &mut cfg.repeatability);
    (cfg, b3)
}

/// Gets the configuration of a migration from its text.
pub fn parse_migration_cfg(content: &str) -> (r: MigrationCfg)
    ensures
        r.dbs@ == header(content@).0,
        r.repeatability == header(content@).1,
{
    let s = chars_of(content);
    let (cfg, _) = parse_header(&s);
    cfg
}

/// Gets all information related to a migration from its text.
pub fn parse_unified_migration(content: &str) -> (r: Result<ParsedMigration, Error>)
    ensures
        match r {
            Ok(m) => unified_migration(content@) == Some(
                (m.cfg.dbs@, m.cfg.repeatability, m.sql_up@, m.sql_down@),
            ),
            Err(e) => unified_migration(content@) is None && e is IncompleteSqlFile,
        },
{
    let s = chars_of(content);
    let (cfg, (blo, bhi)) = parse_header(&s);
    let up = chars_of("-- oapth UP");
    if find_exec(&s, blo, bhi, &up).is_none() {
        return Err(Error::IncompleteSqlFile);
    }
    let e = iterations(&s, bhi, Stop::AtDown);
    let down = chars_of("-- oapth DOWN");
    match rsplit_second_exec(&s, bhi, e, &down) {
        None => {
            let (a, b) = trim_bounds(&s, bhi, e);
            let sql_up = owned_range(content, a, b);
            Ok(ParsedMigration { cfg, sql_down: String::new(), sql_up })
        },
        Some((ua, ub)) => {
            let (a, b) = trim_bounds(&s, ua, ub);
            let sql_up = owned_range(content, a, b);
            let (c, d) = trim_bounds(&s, e, s.len());
            let sql_down = owned_range(content, c, d);
            if a == b {
                return Err(Error::IncompleteSqlFile);
            }
            Ok(ParsedMigration { cfg, sql_down, sql_up })
        },
    }
}

/// How far reading the configuration of the migration text `s` goes: to the end of the last
/// block of header lines.
pub open spec fn cfg_read_end(s: Seq<char>) -> int {
    header(s).3
}

/// How far reading the migration text `s` goes: to the end of the header when its last block
/// has no `-- oapth UP`, else to the end of the text.
pub open spec fn unified_read_end(s: Seq<char>) -> int {
    let (_, _, blo, bhi) = header(s);
    if find_in(s, blo, bhi, up_marker()) < 0 {
        bhi
    } else {
        s.len() as int
    }
}

/// The position (in chars) up to which `parse_migration_cfg` reads `content`; the text after
/// it plays no part in the configuration.
pub fn migration_cfg_read_end(content: &str) -> (r: usize)
    ensures
        r == cfg_read_end(content@),
{
    let s = chars_of(content);
    let (_, (_, bhi)) = parse_header(&s);
    bhi
}

/// The position (in chars) up to which `parse_unified_migration` reads `content` before it
/// gives its result.
pub fn unified_migration_read_end(content: &str) -> (r: usize)
    ensures
        r == unified_read_end(content@),
{
    let s = chars_of(content);
    let (_, (blo, bhi)) = parse_header(&s);
    let up = chars_of("-- oapth UP");
    if find_exec(&s, blo, bhi, &up).is_none() {
        bhi
    } else {
        s.len()
    }
}

/// In `"-- oapth UP\n" + u + "\n" + ...`, with `u` free of `-- oapth DOWN`, no occurrence of
/// `-- oapth DOWN` starts at a position of `u` or of the `'\n'` after it.
proof fn lemma_no_down_in_up(s: Seq<char>, u: Seq<char>, i: int, hi: int)
    requires
        !contains(u, down_marker()),
        s.len() >= 13 + u.len(),
        forall|j: int| 0 <= j < u.len() ==> s[12 + j] == #[trigger] u[j],
        s[12 + u.len() as int] == '\n',
        12 <= i <= 12 + u.len(),
    ensures
        !occurs_at(s, i, hi, down_marker()),
{
    reveal_strlit("-- oapth DOWN");
    let d = down_marker();
    let m: int = 13 + u.len() as int;
    if occurs_at(s, i, hi, d) {
        if i + 13 <= m - 1 {
            lemma_not_contains(u, d, i - 12);
            assert(s.subrange(i, i + 13) =~= u.subrange(i - 12, i + 1));
        } else {
            let j = m - 1 - i;
            assert(0 <= j < 13);
            assert(s.subrange(i, i + 13)[j] == s[m - 1]);
            assert(d[j] != '\n');
        }
    }
}

/// Reading the `UP` section passes over every line of `u`, `//` and `--` comment lines alike.
proof fn lemma_up_lines_pass(s: Seq<char>, u: Seq<char>, pos: int)
    requires
        !contains(u, down_marker()),
        s.len() >= 13 + u.len(),
        forall|j: int| 0 <= j < u.len() ==> s[12 + j] == #[trigger] u[j],
        s[12 + u.len() as int] == '\n',
        12 <= pos <= 13 + u.len(),
    ensures
        iterations_end(s, pos, Stop::AtDown) == iterations_end(s, 13 + u.len() as int, Stop::AtDown),
    decreases 13 + u.len() - pos,
{
    let m: int = 13 + u.len() as int;
    if pos < m {
        lemma_find_char(s, pos, s.len() as int, '\n');
        let f = find_char(s, pos, s.len() as int, '\n');
        assert(s[m - 1] == '\n');
        let e = line_end(s, pos);
        assert(e <= m);
        lemma_line_end(s, pos);
        let a = trim_start(s, pos, e);
        let b = trim_end(s, pos, e);
        lemma_skip_ws_bounds(s, pos, e);
        lemma_skip_ws_back_bounds(s, a, e);
        lemma_find_in(s, a, b, down_marker());
        let k = find_in(s, a, b, down_marker());
        if k >= 0 {
            lemma_no_down_in_up(s, u, k, b);
        }
        assert(!stops_at(s, a, b, Stop::AtDown));
        lemma_up_lines_pass(s, u, e);
    }
}

/// The migration text with the `UP` SQL `u` and the `DOWN` SQL `d`.
spec fn up_down_text(u: Seq<char>, d: Seq<char>) -> Seq<char> {
    "-- oapth UP\n"@ + u + "\n-- oapth DOWN\n"@ + d
}

proof fn lemma_up_down_layout(u: Seq<char>, d: Seq<char>)
    ensures
        up_down_text(u, d).len() == 27 + u.len() + d.len(),
        forall|j: int| 0 <= j < u.len() ==> up_down_text(u, d)[12 + j] == #[trigger] u[j],
        forall|j: int| 0 <= j < 12 ==> up_down_text(u, d)[j] == #[trigger] "-- oapth UP\n"@[j],
        forall|j: int|
            0 <= j < 15 ==> up_down_text(u, d)[12 + u.len() + j] == #[trigger] "\n-- oapth DOWN\n"@[j],
        forall|j: int| 0 <= j < d.len() ==> up_down_text(u, d)[27 + u.len() + j] == #[trigger] d[j],
{
    reveal_strlit("-- oapth UP\n");
    reveal_strlit("\n-- oapth DOWN\n");
}

proof fn lemma_up_down_header(u: Seq<char>, d: Seq<char>)
    ensures
        header(up_down_text(u, d)) == (Seq::<Database>::empty(), None::<Repeatability>, 0int, 12int),
        find_in(up_down_text(u, d), 0, 12, up_marker()) == 0,
{
    reveal_strlit("-- oapth UP\n");
    reveal_strlit("-- oapth UP");
    reveal_strlit("-- oapth dbs");
    reveal_strlit("-- oapth repeatability");
    lemma_up_down_layout(u, d);
    let s = up_down_text(u, d);
    let head = "-- oapth UP\n"@;
    assert forall|j: int| 0 <= j < 11 implies s[j] != '\n' by {
        assert(s[j] == head[j]);
    }
    assert(s[11] == head[11]);
    lemma_line_end_at(s, 0, 11);
    assert(s[0] == head[0]);
    assert(s[10] == head[10]);
    assert(s[9] == head[9]);
    assert(skip_ws(s, 0, 12) == 0);
    assert(skip_ws_back(s, 0, 11) == 11);
    assert(skip_ws_back(s, 0, 12) == 11);
    assert(!is_skipped_line(s, 0, 12));
    assert(iterations_end(s, 0, Stop::AtFirstLine) == 12);
    assert(s.subrange(0, 12)[9] == s[9]);
    assert(!occurs_at(s, 0, 12, dbs_marker()));
    assert(find_in(s, 1, 12, dbs_marker()) == -1);
    assert(find_in(s, 0, 12, dbs_marker()) == -1);
    assert(find_in(s, 0, 12, repeatability_marker()) == -1);
    assert forall|j: int| 0 <= j < 11 implies s.subrange(0, 11)[j] == up_marker()[j] by {
        assert(s[j] == head[j]);
    }
    assert(s.subrange(0, 11) =~= up_marker());
    assert(occurs_at(s, 0, 12, up_marker()));
}

proof fn lemma_up_down_down_line(u: Seq<char>, d: Seq<char>)
    ensures
        iterations_end(up_down_text(u, d), 13 + u.len() as int, Stop::AtDown) == 27 + u.len(),
        occurs_at(up_down_text(u, d), 13 + u.len() as int, 27 + u.len() as int, down_marker()),
        !occurs_at(up_down_text(u, d), 14 + u.len() as int, 27 + u.len() as int, down_marker()),
{
    reveal_strlit("\n-- oapth DOWN\n");
    reveal_strlit("-- oapth DOWN");
    lemma_up_down_layout(u, d);
    let s = up_down_text(u, d);
    let mid = "\n-- oapth DOWN\n"@;
    let m: int = 13 + u.len() as int;
    assert forall|j: int| m <= j < m + 13 implies s[j] != '\n' by {
        assert(s[12 + u.len() as int + (j - m + 1)] == mid[j - m + 1]);
    }
    assert(s[12 + u.len() as int + 14] == mid[14]);
    lemma_line_end_at(s, m, m + 13);
    assert(s[12 + u.len() as int + 1] == mid[1]);
    assert(s[12 + u.len() as int + 2] == mid[2]);
    assert(s[12 + u.len() as int + 13] == mid[13]);
    assert(skip_ws(s, m, m + 14) == m);
    assert(skip_ws_back(s, m, m + 13) == m + 13);
    assert(skip_ws_back(s, m, m + 14) == m + 13);
    assert(!is_skipped_line(s, m, m + 14));
    assert forall|j: int| 0 <= j < 13 implies s.subrange(m, m + 13)[j] == down_marker()[j] by {
        assert(s[12 + u.len() as int + (j + 1)] == mid[j + 1]);
    }
    assert(s.subrange(m, m + 13) =~= down_marker());
    assert(occurs_at(s, m, m + 13, down_marker()));
    assert(find_in(s, m, m + 13, down_marker()) == m);
    assert(s.subrange(m + 1, m + 14)[12] == s[m + 13]);
}

proof fn lemma_up_down_up_section(u: Seq<char>, d: Seq<char>)
    requires
        !contains(u, down_marker()),
    ensures
        iterations_end(up_down_text(u, d), 12, Stop::AtDown) == 27 + u.len(),
        rsplit_second(up_down_text(u, d), 12, 27 + u.len() as int, down_marker()) == Some(
            (12int, 13 + u.len() as int),
        ),
{
    let s = up_down_text(u, d);
    let m: int = 13 + u.len() as int;
    let e: int = m + 14;
    lemma_up_down_layout(u, d);
    lemma_up_down_down_line(u, d);
    reveal_strlit("\n-- oapth DOWN\n");
    reveal_strlit("-- oapth DOWN");
    assert(down_marker().len() == 13);
    assert(s[12 + u.len() as int + 0] == "\n-- oapth DOWN\n"@[0]);
    lemma_up_lines_pass(s, u, 12);
    assert forall|i: int| m < i && i + down_marker().len() <= e implies !#[trigger] occurs_at(
        s,
        i,
        e,
        down_marker(),
    ) by {
        assert(i == m + 1);
    }
    lemma_rfind_in_last(s, 12, e, down_marker(), m);
    assert forall|i: int| 12 <= i && i + down_marker().len() <= m implies !#[trigger] occurs_at(
        s,
        i,
        m,
        down_marker(),
    ) by {
        lemma_no_down_in_up(s, u, i, m);
    }
    lemma_rfind_in_none(s, 12, m, down_marker());
}

proof fn lemma_up_down_trims(u: Seq<char>, d: Seq<char>)
    ensures
        trimmed(up_down_text(u, d), 12, 13 + u.len() as int) == trim(u),
        trimmed(up_down_text(u, d), 27 + u.len() as int, up_down_text(u, d).len() as int) == trim(
            d,
        ),
{
    let s = up_down_text(u, d);
    let m: int = 13 + u.len() as int;
    let e: int = m + 14;
    lemma_up_down_layout(u, d);
    reveal_strlit("\n-- oapth DOWN\n");
    assert(s[12 + u.len() as int + 0] == "\n-- oapth DOWN\n"@[0]);
    assert(agree(s, u, 12, 0, u.len() as int));
    lemma_trim_shift(s, u, 12, 0, u.len() as int);
    lemma_trimmed_extend_ws(s, 12, m - 1);
    assert(agree(s, d, e, 0, d.len() as int));
    lemma_trim_shift(s, d, e, 0, d.len() as int);
}

/// Law: the `UP` SQL of a migration is every line between `-- oapth UP` and the first line
/// that holds `-- oapth DOWN`, comment lines included, and the `DOWN` SQL is everything
/// after that line; both are trimmed. For `"-- oapth UP\n" + u + "\n-- oapth DOWN\n" + d`
/// with `u` free of `-- oapth DOWN` and not blank, the migration has no declared databases or
/// repeatability, `UP` SQL `u.trim()` and `DOWN` SQL `d.trim()`.
pub proof fn lemma_up_section_runs_to_down(u: Seq<char>, d: Seq<char>)
    requires
        !contains(u, "-- oapth DOWN"@),
        trim(u).len() > 0,
    ensures
        unified_migration("-- oapth UP\n"@ + u + "\n-- oapth DOWN\n"@ + d) == Some(
            (Seq::<Database>::empty(), None::<Repeatability>, trim(u), trim(d)),
        ),
{
    lemma_up_down_header(u, d);
    lemma_up_down_up_section(u, d);
    lemma_up_down_trims(u, d);
    assert(up_down_text(u, d) == "-- oapth UP\n"@ + u + "\n-- oapth DOWN\n"@ + d);
}

/// Reading lines from `pos` ends between `pos` and the end of `s`.
pub proof fn lemma_iterations_end_bounds(s: Seq<char>, pos: int, stop: Stop)
    requires
        0 <= pos <= s.len(),
    ensures
        pos <= iterations_end(s, pos, stop) <= s.len(),
    decreases s.len() - pos,
{
    if pos < s.len() {
        lemma_line_end(s, pos);
        let e = line_end(s, pos);
        lemma_iterations_end_bounds(s, e, stop);
    }
}

/// The last block read for the header lies within `s`.
pub proof fn lemma_header_bounds(s: Seq<char>)
    ensures
        0 <= header(s).2 <= header(s).3 <= s.len(),
{
    let e1 = iterations_end(s, 0, Stop::AtFirstLine);
    lemma_iterations_end_bounds(s, 0, Stop::AtFirstLine);
    lemma_iterations_end_bounds(s, e1, Stop::AtFirstLine);
    let (b2lo, b2hi) = match split_second(s, 0, e1, dbs_marker()) {
        Some((a, b)) => (e1, iterations_end(s, e1, Stop::AtFirstLine)),
        None => (0, e1),
    };
    lemma_iterations_end_bounds(s, b2hi, Stop::AtFirstLine);
}

/// Law: a migration text in which `-- oapth UP` never occurs is refused.
pub proof fn lemma_up_section_required(s: Seq<char>)
    requires
        !contains(s, up_marker()),
    ensures
        unified_migration(s) is None,
{
    lemma_header_bounds(s);
    let (_, _, blo, bhi) = header(s);
    if find_in(s, blo, bhi, up_marker()) >= 0 {
        lemma_found_in_part(s, blo, bhi, up_marker());
    }
}

/// Law: the configuration of a migration text is the same whether only its configuration or
/// the whole migration is read.
pub proof fn lemma_cfg_agrees_with_unified(s: Seq<char>)
    ensures
        unified_migration(s) matches Some((dbs, rep, _, _)) ==> dbs == header(s).0 && rep
            == header(s).1,
{
}

/// Law: the SQL of a parsed migration has no leading or trailing whitespace.
pub proof fn lemma_unified_sql_is_trimmed(s: Seq<char>)
    ensures
        unified_migration(s) matches Some((_, _, up, down)) ==> trim(up) == up && trim(down)
            == down,
{
    lemma_header_bounds(s);
    let (_, _, blo, bhi) = header(s);
    let e = iterations_end(s, bhi, Stop::AtDown);
    lemma_iterations_end_bounds(s, bhi, Stop::AtDown);
    lemma_trimmed_is_trimmed(s, bhi, e);
    lemma_trimmed_is_trimmed(s, e, s.len() as int);
    assert(trim(Seq::<char>::empty()) == Seq::<char>::empty()) by {
        assert(Seq::<char>::empty().subrange(0, 0) == Seq::<char>::empty());
    }
    lemma_rsplit_second_bounds(s, bhi, e, down_marker());
    match rsplit_second(s, bhi, e, down_marker()) {
        Some((a, b)) => {
            lemma_trimmed_is_trimmed(s, a, b);
        },
        None => {},
    }
}

/// Whether reading passes over `s[lo..hi]` exactly as over the same text shifted by `k`.
proof fn lemma_is_skipped_line_shift(t: Seq<char>, s: Seq<char>, k: int, lo: int, hi: int, stop: Stop)
    requires
        agree(t, s, k, lo, hi),
        0 <= lo <= hi <= s.len(),
        0 <= lo + k,
        hi + k <= t.len(),
    ensures
        is_skipped_line(t, lo + k, hi + k) == is_skipped_line(s, lo, hi),
        stops_at(t, trim_start(t, lo + k, hi + k), trim_end(t, lo + k, hi + k), stop) == stops_at(
            s,
            trim_start(s, lo, hi),
            trim_end(s, lo, hi),
            stop,
        ),
{
    lemma_trim_shift(t, s, k, lo, hi);
    let a = trim_start(s, lo, hi);
    let b = trim_end(s, lo, hi);
    crate::text::lemma_skip_ws_bounds(s, lo, hi);
    crate::text::lemma_skip_ws_back_bounds(s, a, hi);
    if b - a >= 2 {
        assert(s[a] == t[a + k]);
        assert(s[a + 1] == t[a + 1 + k]);
    }
    lemma_agree_narrow(t, s, k, lo, hi, a, b);
    lemma_find_in_shift(t, s, k, a, b, down_marker());
    lemma_find_in(s, a, b, down_marker());
}

/// Reading lines of a text shifted by `k` ends at the shifted position.
pub proof fn lemma_iterations_end_shift(t: Seq<char>, s: Seq<char>, k: int, pos: int, stop: Stop)
    requires
        0 <= pos <= s.len(),
        0 <= k,
        t.len() == s.len() + k,
        agree(t, s, k, pos, s.len() as int),
    ensures
        iterations_end(t, pos + k, stop) == iterations_end(s, pos, stop) + k,
    decreases s.len() - pos,
{
    if pos < s.len() {
        lemma_line_end(s, pos);
        let e = line_end(s, pos);
        lemma_line_end_shift(t, s, k, pos);
        lemma_agree_narrow(t, s, k, pos, s.len() as int, pos, e);
        lemma_is_skipped_line_shift(t, s, k, pos, e, stop);
        lemma_agree_narrow(t, s, k, pos, s.len() as int, e, s.len() as int);
        lemma_iterations_end_shift(t, s, k, e, stop);
    }
}

/// The databases of a list shifted by `k` are the same.
pub proof fn lemma_dbs_in_shift(t: Seq<char>, s: Seq<char>, k: int, lo: int, hi: int)
    requires
        agree(t, s, k, lo, hi),
        0 <= lo <= hi <= s.len(),
        0 <= lo + k,
        hi + k <= t.len(),
    ensures
        dbs_in(t, lo + k, hi + k) == dbs_in(s, lo, hi),
    decreases hi - lo,
{
    lemma_find_char_shift(t, s, k, lo, hi, ',');
    crate::text::lemma_find_char(s, lo, hi, ',');
    let j = find_char(s, lo, hi, ',');
    let end = if j < 0 {
        hi
    } else {
        j
    };
    lemma_agree_narrow(t, s, k, lo, hi, lo, end);
    lemma_trim_shift(t, s, k, lo, end);
    if j >= 0 {
        lemma_agree_narrow(t, s, k, lo, hi, j + 1, hi);
        lemma_dbs_in_shift(t, s, k, j + 1, hi);
    }
}

/// The databases that one name of a `-- oapth dbs` list stands for: the one it names once
/// trimmed, or none.
pub open spec fn named_database(name: Seq<char>) -> Seq<Database> {
    match database_of(trim(name)) {
        Some(d) => seq![d],
        None => seq![],
    }
}

/// Law: a `-- oapth dbs` list is read name by name, in order, every name counting: a list
/// `a + "," + rest`, for a first name `a` without `,`, gives the database `a` names (if any)
/// followed by those of `rest`, and a single name gives the database it names (if any).
pub proof fn lemma_dbs_list_name_by_name(a: Seq<char>, rest: Seq<char>)
    requires
        forall|i: int| 0 <= i < a.len() ==> #[trigger] a[i] != ',',
    ensures
        dbs_in(a + ","@ + rest, 0, a.len() + 1 + rest.len() as int) == named_database(a) + dbs_in(
            rest,
            0,
            rest.len() as int,
        ),
        dbs_in(a, 0, a.len() as int) == named_database(a),
{
    reveal_strlit(",");
    let t = a + ","@ + rest;
    let m = a.len() as int;
    let n = t.len() as int;
    assert(n == a.len() + 1 + rest.len());
    assert(t[m] == ',');
    crate::text::lemma_find_char(t, 0, n, ',');
    let j = find_char(t, 0, n, ',');
    if j >= 0 && j < m {
        assert(t[j] == a[j]);
    }
    assert(j == m);
    assert(agree(t, a, 0, 0, m));
    lemma_trim_shift(t, a, 0, 0, m);
    assert(agree(t, rest, m + 1, 0, rest.len() as int));
    lemma_dbs_in_shift(t, rest, m + 1, 0, rest.len() as int);
    crate::text::lemma_find_char(a, 0, m, ',');
    let ja = find_char(a, 0, m, ',');
    if ja >= 0 {
        assert(a[ja] == ',');
    }
}

/// A line that reading passes over and that holds no `-`: blank, or a `//` comment without `-`.
pub open spec fn is_plain_skipped_line(p: Seq<char>) -> bool {
    &&& p.len() > 0
    &&& p.last() == '\n'
    &&& find_char(p, 0, p.len() - 1, '\n') < 0
    &&& is_skipped_line(p, 0, p.len() as int)
    &&& find_char(p, 0, p.len() as int, '-') < 0
}

proof fn lemma_markers_start_with_dash()
    ensures
        dbs_marker().len() > 0 && dbs_marker()[0] == '-',
        repeatability_marker().len() > 0 && repeatability_marker()[0] == '-',
        up_marker().len() > 0 && up_marker()[0] == '-',
        down_marker().len() > 0 && down_marker()[0] == '-',
{
    reveal_strlit("-- oapth dbs");
    reveal_strlit("-- oapth repeatability");
    reveal_strlit("-- oapth UP");
    reveal_strlit("-- oapth DOWN");
}

/// With `p` before `s`, no marker starts within `p`, and reading from the start of `p + s`
/// passes over `p`.
proof fn lemma_plain_skipped_prefix(p: Seq<char>, s: Seq<char>, stop: Stop)
    requires
        is_plain_skipped_line(p),
    ensures
        forall|i: int| 0 <= i < p.len() ==> #[trigger] (p + s)[i] != '-',
        iterations_end(p + s, 0, stop) == iterations_end(s, 0, stop) + p.len(),
{
    let t = p + s;
    let k = p.len() as int;
    let n = s.len() as int;
    assert(agree(t, s, k, 0, n));
    assert(agree(t, p, 0, 0, k));
    crate::text::lemma_find_char(p, 0, k, '-');
    assert forall|i: int| 0 <= i < k implies #[trigger] t[i] != '-' by {
        assert(t[i] == p[i]);
    }
    lemma_agree_narrow(t, p, 0, 0, k, 0, k - 1);
    lemma_find_char_shift(t, p, 0, 0, k - 1, '\n');
    lemma_find_char_skip(t, 0, k - 1, t.len() as int, '\n');
    assert(t[k - 1] == '\n');
    assert(line_end(t, 0) == k);
    lemma_is_skipped_line_shift(t, p, 0, 0, k, stop);
    assert(is_skipped_line(t, 0, k));
    lemma_iterations_end_shift(t, s, k, 0, stop);
    assert(iterations_end(t, 0, stop) == iterations_end(t, k, stop));
}

/// A search in `p + s` from its start finds what the search in `s` finds, shifted.
proof fn lemma_find_in_after_prefix(p: Seq<char>, s: Seq<char>, hi: int, pat: Seq<char>)
    requires
        0 <= hi <= s.len(),
        pat.len() > 0,
        pat[0] == '-',
        forall|i: int| 0 <= i < p.len() ==> #[trigger] (p + s)[i] != '-',
    ensures
        find_in(p + s, 0, hi + p.len(), pat) == find_in(p + s, p.len() as int, hi + p.len(), pat),
        split_second(p + s, 0, hi + p.len(), pat) == split_second(
            p + s,
            p.len() as int,
            hi + p.len(),
            pat,
        ),
{
    let t = p + s;
    let k = p.len() as int;
    assert forall|i: int| 0 <= i < k implies #[trigger] t[i] != pat[0] by {}
    lemma_find_in_skip(t, 0, k, hi + k, pat);
}

/// The header of `p + s` is that of `s`, its last block shifted (a block from the start
/// still starting at 0).
proof fn lemma_header_after_prefix(p: Seq<char>, s: Seq<char>)
    requires
        is_plain_skipped_line(p),
    ensures
        header(p + s).0 == header(s).0,
        header(p + s).1 == header(s).1,
        header(p + s).3 == header(s).3 + p.len(),
        header(p + s).2 == (if header(s).2 == 0 {
            0
        } else {
            header(s).2 + p.len()
        }),
{
    let t = p + s;
    let k = p.len() as int;
    let n = s.len() as int;
    assert(agree(t, s, k, 0, n));
    lemma_markers_start_with_dash();
    lemma_plain_skipped_prefix(p, s, Stop::AtFirstLine);
    let e1 = iterations_end(s, 0, Stop::AtFirstLine);
    lemma_iterations_end_bounds(s, 0, Stop::AtFirstLine);
    lemma_iterations_end_shift(t, s, k, e1, Stop::AtFirstLine);
    lemma_iterations_end_bounds(s, e1, Stop::AtFirstLine);
    // The `dbs` declaration.
    lemma_agree_narrow(t, s, k, 0, n, 0, e1);
    lemma_find_in_after_prefix(p, s, e1, dbs_marker());
    lemma_split_second_shift(t, s, k, 0, e1, dbs_marker());
    let s2 = split_second(s, 0, e1, dbs_marker());
    if let Some((a, b)) = s2 {
        crate::text::lemma_find_in(s, 0, e1, dbs_marker());
        let i = find_in(s, 0, e1, dbs_marker());
        lemma_find_in(s, i + dbs_marker().len(), e1, dbs_marker());
        lemma_agree_narrow(t, s, k, 0, n, a, b);
        lemma_dbs_in_shift(t, s, k, a, b);
    }
    let (b2lo, b2hi) = match s2 {
        Some((a, b)) => (e1, iterations_end(s, e1, Stop::AtFirstLine)),
        None => (0, e1),
    };
    // The `repeatability` declaration.
    lemma_agree_narrow(t, s, k, 0, n, b2lo, b2hi);
    lemma_split_second_shift(t, s, k, b2lo, b2hi, repeatability_marker());
    if b2lo == 0 {
        lemma_find_in_after_prefix(p, s, b2hi, repeatability_marker());
    }
    let s3 = split_second(s, b2lo, b2hi, repeatability_marker());
    if let Some((a, b)) = s3 {
        crate::text::lemma_find_in(s, b2lo, b2hi, repeatability_marker());
        let i = find_in(s, b2lo, b2hi, repeatability_marker());
        lemma_find_in(s, i + repeatability_marker().len(), b2hi, repeatability_marker());
        lemma_agree_narrow(t, s, k, 0, n, a, b);
        lemma_trim_shift(t, s, k, a, b);
    }
    lemma_iterations_end_bounds(s, b2hi, Stop::AtFirstLine);
    lemma_iterations_end_shift(t, s, k, b2hi, Stop::AtFirstLine);
}

/// Law: a blank line, or a `//` comment line without `-`, before a migration text changes
/// nothing of what is read from it.
#[verifier::rlimit(40)]
pub proof fn lemma_skipped_line_changes_nothing(p: Seq<char>, s: Seq<char>)
    requires
        is_plain_skipped_line(p),
    ensures
        header(p + s).0 == header(s).0,
        header(p + s).1 == header(s).1,
        unified_migration(p + s) == unified_migration(s),
{
    let t = p + s;
    let k = p.len() as int;
    let n = s.len() as int;
    assert(agree(t, s, k, 0, n));
    lemma_markers_start_with_dash();
    lemma_header_after_prefix(p, s);
    lemma_header_bounds(s);
    let (_, _, b3lo, b3hi) = header(s);
    // The `UP` section.
    lemma_agree_narrow(t, s, k, 0, n, b3lo, b3hi);
    lemma_find_in_shift(t, s, k, b3lo, b3hi, up_marker());
    lemma_find_in(s, b3lo, b3hi, up_marker());
    if b3lo == 0 {
        lemma_plain_skipped_prefix(p, s, Stop::AtFirstLine);
        lemma_find_in_after_prefix(p, s, b3hi, up_marker());
    }
    // The `DOWN` section.
    lemma_agree_narrow(t, s, k, 0, n, b3hi, n);
    lemma_iterations_end_shift(t, s, k, b3hi, Stop::AtDown);
    lemma_iterations_end_bounds(s, b3hi, Stop::AtDown);
    let e = iterations_end(s, b3hi, Stop::AtDown);
    lemma_agree_narrow(t, s, k, 0, n, b3hi, e);
    lemma_rsplit_second_shift(t, s, k, b3hi, e, down_marker());
    lemma_trim_shift(t, s, k, b3hi, e);
    lemma_agree_narrow(t, s, k, 0, n, e, n);
    lemma_trim_shift(t, s, k, e, n);
    lemma_rsplit_second_bounds(s, b3hi, e, down_marker());
    if let Some((a, b)) = rsplit_second(s, b3hi, e, down_marker()) {
        lemma_agree_narrow(t, s, k, 0, n, a, b);
        lemma_trim_shift(t, s, k, a, b);
    }
}

} // verus!
