//! The root configuration: a list of migration group directories, one per line.

use arrayvec::ArrayVec;
use vstd::prelude::*;
use vstd::string::*;

use crate::error::Error;
use crate::text::{
    agree, chars_of, is_ws, lemma_agree_narrow, lemma_line_end, lemma_line_end_at,
    lemma_line_end_last, lemma_line_end_shift, lemma_skip_ws_back_bounds, lemma_skip_ws_bounds,
    lemma_trim_shift, lemma_trimmed_extend_ws, line_end, line_end_exec, owned_range, skip_ws,
    skip_ws_back, trim, trim_bounds, trimmed,
};
use crate::utils::{dir_name_parts, dir_name_parts_of};

verus! {

/// `arrayvec::ArrayVec`, the bounded list of group directories.
#[verifier::external_type_specification]
#[verifier::external_body]
#[verifier::reject_recursive_types(T)]
pub struct ExArrayVec<T, const CAP: usize>(ArrayVec<T, CAP>);

/// The entries held by an `ArrayVec<String, 16>`, in order.
pub uninterp spec fn root_groups(v: ArrayVec<String, 16>) -> Seq<Seq<char>>;

/// `ArrayVec::<String, 16>::new`: an empty list.
#[verifier::external_body]
fn groups_new() -> (r: ArrayVec<String, 16>)
    ensures
        root_groups(r) == Seq::<Seq<char>>::empty(),
{
    ArrayVec::new()
}

/// `ArrayVec::<String, 16>::try_push`: appends `entry` when fewer than 16 entries are held,
/// and otherwise leaves the list unchanged and fails.
#[verifier::external_body]
fn groups_try_push(v: &mut ArrayVec<String, 16>, entry: String) -> (pushed: bool)
    ensures
        pushed == (root_groups(*old(v)).len() < 16),
        pushed ==> root_groups(*final(v)) == root_groups(*old(v)).push(entry@),
        !pushed ==> root_groups(*final(v)) == root_groups(*old(v)),
{
    v.try_push(entry).is_ok()
}

/// The lines of `s` from `pos` on, each trimmed.
pub open spec fn trimmed_lines(s: Seq<char>, pos: int) -> Seq<Seq<char>>
    decreases s.len() - pos,
{
    if pos < 0 || pos >= s.len() {
        seq![]
    } else {
        let e = line_end(s, pos);
        proof {
            lemma_line_end(s, pos);
        }
        seq![trimmed(s, pos, e)] + trimmed_lines(s, e)
    }
}

proof fn lemma_trimmed_lines_shift(t: Seq<char>, s: Seq<char>, k: int, pos: int)
    requires
        0 <= k,
        t.len() == s.len() + k,
        0 <= pos <= s.len(),
        agree(t, s, k, pos, s.len() as int),
    ensures
        trimmed_lines(t, pos + k) == trimmed_lines(s, pos),
    decreases s.len() - pos,
{
    if pos < s.len() {
        let e = line_end(s, pos);
        lemma_line_end(s, pos);
        lemma_line_end_shift(t, s, k, pos);
        lemma_agree_narrow(t, s, k, pos, s.len() as int, pos, e);
        lemma_trim_shift(t, s, k, pos, e);
        lemma_agree_narrow(t, s, k, pos, s.len() as int, e, s.len() as int);
        lemma_trimmed_lines_shift(t, s, k, e);
    }
}

/// Law: the entries of a root configuration are its lines with the whitespace around them
/// removed (`str::trim`, which also drops a `'\r'` before the `'\n'`). A text `line + "\n" +
/// rest`, for a `line` without `'\n'`, gives the trimmed `line` followed by the entries of
/// `rest`; a last line without `'\n'` gives its trimmed self; the empty text gives none.
pub proof fn lemma_root_cfg_entries_are_trimmed_lines(line: Seq<char>, rest: Seq<char>)
    requires
        forall|i: int| 0 <= i < line.len() ==> #[trigger] line[i] != '\n',
    ensures
        trimmed_lines(line + "\n"@ + rest, 0) == seq![trim(line)] + trimmed_lines(rest, 0),
        line.len() > 0 ==> trimmed_lines(line, 0) == seq![trim(line)],
        trimmed_lines(Seq::<char>::empty(), 0) == Seq::<Seq<char>>::empty(),
{
    reveal_strlit("\n");
    let t = line + "\n"@ + rest;
    let m = line.len() as int;
    assert(t[m] == '\n');
    assert forall|i: int| 0 <= i < m implies t[i] != '\n' by {
        assert(t[i] == line[i]);
    }
    lemma_line_end_at(t, 0, m);
    assert(agree(t, line, 0, 0, m));
    lemma_trim_shift(t, line, 0, 0, m);
    lemma_trimmed_extend_ws(t, 0, m);
    assert(agree(t, rest, m + 1, 0, rest.len() as int));
    lemma_trimmed_lines_shift(t, rest, m + 1, 0);
    assert(trimmed_lines(t, 0) == seq![trimmed(t, 0, m + 1)] + trimmed_lines(t, m + 1));
    if m > 0 {
        lemma_line_end_last(line, 0);
        assert(trimmed_lines(line, m) == Seq::<Seq<char>>::empty());
        assert(trimmed_lines(line, 0) == seq![trimmed(line, 0, m)] + trimmed_lines(line, m));
    }
}

/// Law: no entry of a root configuration starts or ends with whitespace.
pub proof fn lemma_root_cfg_entries_have_no_surrounding_whitespace(s: Seq<char>, pos: int)
    requires
        0 <= pos,
    ensures
        forall|i: int|
            0 <= i < trimmed_lines(s, pos).len() ==> (#[trigger] trimmed_lines(s, pos)[i]).len()
                == 0 || (!is_ws(trimmed_lines(s, pos)[i][0]) && !is_ws(
                trimmed_lines(s, pos)[i].last(),
            )),
    decreases s.len() - pos,
{
    if pos < s.len() {
        let e = line_end(s, pos);
        lemma_line_end(s, pos);
        lemma_root_cfg_entries_have_no_surrounding_whitespace(s, e);
        let a = skip_ws(s, pos, e);
        lemma_skip_ws_bounds(s, pos, e);
        let b = skip_ws_back(s, a, e);
        lemma_skip_ws_back_bounds(s, a, e);
        let x = trimmed(s, pos, e);
        assert(x == s.subrange(a, b));
        if b > a {
            assert(x[0] == s[a]);
            assert(x.last() == s[b - 1]);
        }
        let tl = trimmed_lines(s, pos);
        assert(tl == seq![x] + trimmed_lines(s, e));
        assert forall|i: int| 0 <= i < tl.len() implies (#[trigger] tl[i]).len() == 0 || (!is_ws(
            tl[i][0],
        ) && !is_ws(tl[i].last())) by {
            if i > 0 {
                assert(tl[i] == trimmed_lines(s, e)[i - 1]);
            }
        }
    }
}

/// The lines of a root configuration, each trimmed: the group directories it names,
/// relative to the directory of the configuration.
pub fn root_cfg_entries(content: &str) -> (r: Vec<String>)
    ensures
        r@.map_values(|e: String| e@) == trimmed_lines(content@, 0),
{
    let s = chars_of(content);
    let mut out: Vec<String> = Vec::new();
    let mut p: usize = 0;
    while p < s.len()
        invariant
            p <= s.len(),
            s@ == content@,
            trimmed_lines(s@, 0) == out@.map_values(|e: String| e@) + trimmed_lines(s@, p as int),
        decreases s.len() - p,
    {
        let e = line_end_exec(&s, p);
        let (a, b) = trim_bounds(&s, p, e);
        let entry = owned_range(content, a, b);
        let ghost before = out@.map_values(|e: String| e@);
        assert(trimmed_lines(s@, p as int) == seq![trimmed(s@, p as int, e as int)]
            + trimmed_lines(s@, e as int));
        out.push(entry);
        assert(out@.map_values(|e: String| e@) == before.push(trimmed(s@, p as int, e as int)));
        p = e;
    }
    assert(trimmed_lines(s@, p as int) == Seq::<Seq<char>>::empty());
    out
}

/// A line of the root configuration, with what the file system tells of the directory it
/// names.
#[derive(Debug)]
pub struct GroupCandidate {
    /// The trimmed line
    pub entry: String,
    /// The last component of the path it names, when that is valid Unicode
    pub file_name: Option<String>,
    /// Whether the path it names is a directory
    pub is_dir: bool,
}

/// Whether a line names a migration group: an existing directory whose name is a group name.
pub open spec fn accepts(c: GroupCandidate) -> bool {
    &&& c.is_dir
    &&& c.file_name is Some
    &&& dir_name_parts_of(c.file_name->0@) is Some
}

/// The entries of the lines that name migration groups, in order.
pub open spec fn accepted_entries(cs: Seq<GroupCandidate>) -> Seq<Seq<char>>
    decreases cs.len(),
{
    if cs.len() == 0 {
        seq![]
    } else if accepts(cs.last()) {
        accepted_entries(cs.drop_last()).push(cs.last().entry@)
    } else {
        accepted_entries(cs.drop_last())
    }
}

proof fn lemma_accepted_entries_grow(cs: Seq<GroupCandidate>, k: int)
    requires
        0 <= k <= cs.len(),
    ensures
        accepted_entries(cs.take(k)).len() <= accepted_entries(cs).len(),
    decreases cs.len(),
{
    if k < cs.len() {
        assert(cs.drop_last().take(k) == cs.take(k));
        lemma_accepted_entries_grow(cs.drop_last(), k);
    } else {
        assert(cs.take(k) == cs);
    }
}

/// The group directories of a root configuration: the entries of the lines that name
/// migration groups, in order; at most 16 of them.
pub fn parse_root_cfg_groups(candidates: &Vec<GroupCandidate>) -> (r: Result<
    ArrayVec<String, 16>,
    Error,
>)
    ensures
        match r {
            Ok(groups) => accepted_entries(candidates@).len() <= 16 && root_groups(groups)
                == accepted_entries(candidates@),
            Err(e) => accepted_entries(candidates@).len() > 16 && e is MaxNumGroups,
        },
{
    let mut groups = groups_new();
    let mut i: usize = 0;
    while i < candidates.len()
        invariant
            i <= candidates.len(),
            root_groups(groups) == accepted_entries(candidates@.take(i as int)),
            root_groups(groups).len() <= 16,
        decreases candidates.len() - i,
    {
        let c = &candidates[i];
        let ghost prefix = candidates@.take(i + 1);
        assert(prefix.drop_last() == candidates@.take(i as int));
        assert(prefix.last() == candidates@[i as int]);
        let accepted = match &c.file_name {
            Some(name) => c.is_dir && dir_name_parts(name.as_str()).is_ok(),
            None => false,
        };
        if accepted {
            if !groups_try_push(&mut groups, c.entry.clone()) {
                proof {
                    lemma_accepted_entries_grow(candidates@, i + 1);
                }
                return Err(Error::MaxNumGroups);
            }
        }
        i += 1;
    }
    assert(candidates@.take(candidates.len() as int) == candidates@);
    Ok(groups)
}

} // verus!
