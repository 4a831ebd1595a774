//! When a migration is run again.

use vstd::prelude::*;

use crate::text::{chars_of, range_equals};

verus! {

/// Repeatability
#[derive(Clone, Copy, Debug, PartialEq, Eq, Structural, PartialOrd, Ord, Hash)]
pub enum Repeatability {
    /// Always runs when executing a migration, regardless of the checksum
    Always,
    /// When executing a migration, runs if the checksum has been changed
    OnChecksumChange,
}

/// The textual name of each repeatability.
pub open spec fn repeatability_name(r: Repeatability) -> Seq<char> {
    match r {
        Repeatability::Always => "always"@,
        Repeatability::OnChecksumChange => "on_checksum_change"@,
    }
}

/// The repeatability whose name is exactly `t`, if any; `OnChecksumChange` is written
/// `on-checksum-change` or `on_checksum_change`.
pub open spec fn repeatability_of(t: Seq<char>) -> Option<Repeatability> {
    if t == "always"@ {
        Some(Repeatability::Always)
    } else if t == "on-checksum-change"@ || t == "on_checksum_change"@ {
        Some(Repeatability::OnChecksumChange)
    } else {
        None
    }
}

impl Repeatability {
    /// The name of the repeatability, as written in migration files.
    pub fn name(&self) -> (r: &'static str)
        ensures
            r@ == repeatability_name(*self),
    {
        match self {
            Repeatability::Always => "always",
            Repeatability::OnChecksumChange => "on_checksum_change",
        }
    }

    /// The repeatability called `name`, if any.
    pub fn from_name(name: &str) -> (r: Option<Repeatability>)
        ensures
            r == repeatability_of(name@),
    {
        let v = chars_of(name);
        assert(v@.subrange(0, v@.len() as int) == v@);
        repeatability_in_range(&v, 0, v.len())
    }
}

/// The repeatability named by `s[lo..hi]`.
pub fn repeatability_in_range(s: &Vec<char>, lo: usize, hi: usize) -> (r: Option<Repeatability>)
    requires
        lo <= hi <= s.len(),
    ensures
        r == repeatability_of(s@.subrange(lo as int, hi as int)),
{
    if range_equals(s, lo, hi, &chars_of("always")) {
        Some(Repeatability::Always)
    } else if range_equals(s, lo, hi, &chars_of("on-checksum-change")) || range_equals(
        s,
        lo,
        hi,
        &chars_of("on_checksum_change"),
    ) {
        Some(Repeatability::OnChecksumChange)
    } else {
        None
    }
}

/// Reading back the name of a repeatability gives that repeatability.
pub proof fn lemma_repeatability_name_roundtrip(r: Repeatability)
    ensures
        repeatability_of(repeatability_name(r)) == Some(r),
{
    reveal_strlit("always");
    reveal_strlit("on_checksum_change");
    reveal_strlit("on-checksum-change");
    assert("always"@.len() != "on_checksum_change"@.len());
    assert("always"@.len() != "on-checksum-change"@.len());
}

} // verus!
