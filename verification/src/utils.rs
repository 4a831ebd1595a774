//! Names of migration groups and migrations, and checksums.

use core::hash::{Hash, Hasher};
use siphasher::sip::SipHasher13;
use vstd::prelude::*;
use vstd::utf8::is_ascii_chars;

use crate::error::Error;
use crate::text::{chars_of, find_exec, find_in, lemma_find_in, lemma_find_in_finds, occurs_at, owned_range};

verus! {

/// Whether `c` is an ASCII digit.
pub open spec fn is_digit(c: char) -> bool {
    '0' <= c && c <= '9'
}

/// The value of the ASCII digit `c`.
pub open spec fn digit_value(c: char) -> int {
    (c as u32) - ('0' as u32)
}

/// Whether all chars of `t` are ASCII digits.
pub open spec fn all_digits(t: Seq<char>) -> bool {
    forall|i: int| 0 <= i < t.len() ==> is_digit(#[trigger] t[i])
}

/// The decimal value of the digits `t`.
pub open spec fn digits_value(t: Seq<char>) -> int
    decreases t.len(),
{
    if t.len() == 0 {
        0
    } else {
        digits_value(t.drop_last()) * 10 + digit_value(t.last())
    }
}

/// `t.parse::<i32>()`: an optional `+` or `-` sign and at least one decimal digit, within the
/// range of `i32`.
pub open spec fn parse_i32(t: Seq<char>) -> Option<i32> {
    if t.len() == 0 || ((t[0] == '+' || t[0] == '-') && t.len() == 1) {
        None
    } else {
        let signed = t[0] == '+' || t[0] == '-';
        let digits = if signed {
            t.drop_first()
        } else {
            t
        };
        if !all_digits(digits) {
            None
        } else {
            let v = if t[0] == '-' {
                -digits_value(digits)
            } else {
                digits_value(digits)
            };
            if i32::MIN <= v <= i32::MAX {
                Some(v as i32)
            } else {
                None
            }
        }
    }
}

proof fn lemma_digits_value_monotonic(t: Seq<char>, k: int)
    requires
        all_digits(t),
        0 <= k <= t.len(),
    ensures
        0 <= digits_value(t.take(k)) <= digits_value(t),
    decreases t.len(),
{
    if k < t.len() {
        let u = t.drop_last();
        assert(all_digits(u)) by {
            assert forall|i: int| 0 <= i < u.len() implies is_digit(#[trigger] u[i]) by {
                assert(u[i] == t[i]);
            }
        }
        lemma_digits_value_monotonic(u, k);
        assert(u.take(k) == t.take(k));
        lemma_digits_value_monotonic(u, u.len() as int);
        assert(u.take(u.len() as int) == u);
        assert(is_digit(t[t.len() - 1]));
    } else {
        assert(t.take(k) == t);
        if t.len() > 0 {
            let u = t.drop_last();
            assert(all_digits(u)) by {
                assert forall|i: int| 0 <= i < u.len() implies is_digit(#[trigger] u[i]) by {
                    assert(u[i] == t[i]);
                }
            }
            lemma_digits_value_monotonic(u, u.len() as int);
            assert(u.take(u.len() as int) == u);
            assert(is_digit(t[t.len() - 1]));
        }
    }
}

/// `s[lo..hi].parse::<i32>()`.
pub fn parse_i32_range(s: &Vec<char>, lo: usize, hi: usize) -> (r: Option<i32>)
    requires
        lo <= hi <= s.len(),
    ensures
        r == parse_i32(s@.subrange(lo as int, hi as int)),
{
    let ghost t = s@.subrange(lo as int, hi as int);
    if lo == hi {
        return None;
    }
    let first = s[lo];
    assert(t[0] == first);
    let signed = first == '+' || first == '-';
    let start = if signed {
        lo + 1
    } else {
        lo
    };
    if start == hi {
        return None;
    }
    let ghost digits = s@.subrange(start as int, hi as int);
    assert(digits == (if signed {
        t.drop_first()
    } else {
        t
    }));
    let mut acc: u64 = 0;
    let mut i = start;
    while i < hi
        invariant
            start <= i <= hi <= s.len(),
            digits == s@.subrange(start as int, hi as int),
            t == s@.subrange(lo as int, hi as int),
            t.len() > 0,
            t[0] == first,
            signed == (first == '+' || first == '-'),
            start < hi,
            digits == (if signed {
                t.drop_first()
            } else {
                t
            }),
            acc == digits_value(s@.subrange(start as int, i as int)),
            acc <= 2147483648,
            all_digits(s@.subrange(start as int, i as int)),
        decreases hi - i,
    {
        let c = s[i];
        if !('0' <= c && c <= '9') {
            assert(digits[i - start] == c);
            assert(!is_digit(digits[i - start]));
            return None;
        }
        let ghost prev = s@.subrange(start as int, i as int);
        let ghost next = s@.subrange(start as int, i + 1);
        assert(next.drop_last() == prev);
        assert(next.last() == c);
        assert(all_digits(next)) by {
            assert forall|k: int| 0 <= k < next.len() implies is_digit(#[trigger] next[k]) by {
                if k < prev.len() {
                    assert(next[k] == prev[k]);
                }
            }
        }
        let d = (c as u32 - '0' as u32) as u64;
        assert(d == digit_value(c));
        acc = acc * 10 + d;
        assert(acc == digits_value(next));
        i += 1;
        if acc > 2147483648 {
            proof {
                if all_digits(digits) {
                    lemma_digits_value_monotonic(digits, i - start);
                    assert(digits.take(i - start) == next);
                }
            }
            return None;
        }
    }
    assert(s@.subrange(start as int, i as int) == digits);
    if first == '-' {
        Some((0 - (acc as i64)) as i32)
    } else if acc <= 2147483647 {
        Some(acc as i32)
    } else {
        None
    }
}

/// The separator of the version and the name in a directory or file name.
pub open spec fn name_separator() -> Seq<char> {
    "__"@
}

/// The version and the text after it in `t`, per `t.split("__")`: the first piece parsed as
/// an `i32` and the second piece; `None` when `t` is not ASCII, the version does not parse
/// or there is no second piece.
pub open spec fn version_and_rest(t: Seq<char>) -> Option<(Seq<char>, i32)> {
    if !is_ascii_chars(t) {
        None
    } else {
        let i = find_in(t, 0, t.len() as int, name_separator());
        let first_end = if i < 0 {
            t.len() as int
        } else {
            i
        };
        match parse_i32(t.subrange(0, first_end)) {
            None => None,
            Some(v) => if i < 0 {
                None
            } else {
                let start = i + name_separator().len();
                let j = find_in(t, start, t.len() as int, name_separator());
                Some((t.subrange(start, if j < 0 { t.len() as int } else { j }), v))
            },
        }
    }
}

/// The name and version of a group directory such as `1__initial`.
pub open spec fn dir_name_parts_of(t: Seq<char>) -> Option<(Seq<char>, i32)> {
    version_and_rest(t)
}

/// The name and version of a migration file such as `1__create_author.sql`.
pub open spec fn migration_file_name_parts_of(t: Seq<char>) -> Option<(Seq<char>, i32)> {
    match version_and_rest(t) {
        None => None,
        Some((rest, v)) => {
            let n = sql_extension().len();
            if rest.len() >= n && rest.subrange(rest.len() - n, rest.len() as int)
                == sql_extension() {
                Some((rest.subrange(0, rest.len() - n), v))
            } else {
                None
            }
        },
    }
}

/// The extension of migration files.
pub open spec fn sql_extension() -> Seq<char> {
    ".sql"@
}

/// Bounds of the second piece of `s.split("__")` and the version of the first.
fn version_and_rest_exec(s: &str, v: &Vec<char>) -> (r: Option<(usize, usize, i32)>)
    requires
        v@ == s@,
    ensures
        match r {
            Some((a, b, ver)) => a <= b <= v@.len() && version_and_rest(s@) == Some(
                (s@.subrange(a as int, b as int), ver),
            ),
            None => version_and_rest(s@) is None,
        },
{
    if !s.is_ascii() {
        return None;
    }
    let sep = chars_of("__");
    let i = find_exec(v, 0, v.len(), &sep);
    proof {
        lemma_find_in(v@, 0, v@.len() as int, sep@);
    }
    let first_end = match i {
        Some(i) => i,
        None => v.len(),
    };
    let ver = match parse_i32_range(v, 0, first_end) {
        Some(ver) => ver,
        None => return None,
    };
    match i {
        None => None,
        Some(i) => {
            let start = i + sep.len();
            let j = find_exec(v, start, v.len(), &sep);
            proof {
                lemma_find_in(v@, start as int, v@.len() as int, sep@);
            }
            let end = match j {
                Some(j) => j,
                None => v.len(),
            };
            Some((start, end, ver))
        },
    }
}

/// The name and version of a group directory such as `1__initial`.
pub fn dir_name_parts(s: &str) -> (r: Result<(String, i32), Error>)
    ensures
        match r {
            Ok((name, version)) => dir_name_parts_of(s@) == Some((name@, version)),
            Err(e) => dir_name_parts_of(s@) is None && e is InvalidMigration,
        },
{
    let v = chars_of(s);
    match version_and_rest_exec(s, &v) {
        Some((a, b, ver)) => Ok((owned_range(s, a, b), ver)),
        None => Err(Error::InvalidMigration),
    }
}

/// The name and version of a migration file such as `1__create_author.sql`.
pub fn migration_file_name_parts(s: &str) -> (r: Result<(String, i32), Error>)
    ensures
        match r {
            Ok((name, version)) => migration_file_name_parts_of(s@) == Some((name@, version)),
            Err(e) => migration_file_name_parts_of(s@) is None && e is InvalidMigration,
        },
{
    let v = chars_of(s);
    match version_and_rest_exec(s, &v) {
        Some((a, b, ver)) => {
            let ext = chars_of(".sql");
            if b - a >= ext.len() && crate::text::range_equals(&v, b - ext.len(), b, &ext) {
                assert(v@.subrange(a as int, b as int).subrange(
                    (b - a) - ext@.len(),
                    (b - a) as int,
                ) == v@.subrange(b - ext@.len(), b as int));
                assert(v@.subrange(a as int, b as int).subrange(0, (b - a) - ext@.len())
                    == v@.subrange(a as int, b - ext@.len()));
                Ok((owned_range(s, a, b - ext.len()), ver))
            } else {
                proof {
                    let rest = v@.subrange(a as int, b as int);
                    let n = ext@.len() as int;
                    if rest.len() >= n && rest.subrange(rest.len() - n, rest.len() as int)
                        == sql_extension() {
                        assert(rest.subrange(rest.len() - n, rest.len() as int) == v@.subrange(
                            b - n,
                            b as int,
                        ));
                    }
                }
                Err(Error::InvalidMigration)
            }
        },
        None => Err(Error::InvalidMigration),
    }
}

/// The checksum of a migration: the SipHash 1-3 digest, with the keys 0 and 0, of the bytes
/// of its name, `UP` SQL and `DOWN` SQL (each as UTF-8 followed by a `0xff` byte) and of the
/// four little-endian bytes of its version, in that order.
pub uninterp spec fn sip13_checksum(name: Seq<char>, sql_up: Seq<char>, sql_down: Seq<char>, version: i32) -> u64;

/// `SipHasher13::new`, `<str as Hash>::hash` of `name`, `sql_up` and `sql_down`,
/// `Hasher::write` of the little-endian bytes of `version`, then `SipHasher13::finish`.
///
/// The contract claims that the digest is a function of the four arguments alone: the keys are
/// fixed, and every byte fed is one that the hasher reads the same way on every machine.
#[verifier::external_body]
fn sip13_checksum_of(name: &str, sql_up: &str, sql_down: &str, version: i32) -> (r: u64)
    ensures
        r == sip13_checksum(name@, sql_up@, sql_down@, version),
{
    let mut hasher = SipHasher13::new();
    name.hash(&mut hasher);
    sql_up.hash(&mut hasher);
    sql_down.hash(&mut hasher);
    hasher.write(&version.to_le_bytes());
    hasher.finish()
}

/// Calculate checksum
pub fn calc_checksum(name: &str, sql_up: &str, sql_down: &str, version: i32) -> (r: u64)
    ensures
        r == sip13_checksum(name@, sql_up@, sql_down@, version),
{
    sip13_checksum_of(name, sql_up, sql_down, version)
}

/// `n` as a `u64`.
pub fn usize_to_u64(n: usize) -> (r: u64)
    ensures
        r == n,
{
    n as u64
}

/// The ASCII digit of `d`, for `0 <= d <= 9`.
pub open spec fn digit_char(d: int) -> char {
    if d == 0 {
        '0'
    } else if d == 1 {
        '1'
    } else if d == 2 {
        '2'
    } else if d == 3 {
        '3'
    } else if d == 4 {
        '4'
    } else if d == 5 {
        '5'
    } else if d == 6 {
        '6'
    } else if d == 7 {
        '7'
    } else if d == 8 {
        '8'
    } else {
        '9'
    }
}

/// The shortest decimal digits of `n`.
pub open spec fn decimal_digits(n: nat) -> Seq<char>
    decreases n,
{
    if n < 10 {
        seq![digit_char(n as int)]
    } else {
        decimal_digits(n / 10).push(digit_char((n % 10) as int))
    }
}

/// The decimal text of `v`, with a `-` when it is negative.
pub open spec fn decimal(v: i32) -> Seq<char> {
    if v < 0 {
        seq!['-'] + decimal_digits((-v) as nat)
    } else {
        decimal_digits(v as nat)
    }
}

proof fn lemma_digit_char(d: int)
    requires
        0 <= d <= 9,
    ensures
        is_digit(digit_char(d)),
        digit_value(digit_char(d)) == d,
{
    assert(('0' as u32) == 48);
    assert(('9' as u32) == 57);
    if d == 0 {
    } else if d == 1 {
        assert(('1' as u32) == 49);
    } else if d == 2 {
        assert(('2' as u32) == 50);
    } else if d == 3 {
        assert(('3' as u32) == 51);
    } else if d == 4 {
        assert(('4' as u32) == 52);
    } else if d == 5 {
        assert(('5' as u32) == 53);
    } else if d == 6 {
        assert(('6' as u32) == 54);
    } else if d == 7 {
        assert(('7' as u32) == 55);
    } else if d == 8 {
        assert(('8' as u32) == 56);
    }
}

proof fn lemma_decimal_digits(n: nat)
    ensures
        all_digits(decimal_digits(n)),
        digits_value(decimal_digits(n)) == n,
        decimal_digits(n).len() >= 1,
    decreases n,
{
    lemma_digit_char((n % 10) as int);
    if n < 10 {
        assert(n % 10 == n);
        let t = decimal_digits(n);
        assert(t.drop_last() == Seq::<char>::empty());
        assert(digits_value(t) == digits_value(t.drop_last()) * 10 + digit_value(t.last()));
    } else {
        lemma_decimal_digits(n / 10);
        assert((n / 10) * 10 + n % 10 == n);
        let t = decimal_digits(n);
        assert(t.drop_last() == decimal_digits(n / 10));
        assert(t.last() == digit_char((n % 10) as int));
        assert(digits_value(t) == digits_value(t.drop_last()) * 10 + digit_value(t.last()));
        assert forall|i: int| 0 <= i < t.len() implies is_digit(#[trigger] t[i]) by {
            if i < t.len() - 1 {
                assert(t[i] == decimal_digits(n / 10)[i]);
            }
        }
    }
}

/// Reading back the decimal text of a version gives that version.
pub proof fn lemma_parse_decimal(v: i32)
    ensures
        parse_i32(decimal(v)) == Some(v),
        is_ascii_chars(decimal(v)),
        forall|i: int| 0 <= i < decimal(v).len() ==> #[trigger] decimal(v)[i] != '_',
{
    let t = decimal(v);
    if v < 0 {
        let d = decimal_digits((-v) as nat);
        lemma_decimal_digits((-v) as nat);
        assert(t.drop_first() == d);
        assert(t[0] == '-');
        assert forall|i: int| 0 <= i < t.len() implies #[trigger] t[i] != '_' && '\0' <= t[i]
            <= '\u{7f}' by {
            if i > 0 {
                assert(t[i] == d[i - 1]);
                assert(is_digit(d[i - 1]));
            }
        }
    } else {
        lemma_decimal_digits(v as nat);
        assert(is_digit(t[0]));
        assert forall|i: int| 0 <= i < t.len() implies #[trigger] t[i] != '_' && '\0' <= t[i]
            <= '\u{7f}' by {
            assert(is_digit(t[i]));
        }
    }
}

/// Law: the directory name `{version}__{name}` gives back the version and the name, for an
/// ASCII name in which `__` does not occur.
pub proof fn lemma_dir_name_parts_roundtrip(version: i32, name: Seq<char>)
    requires
        is_ascii_chars(name),
        find_in(name, 0, name.len() as int, name_separator()) < 0,
    ensures
        dir_name_parts_of(decimal(version) + name_separator() + name) == Some((name, version)),
{
    reveal_strlit("__");
    let d = decimal(version);
    let sep = name_separator();
    let t = d + sep + name;
    lemma_parse_decimal(version);
    assert(sep.len() == 2 && sep[0] == '_' && sep[1] == '_');
    assert(is_ascii_chars(t)) by {
        assert forall|i: int| 0 <= i < t.len() implies '\0' <= #[trigger] t[i] <= '\u{7f}' by {
            if i < d.len() {
                assert(t[i] == d[i]);
            } else if i >= d.len() + 2 {
                assert(t[i] == name[i - d.len() - 2]);
            }
        }
    }
    // The first `__` starts right after the version.
    assert(t.subrange(d.len() as int, d.len() + 2int) == sep);
    assert(occurs_at(t, d.len() as int, t.len() as int, sep));
    lemma_find_in_finds(t, 0, t.len() as int, sep, d.len() as int);
    let i = find_in(t, 0, t.len() as int, sep);
    if i < d.len() {
        lemma_find_in(t, 0, t.len() as int, sep);
        assert(t.subrange(i, i + 2)[0] == t[i]);
        assert(t[i] == d[i]);
    }
    assert(i == d.len());
    assert(t.subrange(0, i) == d);
    // No `__` follows, since the name holds none.
    let start = i + 2;
    let j = find_in(t, start, t.len() as int, sep);
    lemma_find_in(t, start, t.len() as int, sep);
    if j >= 0 {
        assert(t.subrange(j, j + 2) == name.subrange(j - start, j - start + 2));
        assert(occurs_at(name, j - start, name.len() as int, sep));
        lemma_find_in_finds(name, 0, name.len() as int, sep, j - start);
    }
    assert(t.subrange(start, t.len() as int) == name);
}

/// Law: the migration file name `{version}__{name}.sql` gives back the version and the name,
/// for an ASCII name in which, with the extension, `__` does not occur.
pub proof fn lemma_migration_file_name_parts_roundtrip(version: i32, name: Seq<char>)
    requires
        is_ascii_chars(name),
        find_in(name + sql_extension(), 0, (name + sql_extension()).len() as int, name_separator())
            < 0,
    ensures
        migration_file_name_parts_of(decimal(version) + name_separator() + name + sql_extension())
            == Some((name, version)),
{
    reveal_strlit(".sql");
    let rest = name + sql_extension();
    assert(is_ascii_chars(rest)) by {
        assert forall|i: int| 0 <= i < rest.len() implies '\0' <= #[trigger] rest[i] <= '\u{7f}' by {
            if i < name.len() {
                assert(rest[i] == name[i]);
            }
        }
    }
    lemma_dir_name_parts_roundtrip(version, rest);
    assert(decimal(version) + name_separator() + name + sql_extension() == decimal(version)
        + name_separator() + rest);
    let n = sql_extension().len() as int;
    assert(rest.subrange(rest.len() - n, rest.len() as int) == sql_extension());
    assert(rest.subrange(0, rest.len() - n) == name);
}

} // verus!
