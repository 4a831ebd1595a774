//! The settings from which the connection of each back end is opened.

use vstd::prelude::*;
use vstd::string::*;

use crate::backend::{Backend, BackendGeneric};
use crate::database::Database;
use crate::text::{
    chars_of, find_char, find_char_exec, find_exec, find_in, lemma_find_char, lemma_find_in,
    owned_range, range_equals, rfind_exec, rfind_in, lemma_rfind_in, split_second,
    split_second_exec, contains, occurs_at, lemma_not_contains, lemma_rfind_in_last,
    lemma_find_in_first, lemma_rfind_in_nothing_after, lemma_rfind_in_shift, agree,
    lemma_find_in_finds,
};

verus! {

/// The separator of the scheme of a URL.
pub open spec fn scheme_separator() -> Seq<char> {
    "://"@
}

/// The parameter of a URL that names a file of root certificates.
pub open spec fn sslrootcert_param() -> Seq<char> {
    "sslrootcert="@
}

/// The parameter of a URL that tells to trust the server's certificate.
pub open spec fn trust_server_certificate_param() -> Seq<char> {
    "trustServerCertificate="@
}

/// `url.rsplit("://").next()`: the text after the last `://`, or the whole URL.
pub open spec fn sqlite_path(url: Seq<char>) -> Seq<char> {
    let k = rfind_in(url, 0, url.len() as int, scheme_separator());
    if k < 0 {
        url
    } else {
        url.subrange(k + scheme_separator().len(), url.len() as int)
    }
}

/// A URL without its `sslrootcert` parameter, and the file that parameter names.
///
/// The parameter's value runs from `sslrootcert=` to the first `&` (or to the next
/// `sslrootcert=`, or the end); the text after that `&` is kept, and so is the text before
/// `sslrootcert=`. Text from a second `sslrootcert=` on is dropped.
pub open spec fn split_sslrootcert(url: Seq<char>) -> (Seq<char>, Option<Seq<char>>) {
    let n = url.len() as int;
    let i = find_in(url, 0, n, sslrootcert_param());
    if i < 0 {
        (url, None)
    } else {
        let start = i + sslrootcert_param().len();
        let j = find_in(url, start, n, sslrootcert_param());
        let end = if j < 0 {
            n
        } else {
            j
        };
        let amp = find_char(url, start, end, '&');
        if amp < 0 {
            (url.subrange(0, i), Some(url.subrange(start, end)))
        } else {
            (url.subrange(0, i) + url.subrange(amp + 1, end), Some(url.subrange(start, amp)))
        }
    }
}

/// Whether the `trustServerCertificate` parameter of `url` parses as `true`: the text after
/// the first `trustServerCertificate=` (up to a second one, or the end) is exactly `true`.
pub open spec fn trusts_server_certificate(url: Seq<char>) -> bool {
    match split_second(url, 0, url.len() as int, trust_server_certificate_param()) {
        Some((a, b)) => url.subrange(a, b) == "true"@,
        None => false,
    }
}

/// Law: the database file of `scheme://path` is `path` itself, whatever the scheme, when
/// `path` holds no further `://`; an absolute path keeps its leading `/`.
pub proof fn lemma_sqlite_path_after_scheme(scheme: Seq<char>, path: Seq<char>)
    requires
        !contains(path, "://"@),
    ensures
        sqlite_path(scheme + "://"@ + path) == path,
{
    reveal_strlit("://");
    let sep = scheme_separator();
    let url = scheme + sep + path;
    let n = url.len() as int;
    let k0 = scheme.len() as int;
    assert(url.subrange(k0, k0 + 3) =~= sep);
    assert forall|i: int| k0 < i && i + sep.len() <= n implies !#[trigger] occurs_at(
        url,
        i,
        n,
        sep,
    ) by {
        if i < k0 + 3 {
            assert(url[i] == '/');
            assert(url.subrange(i, i + 3)[0] == url[i]);
        } else {
            lemma_not_contains(path, sep, i - k0 - 3);
            assert(url.subrange(i, i + 3) =~= path.subrange(i - k0 - 3, i - k0));
        }
    }
    lemma_rfind_in_last(url, 0, n, sep, k0);
    assert(url.subrange(k0 + 3, n) =~= path);
}

/// Law: only the text after the last `://` names the database file: whatever precedes a
/// text `b` that holds `://`, the path is the one `b` alone gives.
pub proof fn lemma_sqlite_path_after_last_separator(a: Seq<char>, b: Seq<char>)
    requires
        contains(b, "://"@),
    ensures
        sqlite_path(a + b) == sqlite_path(b),
{
    reveal_strlit("://");
    let sep = scheme_separator();
    let t = a + b;
    let n = t.len() as int;
    let ka = a.len() as int;
    let nb = b.len() as int;
    lemma_find_in(b, 0, nb, sep);
    let f = find_in(b, 0, nb, sep);
    lemma_rfind_in_nothing_after(b, 0, nb, sep);
    assert(occurs_at(b, f, nb, sep));
    let rb = rfind_in(b, 0, nb, sep);
    assert(rb >= f);
    assert(agree(t, b, ka, 0, nb));
    lemma_rfind_in_shift(t, b, ka, 0, nb, sep);
    let k = rb + ka;
    lemma_rfind_in(t, ka, n, sep);
    lemma_rfind_in_nothing_after(t, ka, n, sep);
    lemma_rfind_in_last(t, 0, n, sep, k);
    assert(t.subrange(k + 3, n) =~= b.subrange(rb + 3, nb));
}

/// Law: when `trustServerCertificate=` occurs once in a URL, the server's certificate is
/// trusted exactly when the text after it is `true`, whatever comes before it (the first
/// parameter or any later one).
pub proof fn lemma_trust_server_certificate_value(prefix: Seq<char>, value: Seq<char>)
    requires
        !contains(prefix, "trustServerCertificate="@),
        !contains(value, "trustServerCertificate="@),
    ensures
        trusts_server_certificate(prefix + "trustServerCertificate="@ + value) == (value
            == "true"@),
{
    reveal_strlit("trustServerCertificate=");
    let param = trust_server_certificate_param();
    let url = prefix + param + value;
    let n = url.len() as int;
    let k0 = prefix.len() as int;
    assert(param.len() == 23);
    assert(url.subrange(k0, k0 + 23) =~= param);
    assert forall|i: int| 0 <= i < k0 implies !#[trigger] occurs_at(url, i, n, param) by {
        if i + 23 <= k0 {
            lemma_not_contains(prefix, param, i);
            assert(url.subrange(i, i + 23) =~= prefix.subrange(i, i + 23));
        } else if i + 23 <= n {
            let j = i + 22 - k0;
            assert(0 <= j < 22);
            assert(url[i + 22] == param[j]);
            assert(param[j] != '=');
            assert(url.subrange(i, i + 23)[22] == url[i + 22]);
        }
    }
    lemma_find_in_first(url, 0, n, param, k0);
    let start = k0 + 23;
    assert forall|i: int| start <= i && i + 23 <= n implies !#[trigger] occurs_at(
        url,
        i,
        n,
        param,
    ) by {
        lemma_not_contains(value, param, i - start);
        assert(url.subrange(i, i + 23) =~= value.subrange(i - start, i - start + 23));
    }
    lemma_find_in(url, start, n, param);
    assert(url.subrange(start, n) =~= value);
}

/// Wraps functionalities for the `mysql_async` crate: the URL its pool connects to.
#[derive(Debug)]
pub struct MysqlAsync {
    /// The URL of the database
    pub url: String,
}

/// Wraps functionalities for the `rusqlite` crate: the database file it opens.
#[derive(Debug)]
pub struct Rusqlite {
    /// The path of the database file
    pub path: String,
}

/// Wraps functionalities for the `tokio-postgres` crate: the URL it connects to and the file
/// of root certificates its TLS connector trusts.
#[derive(Debug)]
pub struct TokioPostgres {
    /// The URL of the database, without `sslrootcert`
    pub url: String,
    /// The file of root certificates named by `sslrootcert`
    pub root_cert_path: Option<String>,
}

/// Wraps functionalities for the `tiberius` crate: whether its client trusts the server's
/// certificate.
#[derive(Debug)]
pub struct Tiberius {
    /// The URL of the database
    pub url: String,
    /// Whether the server's certificate is trusted without validation
    pub trust_cert: bool,
}

impl MysqlAsync {
    /// The settings of a connection to `url`.
    pub fn new(url: &str) -> (r: Self)
        ensures
            r.url@ == url@,
    {
        MysqlAsync { url: String::from_str(url) }
    }
}

impl Rusqlite {
    /// The settings of a connection to the database file that `url` names.
    pub fn new(url: &str) -> (r: Self)
        ensures
            r.path@ == sqlite_path(url@),
    {
        let s = chars_of(url);
        let sep = chars_of("://");
        match rfind_exec(&s, 0, s.len(), &sep) {
            Some(k) => {
                proof {
                    lemma_rfind_in(s@, 0, s@.len() as int, sep@);
                }
                Rusqlite { path: owned_range(url, k + sep.len(), s.len()) }
            },
            None => Rusqlite { path: String::from_str(url) },
        }
    }
}

impl TokioPostgres {
    /// The settings of a connection to `url`, whose `sslrootcert` parameter is taken out.
    pub fn new(url: &str) -> (r: Self)
        ensures
            (r.url@, match r.root_cert_path {
                Some(p) => Some(p@),
                None => None,
            }) == split_sslrootcert(url@),
    {
        let (url, root_cert_path) = manage_sslrootcert(url);
        TokioPostgres { url, root_cert_path }
    }
}

/// Takes the `sslrootcert` parameter out of `orig_url` (see `split_sslrootcert`).
pub fn manage_sslrootcert(orig_url: &str) -> (r: (String, Option<String>))
    ensures
        (r.0@, match r.1 {
            Some(p) => Some(p@),
            None => None,
        }) == split_sslrootcert(orig_url@),
{
    let s = chars_of(orig_url);
    let param = chars_of("sslrootcert=");
    let n = s.len();
    match find_exec(&s, 0, n, &param) {
        None => (String::from_str(orig_url), None),
        Some(i) => {
            proof {
                lemma_find_in(s@, 0, n as int, param@);
            }
            let start = i + param.len();
            let end = match find_exec(&s, start, n, &param) {
                Some(j) => {
                    proof {
                        lemma_find_in(s@, start as int, n as int, param@);
                    }
                    j
                },
                None => n,
            };
            let before = owned_range(orig_url, 0, i);
            match find_char_exec(&s, start, end, '&') {
                None => (before, Some(owned_range(orig_url, start, end))),
                Some(amp) => {
                    let after = owned_range(orig_url, amp + 1, end);
                    let url = before.concat(after.as_str());
                    (url, Some(owned_range(orig_url, start, amp)))
                },
            }
        },
    }
}

impl Tiberius {
    /// The settings of a connection to `url`.
    pub fn new(url: &str) -> (r: Self)
        ensures
            r.url@ == url@,
            r.trust_cert == trusts_server_certificate(url@),
    {
        Tiberius { url: String::from_str(url), trust_cert: trust_server_certificate(url) }
    }
}

/// Whether `url` tells to trust the server's certificate (see `trusts_server_certificate`).
pub fn trust_server_certificate(url: &str) -> (r: bool)
    ensures
        r == trusts_server_certificate(url@),
{
    let s = chars_of(url);
    let param = chars_of("trustServerCertificate=");
    match split_second_exec(&s, 0, s.len(), &param) {
        Some((a, b)) => range_equals(&s, a, b, &chars_of("true")),
        None => false,
    }
}

impl BackendGeneric for MysqlAsync {
    open spec fn spec_database() -> Database {
        Database::Mysql
    }

    fn database() -> (r: Database) {
        Database::Mysql
    }
}

impl Backend for MysqlAsync {

}

impl BackendGeneric for Rusqlite {
    open spec fn spec_database() -> Database {
        Database::Sqlite
    }

    fn database() -> (r: Database) {
        Database::Sqlite
    }
}

impl Backend for Rusqlite {

}

impl BackendGeneric for TokioPostgres {
    open spec fn spec_database() -> Database {
        Database::Pg
    }

    fn database() -> (r: Database) {
        Database::Pg
    }
}

impl Backend for TokioPostgres {

}

impl BackendGeneric for Tiberius {
    open spec fn spec_database() -> Database {
        Database::Mssql
    }

    fn database() -> (r: Database) {
        Database::Mssql
    }
}

impl Backend for Tiberius {

}

/// A row of the query of all tables.
#[derive(Debug, PartialEq, Eq)]
pub struct AllTables {
    /// The table's name
    pub table_name: String,
}

} // verus!
