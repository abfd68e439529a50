//! Read-only access to the package databases of a pacman-style distribution:
//! configuration, package descriptors, version ordering and upgrade planning.

pub mod config;
pub mod db;
pub mod text;
pub mod util;

use db::package::Package;
use db::pool::Pool;
use vstd::prelude::*;
use vstd::string::StringExecFns;

verus! {

/// The directory in which downloaded packages are kept.
pub open spec fn cache_dir() -> Seq<char> {
    "/var/cache/pacman/pkg/"@
}

/// The place of a package file in the cache.
pub open spec fn cache_path(filename: Seq<char>) -> Seq<char> {
    cache_dir() + filename
}

/// Where a package file is fetched from: from the cache where it lies
/// there, else from the server of its repository.
pub open spec fn fetch_url(server: Seq<char>, filename: Seq<char>, cached: bool) -> Seq<char> {
    if cached {
        "file://"@ + cache_path(filename)
    } else {
        server + "/"@ + filename
    }
}

/// The name of the file of a package, where the package names one that the
/// pool knows.
pub open spec fn file_name(pool: Seq<Seq<char>>, to: Package) -> Option<Seq<char>> {
    match to.filename {
        Some(h) => if h.id < pool.len() {
            Some(pool[h.id as int])
        } else {
            None
        },
        None => None,
    }
}

/// The place in the cache of the file of `to`, where the package names its
/// file.
pub fn cache_file(pool: &Pool, to: &Package) -> (r: Option<String>)
    ensures
        match r {
            Some(path) => file_name(pool@, *to) is Some && path@ == cache_path(
                file_name(pool@, *to).unwrap(),
            ),
            None => file_name(pool@, *to) is None,
        },
{
    let handle = match to.filename {
        Some(h) => h,
        None => {
            return None;
        },
    };
    match pool.resolve(handle) {
        Some(name) => {
            let mut path = String::from_str("/var/cache/pacman/pkg/");
            path.append(name);
            Some(path)
        },
        None => None,
    }
}

/// The server of the repository `name` among `repos`: that of the first
/// entry of this name.
pub open spec fn server_of(repos: Seq<(String, String)>, name: Seq<char>) -> Option<Seq<char>> {
    config::content_of(repos, name)
}

/// Finds the server of the repository `name`.
pub fn find_server<'r>(repos: &'r [(String, String)], name: &str) -> (r: Option<&'r str>)
    ensures
        match r {
            Some(url) => server_of(repos@, name@) == Some(url@),
            None => server_of(repos@, name@) is None,
        },
{
    config::find_content(repos, name)
}

/// The address of one upgrade: `None` where the package names no file or its
/// repository has no server.
pub open spec fn step_url(
    pool: Seq<Seq<char>>,
    repos: Seq<(String, String)>,
    repo: Seq<char>,
    to: Package,
    cached: bool,
) -> Option<Seq<char>> {
    match (file_name(pool, to), server_of(repos, repo)) {
        (Some(filename), Some(server)) => Some(fetch_url(server, filename, cached)),
        _ => None,
    }
}

/// Makes the address of one upgrade.
pub fn upgrade_url(
    pool: &Pool,
    repos: &[(String, String)],
    repo: &str,
    to: &Package,
    cached: bool,
) -> (r: Option<String>)
    ensures
        match r {
            Some(url) => step_url(pool@, repos@, repo@, *to, cached) == Some(url@),
            None => step_url(pool@, repos@, repo@, *to, cached) is None,
        },
{
    let handle = match to.filename {
        Some(h) => h,
        None => {
            return None;
        },
    };
    let filename = match pool.resolve(handle) {
        Some(name) => name,
        None => {
            return None;
        },
    };
    let server = match find_server(repos, repo) {
        Some(s) => s,
        None => {
            return None;
        },
    };
    if cached {
        let mut url = String::from_str("file://");
        url.append("/var/cache/pacman/pkg/");
        url.append(filename);
        proof {
            assert(url@ =~= "file://"@ + cache_path(filename@));
        }
        Some(url)
    } else {
        let mut url = String::from_str(server);
        url.append("/");
        url.append(filename);
        Some(url)
    }
}

/// The addresses of the planned upgrades `ups`, each with its two packages.
/// `repos` are the repositories with their servers, and `cached[k]` says
/// whether the file of upgrade `k` lies in the cache. Fails where a package
/// names no file or a repository has no server.
pub fn upgrade_urls<'db>(
    pool: &Pool,
    ups: &Vec<(&'db str, &'db Package, &'db Package)>,
    repos: &[(String, String)],
    cached: &[bool],
) -> (r: Result<Vec<(String, &'db Package, &'db Package)>, ()>)
    requires
        cached@.len() == ups@.len(),
    ensures
        r is Ok <==> forall|k: int|
            0 <= k < ups@.len() ==> step_url(
                pool@,
                repos@,
                (#[trigger] ups@[k]).0@,
                *ups@[k].2,
                cached@[k],
            ) is Some,
        r matches Ok(v) ==> v@.len() == ups@.len() && forall|k: int|
            0 <= k < ups@.len() ==> {
                &&& step_url(pool@, repos@, ups@[k].0@, *ups@[k].2, cached@[k]) == Some(
                    (#[trigger] v@[k]).0@,
                )
                &&& v@[k].1 == ups@[k].1
                &&& v@[k].2 == ups@[k].2
            },
{
    let mut v: Vec<(String, &'db Package, &'db Package)> = Vec::new();
    let mut k: usize = 0;
    while k < ups.len()
        invariant
            k <= ups@.len(),
            cached@.len() == ups@.len(),
            v@.len() == k,
            forall|j: int|
                0 <= j < k ==> {
                    &&& step_url(pool@, repos@, ups@[j].0@, *ups@[j].2, cached@[j]) == Some(
                        (#[trigger] v@[j]).0@,
                    )
                    &&& v@[j].1 == ups@[j].1
                    &&& v@[j].2 == ups@[j].2
                },
        decreases ups@.len() - k,
    {
        let (repo, from, to) = ups[k];
        match upgrade_url(pool, repos, repo, to, cached[k]) {
            Some(url) => {
                v.push((url, from, to));
            },
            None => {
                return Err(());
            },
        }
        k = k + 1;
    }
    assert forall|j: int| 0 <= j < ups@.len() implies step_url(
        pool@,
        repos@,
        (#[trigger] ups@[j]).0@,
        *ups@[j].2,
        cached@[j],
    ) is Some by {
        assert(step_url(pool@, repos@, ups@[j].0@, *ups@[j].2, cached@[j]) == Some(v@[j].0@));
    }
    Ok(v)
}

/// The names among the first `n` repositories that stand in `filter`, in
/// the order of the repositories.
pub open spec fn chosen(repos: Seq<(String, String)>, filter: Seq<Seq<char>>, n: int) -> Seq<
    Seq<char>,
>
    decreases n,
{
    if n <= 0 {
        Seq::empty()
    } else if filter.contains(repos[n - 1].0@) {
        chosen(repos, filter, n - 1).push(repos[n - 1].0@)
    } else {
        chosen(repos, filter, n - 1)
    }
}

/// Picks the repositories that `db_filter` names.
pub fn filter_repos<'r>(repos: &'r [(String, String)], db_filter: &Vec<&str>) -> (v: Vec<&'r str>)
    ensures
        text::strs_view(v@) == chosen(repos@, text::strs_view(db_filter@), repos@.len() as int),
{
    let mut v: Vec<&'r str> = Vec::new();
    let mut k: usize = 0;
    proof {
        assert(text::strs_view(v@) =~= Seq::empty());
    }
    while k < repos.len()
        invariant
            k <= repos@.len(),
            text::strs_view(v@) == chosen(repos@, text::strs_view(db_filter@), k as int),
        decreases repos@.len() - k,
    {
        let name = repos[k].0.as_str();
        if config::contains_str(db_filter, name) {
            let ghost before = text::strs_view(v@);
            v.push(name);
            proof {
                assert(text::strs_view(v@) =~= before.push(name@));
            }
        }
        k = k + 1;
    }
    v
}

} // verus!
