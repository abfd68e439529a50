//! The update planner: which installed package gives way to which package of
//! a repository.

use crate::db::database::Database;
use crate::db::order::{version_less, version_lt};
use crate::db::package::Package;
use crate::db::pool::{Istr, Pool};
use crate::db::version::{parse_version, versionparse, Version, VersionView};
use vstd::prelude::*;
use vstd::std_specs::hash::group_hash_axioms;

verus! {

/// A repository: its name and its packages.
#[derive(Debug)]
pub struct Repo {
    pub name: String,
    pub db: Database,
}

/// One step of a plan: the installed package `from` gives way to the package
/// `to` of the repository `repo`.
pub struct Step {
    pub repo: Seq<char>,
    pub from: Package,
    pub to: Package,
}

/// The decomposed version of a package, where the pool knows its version
/// text and the text has one.
pub open spec fn version_of(pool: Seq<Seq<char>>, p: Package) -> Option<VersionView> {
    if p.version.id < pool.len() {
        parse_version(pool[p.version.id as int])
    } else {
        None
    }
}

/// The package `to` of a repository takes the place of the installed package
/// `from`: it has the same name and a later version, or it has another name
/// and replaces that of `from`. Versions play no part in a replacement.
pub open spec fn is_upgrade(pool: Seq<Seq<char>>, from: Package, to: Package) -> bool {
    if to.name == from.name {
        version_lt(version_of(pool, from).unwrap(), version_of(pool, to).unwrap())
    } else {
        to.replaced().contains(from.name.id)
    }
}

/// The package `to` of a repository is an older form of the installed package
/// `from`: it has the same name and an earlier version.
pub open spec fn is_downgrade(pool: Seq<Seq<char>>, from: Package, to: Package) -> bool {
    to.name == from.name && version_lt(
        version_of(pool, to).unwrap(),
        version_of(pool, from).unwrap(),
    )
}

/// What a plan looks for.
#[derive(Clone, Copy, Debug, PartialEq, Eq, Structural)]
pub enum Want {
    /// The packages that take the place of installed ones.
    Upgrades,
    /// The packages that are older than the installed ones of their name.
    Downgrades,
}

/// The package `to` is what the plan looks for, for the installed `from`.
pub open spec fn is_step(want: Want, pool: Seq<Seq<char>>, from: Package, to: Package) -> bool {
    match want {
        Want::Upgrades => is_upgrade(pool, from, to),
        Want::Downgrades => is_downgrade(pool, from, to),
    }
}

/// The steps that the first `n` packages of a repository give for `from`.
pub open spec fn entries_plan(
    want: Want,
    pool: Seq<Seq<char>>,
    repo: Seq<char>,
    from: Package,
    entries: Seq<Package>,
    n: int,
) -> Seq<Step>
    decreases n,
{
    if n <= 0 {
        Seq::empty()
    } else {
        let rest = entries_plan(want, pool, repo, from, entries, n - 1);
        if is_step(want, pool, from, entries[n - 1]) {
            rest.push(Step { repo, from, to: entries[n - 1] })
        } else {
            rest
        }
    }
}

/// The steps that the first `m` repositories give for `from`.
pub open spec fn repos_plan(
    want: Want,
    pool: Seq<Seq<char>>,
    from: Package,
    syncs: Seq<Repo>,
    m: int,
) -> Seq<Step>
    decreases m,
{
    if m <= 0 {
        Seq::empty()
    } else {
        repos_plan(want, pool, from, syncs, m - 1) + entries_plan(
            want,
            pool,
            syncs[m - 1].name@,
            from,
            syncs[m - 1].db@,
            syncs[m - 1].db@.len() as int,
        )
    }
}

/// The steps that the first `k` installed packages give. A package whose
/// name is in `ignore` gives none.
pub open spec fn local_plan(
    want: Want,
    pool: Seq<Seq<char>>,
    local: Seq<Package>,
    syncs: Seq<Repo>,
    ignore: Seq<Istr>,
    k: int,
) -> Seq<Step>
    decreases k,
{
    if k <= 0 {
        Seq::empty()
    } else {
        let rest = local_plan(want, pool, local, syncs, ignore, k - 1);
        if ignore.contains(local[k - 1].name) {
            rest
        } else {
            rest + repos_plan(want, pool, local[k - 1], syncs, syncs.len() as int)
        }
    }
}

/// The plan: for each installed package that is not ignored, in their order,
/// for each repository, in their order, for each of its packages, in their
/// order, a step where the one takes the place of the other.
pub open spec fn plan(
    want: Want,
    pool: Seq<Seq<char>>,
    local: Seq<Package>,
    syncs: Seq<Repo>,
    ignore: Seq<Istr>,
) -> Seq<Step> {
    local_plan(want, pool, local, syncs, ignore, local.len() as int)
}

/// The versions that the plan has to compare can all be decomposed: that of
/// every installed package which is not ignored, and that of every package of
/// a repository which has the name of such a package.
pub open spec fn versions_decompose(
    pool: Seq<Seq<char>>,
    local: Seq<Package>,
    syncs: Seq<Repo>,
    ignore: Seq<Istr>,
) -> bool {
    forall|i: int|
        0 <= i < local.len() && !ignore.contains((#[trigger] local[i]).name) ==> {
            &&& version_of(pool, local[i]) is Some
            &&& forall|r: int, j: int|
                0 <= r < syncs.len() && 0 <= j < syncs[r].db@.len() && (
                #[trigger] syncs[r].db@[j]).name == local[i].name ==> version_of(
                    pool,
                    syncs[r].db@[j],
                ) is Some
        }
}

/// The steps that a list of planned upgrades stands for.
pub open spec fn steps_of(ups: Seq<(&str, &Package, &Package)>) -> Seq<Step> {
    ups.map_values(|t: (&str, &Package, &Package)| Step { repo: t.0@, from: *t.1, to: *t.2 })
}

/// Whether `h` is among `hs`.
pub fn contains_handle(hs: &[Istr], h: Istr) -> (r: bool)
    ensures
        r == hs@.contains(h),
{
    let mut k: usize = 0;
    while k < hs.len()
        invariant
            k <= hs@.len(),
            forall|j: int| 0 <= j < k ==> hs@[j] != h,
        decreases hs@.len() - k,
    {
        if hs[k].id == h.id {
            return true;
        }
        k = k + 1;
    }
    false
}

/// Every package of `entries` that has the name of `from` has a version that
/// can be decomposed.
pub open spec fn namesakes_decompose(
    pool: Seq<Seq<char>>,
    from: Package,
    entries: Seq<Package>,
) -> bool {
    forall|j: int|
        0 <= j < entries.len() && (#[trigger] entries[j]).name == from.name ==> version_of(
            pool,
            entries[j],
        ) is Some
}

/// Adds to `ups` the steps that one repository gives for `from`. Fails where
/// a package of the repository has the name of `from` and a version that
/// cannot be decomposed.
pub fn plan_repo<'db>(
    want: Want,
    pool: &Pool,
    from: &'db Package,
    from_version: &Version,
    repo: &'db Repo,
    ups: &mut Vec<(&'db str, &'db Package, &'db Package)>,
) -> (r: Result<(), ()>)
    requires
        version_of(pool@, *from) == Some(from_version@),
    ensures
        r is Ok <==> namesakes_decompose(pool@, *from, repo.db@),
        r is Ok ==> steps_of(final(ups)@) == steps_of(old(ups)@) + entries_plan(
            want,
            pool@,
            repo.name@,
            *from,
            repo.db@,
            repo.db@.len() as int,
        ),
{
    broadcast use group_hash_axioms;

    let n = repo.db.len();
    let mut j: usize = 0;
    let ghost start = steps_of(ups@);
    proof {
        assert(start + entries_plan(want, pool@, repo.name@, *from, repo.db@, 0) =~= start);
    }
    while j < n
        invariant
            j <= n,
            n == repo.db@.len(),
            version_of(pool@, *from) == Some(from_version@),
            namesakes_decompose(pool@, *from, repo.db@.take(j as int)),
            steps_of(ups@) == start + entries_plan(
                want,
                pool@,
                repo.name@,
                *from,
                repo.db@,
                j as int,
            ),
        decreases n - j,
    {
        let to = repo.db.at(j);
        let ghost before = steps_of(ups@);
        let wanted = if to.name.id == from.name.id {
            let text = match pool.resolve(to.version) {
                Some(t) => t,
                None => {
                    return Err(());
                },
            };
            match versionparse(text) {
                Ok(v) => match want {
                    Want::Upgrades => version_less(from_version, &v),
                    Want::Downgrades => version_less(&v, from_version),
                },
                Err(_) => {
                    return Err(());
                },
            }
        } else {
            match (want, &to.replaces) {
                (Want::Upgrades, Some(set)) => set.contains(&from.name.id),
                _ => false,
            }
        };
        assert(wanted == is_step(want, pool@, *from, *to));
        if wanted {
            ups.push((repo.name.as_str(), from, to));
            proof {
                assert(steps_of(ups@) =~= before.push(
                    Step { repo: repo.name@, from: *from, to: *to },
                ));
            }
        }
        proof {
            assert(repo.db@.take(j + 1) =~= repo.db@.take(j as int).push(repo.db@[j as int]));
            assert forall|k: int|
                0 <= k < j + 1 && (#[trigger] repo.db@.take(j + 1)[k]).name
                    == from.name implies version_of(pool@, repo.db@.take(j + 1)[k]) is Some by {
                if k < j {
                    assert(repo.db@.take(j as int)[k] == repo.db@.take(j + 1)[k]);
                }
            }
        }
        j = j + 1;
    }
    proof {
        assert(repo.db@.take(j as int) =~= repo.db@);
    }
    Ok(())
}

/// The version of `from` and those of its namesakes in every repository can
/// be decomposed.
pub open spec fn package_decomposes(pool: Seq<Seq<char>>, from: Package, syncs: Seq<Repo>) -> bool {
    &&& version_of(pool, from) is Some
    &&& forall|r: int|
        0 <= r < syncs.len() ==> namesakes_decompose(pool, from, (#[trigger] syncs[r]).db@)
}

/// Adds to `ups` the steps that the repositories give for `from`.
pub fn plan_package<'db>(
    want: Want,
    pool: &Pool,
    from: &'db Package,
    syncs: &'db [Repo],
    ups: &mut Vec<(&'db str, &'db Package, &'db Package)>,
) -> (r: Result<(), ()>)
    ensures
        r is Ok <==> package_decomposes(pool@, *from, syncs@),
        r is Ok ==> steps_of(final(ups)@) == steps_of(old(ups)@) + repos_plan(
            want,
            pool@,
            *from,
            syncs@,
            syncs@.len() as int,
        ),
{
    let text = match pool.resolve(from.version) {
        Some(t) => t,
        None => {
            return Err(());
        },
    };
    let from_version = match versionparse(text) {
        Ok(v) => v,
        Err(_) => {
            return Err(());
        },
    };
    let ghost start = steps_of(ups@);
    proof {
        assert(start + repos_plan(want, pool@, *from, syncs@, 0) =~= start);
    }
    let mut r: usize = 0;
    while r < syncs.len()
        invariant
            r <= syncs@.len(),
            version_of(pool@, *from) == Some(from_version@),
            forall|q: int|
                0 <= q < r ==> namesakes_decompose(pool@, *from, (#[trigger] syncs@[q]).db@),
            steps_of(ups@) == start + repos_plan(want, pool@, *from, syncs@, r as int),
        decreases syncs@.len() - r,
    {
        let ghost before = steps_of(ups@);
        match plan_repo(want, pool, from, &from_version, &syncs[r], ups) {
            Ok(_) => {},
            Err(_) => {
                return Err(());
            },
        }
        proof {
            let added = entries_plan(
                want,
                pool@,
                syncs@[r as int].name@,
                *from,
                syncs@[r as int].db@,
                syncs@[r as int].db@.len() as int,
            );
            assert(start + repos_plan(want, pool@, *from, syncs@, r + 1) =~= before + added);
        }
        r = r + 1;
    }
    Ok(())
}

/// Makes a plan: the steps of `plan`, each with the name of its repository
/// and the two packages. Fails where a version that the plan has to compare
/// cannot be decomposed, or is not known to the pool.
pub fn plan_steps<'db>(
    want: Want,
    pool: &Pool,
    local: &'db Database,
    syncs: &'db [Repo],
    ignore: &[Istr],
) -> (r: Result<Vec<(&'db str, &'db Package, &'db Package)>, ()>)
    ensures
        r is Ok <==> versions_decompose(pool@, local@, syncs@, ignore@),
        r matches Ok(ups) ==> steps_of(ups@) == plan(want, pool@, local@, syncs@, ignore@),
{
    let mut ups: Vec<(&'db str, &'db Package, &'db Package)> = Vec::new();
    let n = local.len();
    let mut i: usize = 0;
    proof {
        assert(steps_of(ups@) =~= Seq::empty());
    }
    while i < n
        invariant
            i <= n,
            n == local@.len(),
            forall|k: int|
                0 <= k < i && !ignore@.contains((#[trigger] local@[k]).name) ==> package_decomposes(
                    pool@,
                    local@[k],
                    syncs@,
                ),
            steps_of(ups@) == local_plan(want, pool@, local@, syncs@, ignore@, i as int),
        decreases n - i,
    {
        let from = local.at(i);
        if !contains_handle(ignore, from.name) {
            match plan_package(want, pool, from, syncs, &mut ups) {
                Ok(_) => {},
                Err(_) => {
                    proof {
                        lemma_decompose_fails(pool@, local@, syncs@, ignore@, i as int);
                    }
                    return Err(());
                },
            }
        }
        i = i + 1;
    }
    proof {
        lemma_decompose_holds(pool@, local@, syncs@, ignore@);
    }
    Ok(ups)
}

/// Plans the upgrades: for each installed package that is not ignored, the
/// packages of the repositories that take its place. Fails where a version
/// that the plan has to compare cannot be decomposed, or is not known to the
/// pool.
pub fn update_candidates<'db>(
    pool: &Pool,
    local: &'db Database,
    syncs: &'db [Repo],
    ignore: &[Istr],
) -> (r: Result<Vec<(&'db str, &'db Package, &'db Package)>, ()>)
    ensures
        r is Ok <==> versions_decompose(pool@, local@, syncs@, ignore@),
        r matches Ok(ups) ==> steps_of(ups@) == plan(
            Want::Upgrades,
            pool@,
            local@,
            syncs@,
            ignore@,
        ),
{
    plan_steps(Want::Upgrades, pool, local, syncs, ignore)
}

/// Finds the downgrades that the repositories offer: for each installed
/// package that is not ignored, the packages of its name with an earlier
/// version. None of them is a step of the plan of upgrades; a caller may warn
/// of them.
pub fn downgrade_candidates<'db>(
    pool: &Pool,
    local: &'db Database,
    syncs: &'db [Repo],
    ignore: &[Istr],
) -> (r: Result<Vec<(&'db str, &'db Package, &'db Package)>, ()>)
    ensures
        r is Ok <==> versions_decompose(pool@, local@, syncs@, ignore@),
        r matches Ok(downs) ==> steps_of(downs@) == plan(
            Want::Downgrades,
            pool@,
            local@,
            syncs@,
            ignore@,
        ),
{
    plan_steps(Want::Downgrades, pool, local, syncs, ignore)
}

/// An installed package that is not ignored and has a version, or a namesake
/// with a version, which cannot be decomposed makes the plan fail.
proof fn lemma_decompose_fails(
    pool: Seq<Seq<char>>,
    local: Seq<Package>,
    syncs: Seq<Repo>,
    ignore: Seq<Istr>,
    i: int,
)
    requires
        0 <= i < local.len(),
        !ignore.contains(local[i].name),
        !package_decomposes(pool, local[i], syncs),
    ensures
        !versions_decompose(pool, local, syncs, ignore),
{
    if versions_decompose(pool, local, syncs, ignore) {
        assert(version_of(pool, local[i]) is Some);
        assert forall|r: int| 0 <= r < syncs.len() implies namesakes_decompose(
            pool,
            local[i],
            (#[trigger] syncs[r]).db@,
        ) by {
            assert forall|j: int|
                0 <= j < syncs[r].db@.len() && (#[trigger] syncs[r].db@[j]).name
                    == local[i].name implies version_of(pool, syncs[r].db@[j]) is Some by {}
        }
    }
}

/// Where each installed package that is not ignored decomposes together with
/// its namesakes, every version that the plan compares does.
proof fn lemma_decompose_holds(
    pool: Seq<Seq<char>>,
    local: Seq<Package>,
    syncs: Seq<Repo>,
    ignore: Seq<Istr>,
)
    requires
        forall|k: int|
            0 <= k < local.len() && !ignore.contains((#[trigger] local[k]).name)
                ==> package_decomposes(pool, local[k], syncs),
    ensures
        versions_decompose(pool, local, syncs, ignore),
{
    assert forall|i: int|
        0 <= i < local.len() && !ignore.contains((#[trigger] local[i]).name) implies {
        &&& version_of(pool, local[i]) is Some
        &&& forall|r: int, j: int|
            0 <= r < syncs.len() && 0 <= j < syncs[r].db@.len() && (
            #[trigger] syncs[r].db@[j]).name == local[i].name ==> version_of(
                pool,
                syncs[r].db@[j],
            ) is Some
    } by {
        assert(package_decomposes(pool, local[i], syncs));
        assert forall|r: int, j: int|
            0 <= r < syncs.len() && 0 <= j < syncs[r].db@.len() && (
            #[trigger] syncs[r].db@[j]).name == local[i].name implies version_of(
            pool,
            syncs[r].db@[j],
        ) is Some by {
            assert(namesakes_decompose(pool, local[i], syncs[r].db@));
        }
    }
}

/// What holds of every step of a plan: its installed package is one of
/// `local` and is not ignored, its other package is one of a repository of
/// that name, and the second is what the plan looks for.
pub open spec fn step_sound(
    want: Want,
    pool: Seq<Seq<char>>,
    local: Seq<Package>,
    syncs: Seq<Repo>,
    ignore: Seq<Istr>,
    s: Step,
) -> bool {
    &&& local.contains(s.from)
    &&& !ignore.contains(s.from.name)
    &&& exists|r: int, j: int|
        0 <= r < syncs.len() && 0 <= j < syncs[r].db@.len() && s.repo == syncs[r].name@ && s.to
            == #[trigger] syncs[r].db@[j]
    &&& is_step(want, pool, s.from, s.to)
}

proof fn lemma_entries_plan_sound(
    want: Want,
    pool: Seq<Seq<char>>,
    syncs: Seq<Repo>,
    r: int,
    from: Package,
    n: int,
)
    requires
        0 <= r < syncs.len(),
        0 <= n <= syncs[r].db@.len(),
    ensures
        forall|k: int|
            0 <= k < entries_plan(want, pool, syncs[r].name@, from, syncs[r].db@, n).len() ==> {
                let s = #[trigger] entries_plan(
                    want,
                    pool,
                    syncs[r].name@,
                    from,
                    syncs[r].db@,
                    n,
                )[k];
                &&& s.from == from
                &&& s.repo == syncs[r].name@
                &&& exists|j: int| 0 <= j < syncs[r].db@.len() && s.to == #[trigger] syncs[r].db@[j]
                &&& is_step(want, pool, s.from, s.to)
            },
    decreases n,
{
    if n > 0 {
        lemma_entries_plan_sound(want, pool, syncs, r, from, n - 1);
    }
}

proof fn lemma_repos_plan_sound(
    want: Want,
    pool: Seq<Seq<char>>,
    syncs: Seq<Repo>,
    from: Package,
    m: int,
)
    requires
        0 <= m <= syncs.len(),
    ensures
        forall|k: int|
            0 <= k < repos_plan(want, pool, from, syncs, m).len() ==> {
                let s = #[trigger] repos_plan(want, pool, from, syncs, m)[k];
                &&& s.from == from
                &&& exists|r: int, j: int|
                    0 <= r < syncs.len() && 0 <= j < syncs[r].db@.len() && s.repo
                        == syncs[r].name@ && s.to == #[trigger] syncs[r].db@[j]
                &&& is_step(want, pool, s.from, s.to)
            },
    decreases m,
{
    if m > 0 {
        lemma_repos_plan_sound(want, pool, syncs, from, m - 1);
        lemma_entries_plan_sound(want, pool, syncs, m - 1, from, syncs[m - 1].db@.len() as int);
        let head = repos_plan(want, pool, from, syncs, m - 1);
        let tail = entries_plan(
            want,
            pool,
            syncs[m - 1].name@,
            from,
            syncs[m - 1].db@,
            syncs[m - 1].db@.len() as int,
        );
        assert forall|k: int| 0 <= k < (head + tail).len() implies {
            let s = #[trigger] (head + tail)[k];
            &&& s.from == from
            &&& exists|r: int, j: int|
                0 <= r < syncs.len() && 0 <= j < syncs[r].db@.len() && s.repo == syncs[r].name@
                    && s.to == #[trigger] syncs[r].db@[j]
            &&& is_step(want, pool, s.from, s.to)
        } by {
            if k >= head.len() {
                let s = tail[k - head.len()];
                let j = choose|j: int|
                    0 <= j < syncs[m - 1].db@.len() && s.to == #[trigger] syncs[m - 1].db@[j];
                assert(s.to == syncs[m - 1].db@[j]);
            }
        }
    }
}

proof fn lemma_local_plan_sound(
    want: Want,
    pool: Seq<Seq<char>>,
    local: Seq<Package>,
    syncs: Seq<Repo>,
    ignore: Seq<Istr>,
    n: int,
)
    requires
        0 <= n <= local.len(),
    ensures
        forall|k: int|
            0 <= k < local_plan(want, pool, local, syncs, ignore, n).len() ==> step_sound(
                want,
                pool,
                local,
                syncs,
                ignore,
                #[trigger] local_plan(want, pool, local, syncs, ignore, n)[k],
            ),
    decreases n,
{
    if n > 0 {
        lemma_local_plan_sound(want, pool, local, syncs, ignore, n - 1);
        if !ignore.contains(local[n - 1].name) {
            lemma_repos_plan_sound(want, pool, syncs, local[n - 1], syncs.len() as int);
            let head = local_plan(want, pool, local, syncs, ignore, n - 1);
            let tail = repos_plan(want, pool, local[n - 1], syncs, syncs.len() as int);
            assert(local_plan(want, pool, local, syncs, ignore, n) == head + tail);
            assert forall|k: int| 0 <= k < (head + tail).len() implies step_sound(
                want,
                pool,
                local,
                syncs,
                ignore,
                #[trigger] (head + tail)[k],
            ) by {
                if k >= head.len() {
                    let s = tail[k - head.len()];
                    assert(s.from == local[n - 1]);
                    assert(step_sound(want, pool, local, syncs, ignore, s));
                } else {
                    assert(step_sound(want, pool, local, syncs, ignore, head[k]));
                }
            }
        }
    }
}

/// Every step of a plan is sound.
pub proof fn lemma_plan_sound(
    want: Want,
    pool: Seq<Seq<char>>,
    local: Seq<Package>,
    syncs: Seq<Repo>,
    ignore: Seq<Istr>,
)
    ensures
        forall|k: int|
            0 <= k < plan(want, pool, local, syncs, ignore).len() ==> step_sound(
                want,
                pool,
                local,
                syncs,
                ignore,
                #[trigger] plan(want, pool, local, syncs, ignore)[k],
            ),
{
    lemma_local_plan_sound(want, pool, local, syncs, ignore, local.len() as int);
}

/// No step of a plan of upgrades starts from a package whose name is
/// ignored.
pub proof fn lemma_plan_skips_ignored(
    pool: Seq<Seq<char>>,
    local: Seq<Package>,
    syncs: Seq<Repo>,
    ignore: Seq<Istr>,
    p: Package,
)
    requires
        ignore.contains(p.name),
    ensures
        forall|k: int|
            0 <= k < plan(Want::Upgrades, pool, local, syncs, ignore).len() ==> (#[trigger] plan(
                Want::Upgrades,
                pool,
                local,
                syncs,
                ignore,
            )[k]).from != p,
{
    lemma_plan_sound(Want::Upgrades, pool, local, syncs, ignore);
}

/// Every step of a plan of upgrades goes either to a package of the same name
/// with a
/// later version, or to a package that replaces the name of the installed one.
pub proof fn lemma_plan_steps_upgrade(
    pool: Seq<Seq<char>>,
    local: Seq<Package>,
    syncs: Seq<Repo>,
    ignore: Seq<Istr>,
)
    ensures
        forall|k: int|
            0 <= k < plan(Want::Upgrades, pool, local, syncs, ignore).len() ==> {
                let s = #[trigger] plan(Want::Upgrades, pool, local, syncs, ignore)[k];
                ||| s.from.name == s.to.name && version_lt(
                    version_of(pool, s.from).unwrap(),
                    version_of(pool, s.to).unwrap(),
                )
                ||| s.to.replaced().contains(s.from.name.id)
            },
{
    lemma_plan_sound(Want::Upgrades, pool, local, syncs, ignore);
}

/// No step of a plan of upgrades goes to a package of the same name whose
/// version is not later.
pub proof fn lemma_plan_never_downgrades(
    pool: Seq<Seq<char>>,
    local: Seq<Package>,
    syncs: Seq<Repo>,
    ignore: Seq<Istr>,
)
    ensures
        forall|k: int|
            0 <= k < plan(Want::Upgrades, pool, local, syncs, ignore).len() ==> {
                let s = #[trigger] plan(Want::Upgrades, pool, local, syncs, ignore)[k];
                !(s.from.name == s.to.name && !version_lt(
                    version_of(pool, s.from).unwrap(),
                    version_of(pool, s.to).unwrap(),
                ))
            },
{
    lemma_plan_sound(Want::Upgrades, pool, local, syncs, ignore);
}

} // verus!
