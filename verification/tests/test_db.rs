use libalpm_rs::db::desc::parse_to_map;
use libalpm_rs::db::load::check_format;
use libalpm_rs::db::package::has_only_known_keys;
use libalpm_rs::db::pool::intern_names;
use libalpm_rs::db::{
    downgrade_candidates, new_interner, parse_localdb, parse_syncdb, update_candidates, Arch,
    Database, Package, Pool, QuickResolve, Repo, Validation, XData,
};
use libalpm_rs::{cache_file, filter_repos, upgrade_url, upgrade_urls};
use std::io::Write;

fn desc(name: &str, version: &str, more: &str) -> String {
    format!(
        "%NAME%\n{name}\n\n%BASE%\n{name}\n\n%VERSION%\n{version}\n\n%ARCH%\nx86_64\n\n\
         %PACKAGER%\nSomeone <s@example.org>\n\n%BUILDDATE%\n1700000000\n\n\
         %URL%\nhttps://example.org\n\n%LICENSE%\nMIT\nGPL-2.0-or-later\n\n\
         %DESC%\nA package\n\n{more}"
    )
}

#[test]
fn pool_interns_once() {
    let mut pool = new_interner();
    let a = pool.intern("any");
    let b = pool.intern("x86_64");
    let c = pool.intern("any");
    assert_eq!(a, c);
    assert_ne!(a, b);
    assert_eq!(pool.len(), 2);
    assert_eq!(pool.resolve(a), Some("any"));
    assert_eq!(pool.resolve(b), Some("x86_64"));
    assert_eq!(b.r(&pool), "x86_64");
    assert_eq!(pool.get("x86_64"), Some(b));
    assert_eq!(pool.get("missing"), None);
    pool.shrink();
    assert_eq!(pool.resolve(a), Some("any"));
    assert_eq!(pool.len(), 2);
}

#[test]
fn pool_knows_only_its_handles() {
    let mut pool = Pool::new();
    let a = pool.intern("one");
    let other = Pool::new();
    assert_eq!(other.resolve(a), None);
    assert_eq!(pool.resolve(libalpm_rs::db::Istr { id: 7 }), None);
    assert_eq!(pool.resolve(libalpm_rs::db::Istr { id: u32::MAX }), None);
}

#[test]
fn names_are_interned_in_order() {
    let mut pool = Pool::new();
    let hs = intern_names(&mut pool, &vec!["b".to_string(), "a".to_string(), "b".to_string()])
        .unwrap();
    assert_eq!(hs.len(), 3);
    assert_eq!(hs[0], hs[2]);
    assert_eq!(pool.resolve(hs[1]), Some("a"));
    assert_eq!(pool.len(), 2);
}

#[test]
fn descriptor_is_split_into_entries() {
    let d = parse_to_map("%NAME%\nfoo\n\n%DEPENDS%\na\nb>=2\n\n%EMPTY%\n\n\n").unwrap();
    assert_eq!(d.len(), 3);
    assert_eq!(d.get("NAME"), Some("foo"));
    assert_eq!(d.get("DEPENDS"), Some("a\nb>=2"));
    assert_eq!(d.get("EMPTY"), Some(""));
    assert_eq!(d.get("OTHER"), None);
    assert_eq!(d.key(1), "DEPENDS");
    assert_eq!(d.value(0), "foo");
}

#[test]
fn last_entry_of_a_key_counts() {
    let d = parse_to_map("%A%\n1\n\n%A%\n2\n\n").unwrap();
    assert_eq!(d.get("A"), Some("2"));
}

#[test]
fn descriptor_needs_its_trailer() {
    assert!(parse_to_map("\n\n").is_ok());
    assert_eq!(parse_to_map("\n\n").unwrap().len(), 0);
    assert!(parse_to_map("").is_err());
    assert!(parse_to_map("%NAME%\nfoo\n").is_err());
    assert!(parse_to_map("%NAME%\nfoo").is_err());
    assert!(parse_to_map("%NAME%\nfoo\n\n\n").is_err());
    assert!(parse_to_map("%NAME%\nfoo\n\ntrailing\n\n").is_err());
    assert!(parse_to_map("%NA ME%\nfoo\n\n").is_err());
    assert!(parse_to_map("%%\nfoo\n\n").is_err());
    assert!(parse_to_map("%NAME%foo\n\n").is_err());
    assert!(parse_to_map("NAME\nfoo\n\n").is_err());
}

#[test]
fn known_keys_are_told_from_others() {
    assert!(has_only_known_keys(&parse_to_map("%NAME%\nfoo\n\n%XDATA%\npkgtype=pkg\n\n").unwrap()));
    assert!(!has_only_known_keys(&parse_to_map("%NAME%\nfoo\n\n%NEWKEY%\n1\n\n").unwrap()));
}

#[test]
fn package_is_read() {
    let mut pool = new_interner();
    let text = desc(
        "foo",
        "1:2.0-3",
        "%REASON%\n1\n\n%INSTALLDATE%\n1700000123\n\n%VALIDATION%\npgp\nsha256\n\n\
         %ISIZE%\n2048\n\n%CSIZE%\n1024\n\n%FILENAME%\nfoo-1:2.0-3-x86_64.pkg.tar.zst\n\n\
         %MD5SUM%\nd41d8cd98f00b204e9800998ecf8427e\n\n\
         %SHA256SUM%\ne3b0c44298fc1c149afbf4c8996fb92427ae41e4649b934ca495991b7852b855\n\n\
         %PGPSIG%\nabc\n\n%DEPENDS%\nglibc\nbar>=1\n\n%REPLACES%\nold-foo\nfoo\n\n\
         %XDATA%\npkgtype=split\n\n",
    );
    let p = Package::from_str(&mut pool, &text).unwrap();
    assert_eq!(p.name.r(&pool), "foo");
    assert_eq!(p.base.r(&pool), "foo");
    assert_eq!(p.version.r(&pool), "1:2.0-3");
    assert_eq!(p.arch, Arch::X86_64);
    assert_eq!(p.arch.as_str(), "x86_64");
    assert_eq!(p.reason, Some(1));
    assert_eq!(p.install_date, Some(1700000123));
    assert_eq!(p.build_date, 1700000000);
    assert_eq!(p.validation, Some(Validation::Signature));
    assert_eq!(p.isize, Some(2048));
    assert_eq!(p.csize, Some(1024));
    assert_eq!(p.packager.r(&pool), "Someone <s@example.org>");
    assert_eq!(p.url.r(&pool), "https://example.org");
    assert_eq!(p.desc.r(&pool), "A package");
    let license: Vec<&str> = p.license.iter().map(|h| h.r(&pool)).collect();
    assert_eq!(license, vec!["MIT", "GPL-2.0-or-later"]);
    assert_eq!(p.filename.unwrap().r(&pool), "foo-1:2.0-3-x86_64.pkg.tar.zst");
    assert_eq!(p.md5sum.unwrap().len(), 24);
    assert_eq!(p.sha256sum.unwrap().len(), 48);
    assert_eq!(&p.md5sum.unwrap()[..3], &[0x77, 0x8d, 0x5d]);
    assert_eq!(p.pgpsig.unwrap().r(&pool), "abc");
    let depends: Vec<&str> = p.depends.as_ref().unwrap().iter().map(|h| h.r(&pool)).collect();
    assert_eq!(depends, vec!["glibc", "bar>=1"]);
    assert!(p.provides.is_none());
    let replaces = p.replaces.as_ref().unwrap();
    assert_eq!(replaces.len(), 1);
    assert!(replaces.contains(&pool.get("old-foo").unwrap().id));
    assert!(!replaces.contains(&p.name.id));
    assert_eq!(p.xdata, Some(XData::Split));
}

#[test]
fn legacy_size_key_is_read() {
    let mut pool = new_interner();
    let p = Package::from_str(&mut pool, &desc("foo", "1", "%SIZE%\n77\n\n")).unwrap();
    assert_eq!(p.isize, Some(77));
    let p = Package::from_str(&mut pool, &desc("foo", "1", "%SIZE%\n77\n\n%ISIZE%\n5\n\n")).unwrap();
    assert_eq!(p.isize, Some(77));
}

#[test]
fn tags_are_read() {
    assert_eq!(Arch::from_str("any"), Ok(Arch::Any));
    assert_eq!(Arch::from_str("x86_64"), Ok(Arch::X86_64));
    assert_eq!(Arch::from_str("arm"), Err(()));
    assert_eq!(Arch::Any.as_str(), "any");
    assert_eq!(Validation::from_str("none"), Ok(Validation::Nothing));
    assert_eq!(Validation::from_str("md5"), Ok(Validation::Md5Sum));
    assert_eq!(Validation::from_str("sha256"), Ok(Validation::Sha256Sum));
    assert_eq!(Validation::from_str("pgp"), Ok(Validation::Signature));
    assert_eq!(Validation::from_str("gpg"), Err(()));
    assert_eq!(XData::from_str("pkgtype=pkg"), Ok(XData::Pkg));
    assert_eq!(XData::from_str("pkgtype=split"), Ok(XData::Split));
    assert_eq!(XData::from_str("pkgtype=debug"), Ok(XData::Debug));
    assert_eq!(XData::from_str("pkg"), Err(()));
}

#[test]
fn malformed_records_are_rejected() {
    let mut pool = new_interner();
    let full = desc("foo", "1", "");
    assert!(Package::from_str(&mut pool, &full).is_ok());
    let held = pool.len();
    let required =
        ["NAME", "BASE", "VERSION", "ARCH", "PACKAGER", "BUILDDATE", "URL", "LICENSE", "DESC"];
    for key in required {
        let without = full.replace(&format!("%{key}%"), "%OTHER%");
        assert!(Package::from_str(&mut pool, &without).is_err(), "{key}");
    }
    assert!(Package::from_str(&mut pool, &full.replace("x86_64", "sparc")).is_err());
    assert!(Package::from_str(&mut pool, &full.replace("1700000000", "soon")).is_err());
    assert!(Package::from_str(&mut pool, &desc("foo", "1", "%REASON%\n256\n\n")).is_err());
    assert!(Package::from_str(&mut pool, &desc("foo", "1", "%INSTALLDATE%\n-1\n\n")).is_err());
    let too_large = desc("foo", "1", "%CSIZE%\n18446744073709551616\n\n");
    assert!(Package::from_str(&mut pool, &too_large).is_err());
    assert!(Package::from_str(&mut pool, &desc("foo", "1", "%ISIZE%\n\n\n")).is_err());
    assert!(Package::from_str(&mut pool, &desc("foo", "1", "%VALIDATION%\nrot13\n\n")).is_err());
    assert!(Package::from_str(&mut pool, &desc("foo", "1", "%XDATA%\npkgtype=other\n\n")).is_err());
    assert!(Package::from_str(&mut pool, &desc("foo", "1", "%MD5SUM%\n!!!!\n\n")).is_err());
    assert!(Package::from_str(&mut pool, &desc("foo", "1", "%MD5SUM%\nAAAA\n\n")).is_err());
    let short = desc("foo", "1", "%SHA256SUM%\nd41d8cd98f00b204e9800998ecf8427e\n\n");
    assert!(Package::from_str(&mut pool, &short).is_err());
    assert!(Package::from_str(&mut pool, "garbage").is_err());
    assert_eq!(pool.len(), held);
    let largest = desc("foo", "1", "%CSIZE%\n18446744073709551615\n\n");
    assert!(Package::from_str(&mut pool, &largest).is_ok());
    assert!(Package::from_str(&mut pool, &desc("foo", "1", "%CSIZE%\n+0012\n\n")).is_ok());
}

fn package(pool: &mut Pool, name: &str, version: &str, more: &str) -> Package {
    Package::from_str(pool, &desc(name, version, more)).unwrap()
}

#[test]
fn database_keeps_one_package_of_a_name() {
    let mut pool = new_interner();
    let mut db = Database::new();
    db.insert(package(&mut pool, "a", "1", ""));
    db.insert(package(&mut pool, "b", "1", ""));
    db.insert(package(&mut pool, "a", "2", ""));
    assert_eq!(db.len(), 2);
    assert_eq!(db.at(0).version.r(&pool), "2");
    assert_eq!(db.at(1).name.r(&pool), "b");
    let a = pool.get("a").unwrap();
    assert_eq!(db.position(a), Some(0));
    assert_eq!(db.get(a).unwrap().version.r(&pool), "2");
    assert!(db.get(pool.get("MIT").unwrap()).is_none());
}

fn names<'a>(
    pool: &'a Pool,
    ups: &[(&'a str, &'a Package, &'a Package)],
) -> Vec<(String, String, String, String)> {
    ups.iter()
        .map(|(r, f, t)| {
            (
                r.to_string(),
                format!("{}@{}", f.name.r(pool), f.version.r(pool)),
                format!("{}@{}", t.name.r(pool), t.version.r(pool)),
                String::new(),
            )
        })
        .collect()
}

#[test]
fn planner_finds_upgrade_and_replacement() {
    let mut pool = new_interner();
    let mut local = Database::new();
    local.insert(package(&mut pool, "X", "1.0-1", ""));
    let mut core = Database::new();
    core.insert(package(&mut pool, "X", "1.0-2", ""));
    core.insert(package(&mut pool, "Y", "0.1-1", "%REPLACES%\nX\n\n"));
    let syncs = vec![Repo { name: "core".to_string(), db: core }];
    let ups = update_candidates(&pool, &local, &syncs, &[]).unwrap();
    assert_eq!(
        names(&pool, &ups),
        vec![
            ("core".to_string(), "X@1.0-1".to_string(), "X@1.0-2".to_string(), String::new()),
            ("core".to_string(), "X@1.0-1".to_string(), "Y@0.1-1".to_string(), String::new()),
        ]
    );
}

#[test]
fn planner_skips_ignored_equal_and_older() {
    let mut pool = new_interner();
    let mut local = Database::new();
    local.insert(package(&mut pool, "a", "2.0-1", ""));
    local.insert(package(&mut pool, "b", "1.0-1", ""));
    local.insert(package(&mut pool, "c", "1.0-1", ""));
    local.insert(package(&mut pool, "d", "1.0-1", ""));
    let mut core = Database::new();
    core.insert(package(&mut pool, "a", "1.9-9", ""));
    core.insert(package(&mut pool, "b", "1.0-1", ""));
    core.insert(package(&mut pool, "c", "1.0-2", ""));
    let mut extra = Database::new();
    extra.insert(package(&mut pool, "d", "1:0.1-1", ""));
    extra.insert(package(&mut pool, "e", "9", "%REPLACES%\nc\nd\n\n"));
    let syncs = vec![
        Repo { name: "core".to_string(), db: core },
        Repo { name: "extra".to_string(), db: extra },
    ];
    let ignore = vec![pool.get("c").unwrap()];
    let ups = update_candidates(&pool, &local, &syncs, &ignore).unwrap();
    assert_eq!(
        names(&pool, &ups),
        vec![
            ("extra".to_string(), "d@1.0-1".to_string(), "d@1:0.1-1".to_string(), String::new()),
            ("extra".to_string(), "d@1.0-1".to_string(), "e@9".to_string(), String::new()),
        ]
    );
    for (_, from, _) in &ups {
        assert!(!ignore.contains(&from.name));
    }
    let downs = downgrade_candidates(&pool, &local, &syncs, &ignore).unwrap();
    assert_eq!(
        names(&pool, &downs),
        vec![("core".to_string(), "a@2.0-1".to_string(), "a@1.9-9".to_string(), String::new())]
    );
}

#[test]
fn full_pool_takes_only_what_it_holds() {
    let mut pool = Pool::new();
    let a = pool.try_intern("a").unwrap();
    assert_eq!(pool.try_intern("a"), Some(a));
    assert_eq!(pool.len(), 1);
}

#[test]
fn planner_rejects_a_version_that_does_not_decompose() {
    let mut pool = new_interner();
    let mut local = Database::new();
    local.insert(package(&mut pool, "a", "-", ""));
    let syncs: Vec<Repo> = Vec::new();
    assert!(update_candidates(&pool, &local, &syncs, &[]).is_err());
    let ignore = vec![pool.get("a").unwrap()];
    assert_eq!(update_candidates(&pool, &local, &syncs, &ignore).unwrap().len(), 0);

    let mut local = Database::new();
    local.insert(package(&mut pool, "a", "1", ""));
    let mut core = Database::new();
    core.insert(package(&mut pool, "b", "+", ""));
    let syncs = vec![Repo { name: "core".to_string(), db: core }];
    assert_eq!(update_candidates(&pool, &local, &syncs, &[]).unwrap().len(), 0);
    let mut core = Database::new();
    core.insert(package(&mut pool, "a", "+", ""));
    let syncs = vec![Repo { name: "core".to_string(), db: core }];
    assert!(update_candidates(&pool, &local, &syncs, &[]).is_err());
}

#[test]
fn format_version_is_checked() {
    assert!(check_format("9"));
    assert!(check_format("9\n"));
    assert!(check_format("  009 "));
    assert!(!check_format("8"));
    assert!(!check_format("9 9"));
    assert!(!check_format(""));
    assert!(!check_format("nine"));
}

#[test]
fn local_database_is_loaded() {
    let mut pool = new_interner();
    let descs = vec![desc("a", "1", ""), desc("b", "2", ""), desc("a", "3", "")];
    let db = parse_localdb(&mut pool, "9\n", &descs).unwrap();
    assert_eq!(db.len(), 2);
    assert_eq!(db.at(0).name.r(&pool), "a");
    assert_eq!(db.at(0).version.r(&pool), "3");
    assert_eq!(db.at(1).name.r(&pool), "b");
    assert!(parse_localdb(&mut pool, "10", &descs).is_err());
    let bad = vec![desc("a", "1", ""), "broken".to_string()];
    assert!(parse_localdb(&mut pool, "9", &bad).is_err());
}

fn archive(files: &[(&str, &[u8], bool)]) -> Vec<u8> {
    let mut builder = tar::Builder::new(Vec::new());
    for (path, content, dir) in files {
        let mut header = tar::Header::new_gnu();
        if *dir {
            header.set_entry_type(tar::EntryType::Directory);
            header.set_size(0);
            header.set_mode(0o755);
            header.set_cksum();
            builder.append_data(&mut header, path, std::io::empty()).unwrap();
        } else {
            header.set_size(content.len() as u64);
            header.set_mode(0o644);
            header.set_cksum();
            builder.append_data(&mut header, path, *content).unwrap();
        }
    }
    builder.into_inner().unwrap()
}

fn gzip(data: &[u8]) -> Vec<u8> {
    let mut enc = flate2::write::GzEncoder::new(Vec::new(), flate2::Compression::default());
    enc.write_all(data).unwrap();
    enc.finish().unwrap()
}

#[test]
fn sync_database_is_loaded() {
    let a = desc("a", "1-1", "%FILENAME%\na-1-1.pkg.tar.zst\n\n");
    let b = desc("bé", "2-1", "");
    let tar = archive(&[
        ("a-1-1/", b"", true),
        ("a-1-1/desc", a.as_bytes(), false),
        ("b-2-1/", b"", true),
        ("b-2-1/desc", b.as_bytes(), false),
    ]);
    let mut pool = new_interner();
    let db = parse_syncdb(&mut pool, &gzip(&tar)).unwrap();
    assert_eq!(db.len(), 2);
    assert_eq!(db.at(0).name.r(&pool), "a");
    assert_eq!(db.at(0).filename.unwrap().r(&pool), "a-1-1.pkg.tar.zst");
    assert_eq!(db.at(1).name.r(&pool), "bé");
    assert_eq!(db.at(1).version.r(&pool), "2-1");
}

#[test]
fn broken_sync_database_is_rejected() {
    let mut pool = new_interner();
    assert!(parse_syncdb(&mut pool, b"not gzip").is_err());
    assert!(parse_syncdb(&mut pool, &gzip(&[b'.'; 1024])).is_err());
    let bad_text = archive(&[("x/desc", &[0xff, 0xfe, 0x00], false)]);
    assert!(parse_syncdb(&mut pool, &gzip(&bad_text)).is_err());
    let bad_desc = archive(&[("x/desc", b"%NAME%\nx\n\n", false)]);
    assert!(parse_syncdb(&mut pool, &gzip(&bad_desc)).is_err());
    let empty = archive(&[]);
    assert_eq!(parse_syncdb(&mut pool, &gzip(&empty)).unwrap().len(), 0);
}

#[test]
fn urls_are_assembled() {
    let mut pool = new_interner();
    let mut local = Database::new();
    local.insert(package(&mut pool, "X", "1.0-1", ""));
    let mut core = Database::new();
    core.insert(package(&mut pool, "X", "1.0-2", "%FILENAME%\nX-1.0-2.pkg.tar.zst\n\n"));
    core.insert(package(&mut pool, "Y", "1", "%REPLACES%\nX\n\n%FILENAME%\nY-1.pkg.tar.zst\n\n"));
    let syncs = vec![Repo { name: "core".to_string(), db: core }];
    let repos = vec![
        ("extra".to_string(), "https://m/extra".to_string()),
        ("core".to_string(), "https://m/core".to_string()),
    ];
    let ups = update_candidates(&pool, &local, &syncs, &[]).unwrap();
    assert_eq!(cache_file(&pool, ups[0].2), Some("/var/cache/pacman/pkg/X-1.0-2.pkg.tar.zst".to_string()));
    assert_eq!(cache_file(&pool, ups[0].1), None);
    let urls = upgrade_urls(&pool, &ups, &repos, &[true, false]).unwrap();
    assert_eq!(urls.len(), 2);
    assert_eq!(urls[0].0, "file:///var/cache/pacman/pkg/X-1.0-2.pkg.tar.zst");
    assert_eq!(urls[1].0, "https://m/core/Y-1.pkg.tar.zst");
    assert_eq!(urls[1].1.name.r(&pool), "X");
    assert_eq!(urls[1].2.name.r(&pool), "Y");
    assert_eq!(upgrade_url(&pool, &repos, "testing", ups[0].2, false), None);
    assert_eq!(upgrade_url(&pool, &repos, "core", ups[0].1, false), None);
    assert!(upgrade_urls(&pool, &ups, &repos[..1], &[false, false]).is_err());
}

#[test]
fn repositories_are_filtered() {
    let repos = vec![
        ("core".to_string(), "a".to_string()),
        ("testing".to_string(), "b".to_string()),
        ("extra".to_string(), "c".to_string()),
    ];
    assert_eq!(filter_repos(&repos, &vec!["extra", "core", "multilib"]), vec!["core", "extra"]);
}
