//! The configuration: ignored packages and the servers of the repositories.

pub mod parse;

use crate::text::{
    chars_of, lemma_run_end, matches_at, replaced, replaced_from, same_text, scan, strings_view,
    strs_view, trim_bounds, trimmed, words, Class,
};
use parse::{config, merged, sec_kv_map, values_of, Config, Section};

pub use parse::{key_value_map, kv, section};
use vstd::prelude::*;
use vstd::string::{StrSliceExecFns, StringExecFns};

verus! {

/// Reads a configuration text. What stands behind the last section that can
/// be read is left out.
pub fn parse_pacman_config(i: &str) -> (cfg: Config<'_>)
    ensures
        cfg@ == config(i@),
{
    sec_kv_map(i).1
}

/// Takes the first element out of a list.
pub fn try_remove_first<T>(vec: Vec<T>) -> (r: Option<T>)
    ensures
        match r {
            Some(x) => vec@.len() > 0 && x == vec@[0],
            None => vec@.len() == 0,
        },
{
    let mut vec = vec;
    if vec.is_empty() {
        None
    } else {
        Some(vec.remove(0))
    }
}

/// The first value that the sections called `section` give to `key`.
pub open spec fn first_value(cfg: Seq<Section>, section: Seq<char>, key: Seq<char>) -> Option<
    Seq<char>,
> {
    match values_of(merged(cfg, section), key) {
        Some(l) => if l.len() > 0 {
            Some(l[0])
        } else {
            None
        },
        None => None,
    }
}

/// Reads the first value of `key` in the sections called `section`.
pub fn first_of<'a>(cfg: &Config<'a>, section: &str, key: &str) -> (r: Option<&'a str>)
    ensures
        match r {
            Some(v) => first_value(cfg@, section@, key@) == Some(v@),
            None => first_value(cfg@, section@, key@) is None,
        },
{
    match cfg.get(section, key) {
        Some(l) => try_remove_first(l),
        None => None,
    }
}

/// The architecture that a configuration selects on a host of architecture
/// `host`: that of the host where the options name none or `auto`, `x86_64`
/// where they name that, and none for any other name.
pub open spec fn selected_arch(cfg: Seq<Section>, host: Seq<char>) -> Option<Seq<char>> {
    match first_value(cfg, "options"@, "Architecture"@) {
        None => Some(host),
        Some(v) => if trimmed(v) == "auto"@ {
            Some(host)
        } else if trimmed(v) == "x86_64"@ {
            Some("x86_64"@)
        } else {
            None
        },
    }
}

/// Selects the architecture.
pub fn select_arch<'a>(cfg: &Config<'_>, host: &'a str) -> (r: Option<&'a str>)
    ensures
        match r {
            Some(a) => selected_arch(cfg@, host@) == Some(a@),
            None => selected_arch(cfg@, host@) is None,
        },
{
    match first_of(cfg, "options", "Architecture") {
        None => Some(host),
        Some(v) => {
            let vc = chars_of(v);
            let (a, e) = trim_bounds(vc.as_slice());
            let name = v.substring_char(a, e);
            let nc = chars_of(name);
            let auto = chars_of("auto");
            let x86 = chars_of("x86_64");
            if same_text(nc.as_slice(), auto.as_slice()) {
                Some(host)
            } else if same_text(nc.as_slice(), x86.as_slice()) {
                Some("x86_64")
            } else {
                None
            }
        },
    }
}

/// The names of the packages that a configuration tells to ignore: the words
/// of the first `IgnorePkg` of its options.
pub open spec fn ignored(cfg: Seq<Section>) -> Seq<Seq<char>> {
    match first_value(cfg, "options"@, "IgnorePkg"@) {
        Some(v) => words(v, 0),
        None => Seq::empty(),
    }
}

/// Splits `s` into its words.
pub fn split_words(s: &str) -> (v: Vec<String>)
    ensures
        strings_view(v@) == words(s@, 0),
{
    let chars = chars_of(s);
    let c = chars.as_slice();
    let mut v: Vec<String> = Vec::new();
    let mut p: usize = 0;
    loop
        invariant
            c@ == s@,
            p <= s@.len(),
            words(s@, 0) =~= strings_view(v@) + words(s@, p as int),
        decreases s@.len() - p,
    {
        let a = scan(c, p, Class::White);
        if a < c.len() {
            let e = scan(c, a, Class::Word);
            proof {
                lemma_run_end(s@, a + 1, Class::Word);
            }
            let word = s.substring_char(a, e).to_owned();
            let ghost before = strings_view(v@);
            v.push(word);
            proof {
                assert(strings_view(v@) =~= before + seq![word@]);
            }
            p = e;
        } else {
            return v;
        }
    }
}

/// Reads the names of the packages to ignore.
pub fn ignored_packages(cfg: &Config<'_>) -> (v: Vec<String>)
    ensures
        strings_view(v@) == ignored(cfg@),
{
    match first_of(cfg, "options", "IgnorePkg") {
        Some(l) => split_words(l),
        None => {
            let v: Vec<String> = Vec::new();
            proof {
                assert(strings_view(v@) =~= Seq::empty());
            }
            v
        },
    }
}

/// Puts `to` in the place of every `pat` in `text`.
pub fn replace_all(text: &str, pat: &str, to: &str) -> (out: String)
    requires
        pat@.len() > 0,
    ensures
        out@ == replaced(text@, pat@, to@),
{
    let chars = chars_of(text);
    let s = chars.as_slice();
    let pc = chars_of(pat);
    let p = pc.as_slice();
    let mut out = String::new();
    let mut kept: usize = 0;
    let mut i: usize = 0;
    proof {
        assert(out@ + s@.subrange(0, 0) + replaced_from(s@, 0, p@, to@) =~= replaced(
            text@,
            pat@,
            to@,
        ));
    }
    while i < s.len()
        invariant
            s@ == text@,
            p@ == pat@,
            p@.len() > 0,
            kept <= i <= s@.len(),
            replaced(text@, pat@, to@) == out@ + s@.subrange(kept as int, i as int)
                + replaced_from(s@, i as int, p@, to@),
        decreases s@.len() - i,
    {
        if matches_at(s, i, p) {
            out.append(text.substring_char(kept, i));
            out.append(to);
            i = i + p.len();
            kept = i;
            proof {
                assert(s@.subrange(kept as int, i as int) =~= Seq::empty());
            }
        } else {
            proof {
                assert(s@.subrange(kept as int, i + 1) =~= s@.subrange(kept as int, i as int)
                    + seq![s@[i as int]]);
            }
            i = i + 1;
        }
    }
    out.append(text.substring_char(kept, i));
    out
}

/// The server of a repository with `$arch` and `$repo` filled in: first every
/// `$arch` gives way to `arch`, then every `$repo` to `repo`.
pub open spec fn expanded(template: Seq<char>, arch: Seq<char>, repo: Seq<char>) -> Seq<char> {
    replaced(replaced(template, "$arch"@, arch), "$repo"@, repo)
}

/// Fills in the architecture and the name of the repository.
pub fn server_url(template: &str, arch: &str, repo: &str) -> (url: String)
    ensures
        url@ == expanded(template@, arch@, repo@),
{
    proof {
        reveal_strlit("$arch");
        reveal_strlit("$repo");
    }
    let with_arch = replace_all(template, "$arch", arch);
    replace_all(with_arch.as_str(), "$repo", repo)
}

/// Where the server of a repository is to be found.
pub enum Source<'a> {
    /// The section names the server.
    Server(&'a str),
    /// The section names a file that holds the server.
    Include(&'a str),
    /// The section names neither.
    Missing,
}

pub enum SourceView {
    Server(Seq<char>),
    Include(Seq<char>),
    Missing,
}

impl<'a> View for Source<'a> {
    type V = SourceView;

    open spec fn view(&self) -> SourceView {
        match self {
            Source::Server(u) => SourceView::Server(u@),
            Source::Include(p) => SourceView::Include(p@),
            Source::Missing => SourceView::Missing,
        }
    }
}

/// Where the server of the repository `name` is to be found: in its first
/// `Server`, or else in the file that its first `Include` names.
pub open spec fn source_of(cfg: Seq<Section>, name: Seq<char>) -> SourceView {
    match first_value(cfg, name, "Server"@) {
        Some(u) => SourceView::Server(u),
        None => match first_value(cfg, name, "Include"@) {
            Some(p) => SourceView::Include(p),
            None => SourceView::Missing,
        },
    }
}

/// Finds where the server of the repository `name` stands.
pub fn repo_source<'a>(cfg: &Config<'a>, name: &str) -> (r: Source<'a>)
    ensures
        r@ == source_of(cfg@, name@),
{
    match first_of(cfg, name, "Server") {
        Some(u) => Source::Server(u),
        None => match first_of(cfg, name, "Include") {
            Some(p) => Source::Include(p),
            None => Source::Missing,
        },
    }
}

/// The names of the repositories among the first `n` sections: every name
/// but the empty one and `options`, each once, in the order of the text.
pub open spec fn repo_names(cfg: Seq<Section>, n: int) -> Seq<Seq<char>>
    decreases n,
{
    if n <= 0 {
        Seq::empty()
    } else {
        let rest = repo_names(cfg, n - 1);
        let name = cfg[n - 1].name;
        if name.len() == 0 || name == "options"@ || rest.contains(name) {
            rest
        } else {
            rest.push(name)
        }
    }
}

/// Whether `name` is among `names`.
pub fn contains_str(names: &Vec<&str>, name: &str) -> (r: bool)
    ensures
        r == strs_view(names@).contains(name@),
{
    let wanted = chars_of(name);
    let mut k: usize = 0;
    while k < names.len()
        invariant
            k <= names@.len(),
            wanted@ == name@,
            forall|j: int| 0 <= j < k ==> strs_view(names@)[j] != name@,
        decreases names@.len() - k,
    {
        let c = chars_of(names[k]);
        if same_text(c.as_slice(), wanted.as_slice()) {
            assert(strs_view(names@)[k as int] == name@);
            return true;
        }
        k = k + 1;
    }
    false
}

/// Lists the names of the repositories.
pub fn repo_sections<'a>(cfg: &Config<'a>) -> (v: Vec<&'a str>)
    ensures
        strs_view(v@) == repo_names(cfg@, cfg@.len() as int),
{
    let options = chars_of("options");
    let mut v: Vec<&'a str> = Vec::new();
    let mut i: usize = 0;
    proof {
        assert(strs_view(v@) =~= Seq::empty());
    }
    while i < cfg.sections.len()
        invariant
            i <= cfg.sections@.len(),
            options@ == "options"@,
            strs_view(v@) == repo_names(cfg@, i as int),
        decreases cfg.sections@.len() - i,
    {
        let name = cfg.sections[i].0;
        let c = chars_of(name);
        if c.len() > 0 && !same_text(c.as_slice(), options.as_slice()) && !contains_str(&v, name) {
            let ghost before = strs_view(v@);
            v.push(name);
            proof {
                assert(strs_view(v@) =~= before.push(name@));
            }
        }
        i = i + 1;
    }
    v
}

/// The server that an included file names: the first `Server` that stands
/// before its first section header.
pub open spec fn included_server_of(text: Seq<char>) -> Option<Seq<char>> {
    first_value(config(text), Seq::empty(), "Server"@)
}

/// Reads the server that an included file names.
pub fn included_server(text: &str) -> (r: Option<&str>)
    ensures
        match r {
            Some(u) => included_server_of(text@) == Some(u@),
            None => included_server_of(text@) is None,
        },
{
    let cfg = parse_pacman_config(text);
    let unnamed = text.substring_char(0, 0);
    proof {
        assert(unnamed@ =~= Seq::<char>::empty());
    }
    first_of(&cfg, unnamed, "Server")
}

/// The text of the file called `path` among the files that were read: that
/// of the first with this name.
pub open spec fn content_of(files: Seq<(String, String)>, path: Seq<char>) -> Option<Seq<char>>
    decreases files.len(),
{
    if files.len() == 0 {
        None
    } else if files[0].0@ == path {
        Some(files[0].1@)
    } else {
        content_of(files.skip(1), path)
    }
}

/// Finds the text of the file called `path`.
pub fn find_content<'f>(files: &'f [(String, String)], path: &str) -> (r: Option<&'f str>)
    ensures
        match r {
            Some(text) => content_of(files@, path@) == Some(text@),
            None => content_of(files@, path@) is None,
        },
{
    let wanted = chars_of(path);
    let mut k: usize = 0;
    proof {
        assert(files@.skip(0) =~= files@);
    }
    while k < files.len()
        invariant
            k <= files@.len(),
            wanted@ == path@,
            content_of(files@, path@) == content_of(files@.skip(k as int), path@),
        decreases files@.len() - k,
    {
        let name = chars_of(files[k].0.as_str());
        if same_text(name.as_slice(), wanted.as_slice()) {
            return Some(files[k].1.as_str());
        }
        proof {
            assert(files@.skip(k as int).skip(1) =~= files@.skip(k + 1));
        }
        k = k + 1;
    }
    None
}

/// The server of the repository `name`, before `$arch` and `$repo` are
/// filled in: that of its section, or that of the file which the section
/// includes. `files` are the included files that were read.
pub open spec fn template_of(
    cfg: Seq<Section>,
    name: Seq<char>,
    files: Seq<(String, String)>,
) -> Option<Seq<char>> {
    match source_of(cfg, name) {
        SourceView::Server(u) => Some(u),
        SourceView::Include(path) => match content_of(files, path) {
            Some(text) => included_server_of(text),
            None => None,
        },
        SourceView::Missing => None,
    }
}

/// Finds the server of the repository `name`.
pub fn repo_template<'a>(cfg: &Config<'a>, name: &str, files: &'a [(String, String)]) -> (r: Option<
    &'a str,
>)
    ensures
        match r {
            Some(u) => template_of(cfg@, name@, files@) == Some(u@),
            None => template_of(cfg@, name@, files@) is None,
        },
{
    match repo_source(cfg, name) {
        Source::Server(u) => Some(u),
        Source::Include(path) => match find_content(files, path) {
            Some(text) => included_server(text),
            None => None,
        },
        Source::Missing => None,
    }
}

/// Every repository of `names` has a server.
pub open spec fn all_served(
    cfg: Seq<Section>,
    names: Seq<Seq<char>>,
    files: Seq<(String, String)>,
) -> bool {
    forall|k: int| 0 <= k < names.len() ==> template_of(cfg, #[trigger] names[k], files) is Some
}

/// The repositories of `names`, each with its server for the architecture
/// `arch`.
pub open spec fn servers(
    cfg: Seq<Section>,
    names: Seq<Seq<char>>,
    files: Seq<(String, String)>,
    arch: Seq<char>,
) -> Seq<(Seq<char>, Seq<char>)> {
    names.map_values(
        |name: Seq<char>| (name, expanded(template_of(cfg, name, files).unwrap(), arch, name)),
    )
}

/// The views of a list of pairs of strings.
pub open spec fn string_pairs_view(v: Seq<(String, String)>) -> Seq<(Seq<char>, Seq<char>)> {
    v.map_values(|e: (String, String)| (e.0@, e.1@))
}

/// The files that a configuration includes for the servers of its
/// repositories: for each repository without a `Server`, its first
/// `Include`.
pub open spec fn included_paths(cfg: Seq<Section>, names: Seq<Seq<char>>, n: int) -> Seq<Seq<char>>
    decreases n,
{
    if n <= 0 {
        Seq::empty()
    } else {
        let rest = included_paths(cfg, names, n - 1);
        match source_of(cfg, names[n - 1]) {
            SourceView::Include(path) => rest.push(path),
            _ => rest,
        }
    }
}

/// Lists the files that the configuration text `main` includes for the
/// servers of its repositories.
pub fn includes_needed(main: &str) -> (v: Vec<String>)
    ensures
        strings_view(v@) == included_paths(
            config(main@),
            repo_names(config(main@), config(main@).len() as int),
            repo_names(config(main@), config(main@).len() as int).len() as int,
        ),
{
    let cfg = parse_pacman_config(main);
    let names = repo_sections(&cfg);
    let mut v: Vec<String> = Vec::new();
    let mut k: usize = 0;
    proof {
        assert(strings_view(v@) =~= Seq::empty());
    }
    while k < names.len()
        invariant
            k <= names@.len(),
            strings_view(v@) == included_paths(cfg@, strs_view(names@), k as int),
        decreases names@.len() - k,
    {
        if let Source::Include(path) = repo_source(&cfg, names[k]) {
            let owned = path.to_owned();
            let ghost before = strings_view(v@);
            v.push(owned);
            proof {
                assert(strings_view(v@) =~= before.push(path@));
            }
        }
        k = k + 1;
    }
    v
}

/// What a configuration says of interest: the packages to ignore and the
/// server of each repository. `host` is the architecture of this machine,
/// `files` are the included files that were read, each with its name. The
/// configuration is rejected where it names an architecture that is not
/// known, or where a repository has no server.
pub fn extract_relevant_config(main: &str, host: &str, files: &[(String, String)]) -> (r: Result<
    (Vec<String>, Vec<(String, String)>),
    (),
>)
    ensures
        r is Ok <==> selected_arch(config(main@), host@) is Some && all_served(
            config(main@),
            repo_names(config(main@), config(main@).len() as int),
            files@,
        ),
        r matches Ok((ignores, repos)) ==> strings_view(ignores@) == ignored(config(main@))
            && string_pairs_view(repos@) == servers(
            config(main@),
            repo_names(config(main@), config(main@).len() as int),
            files@,
            selected_arch(config(main@), host@).unwrap(),
        ),
{
    let cfg = parse_pacman_config(main);
    let arch = match select_arch(&cfg, host) {
        Some(a) => a,
        None => {
            return Err(());
        },
    };
    let ignores = ignored_packages(&cfg);
    let names = repo_sections(&cfg);
    let mut repos: Vec<(String, String)> = Vec::new();
    let mut k: usize = 0;
    let ghost all = strs_view(names@);
    proof {
        assert(string_pairs_view(repos@) =~= servers(cfg@, all.take(0), files@, arch@));
    }
    while k < names.len()
        invariant
            k <= names@.len(),
            cfg@ == config(main@),
            all == strs_view(names@),
            all == repo_names(cfg@, cfg@.len() as int),
            selected_arch(cfg@, host@) == Some(arch@),
            all_served(cfg@, all.take(k as int), files@),
            string_pairs_view(repos@) == servers(cfg@, all.take(k as int), files@, arch@),
        decreases names@.len() - k,
    {
        let name = names[k];
        let template = match repo_template(&cfg, name, files) {
            Some(t) => t,
            None => {
                assert(all[k as int] == name@);
                return Err(());
            },
        };
        let url = server_url(template, arch, name);
        let owned = name.to_owned();
        let ghost before = string_pairs_view(repos@);
        repos.push((owned, url));
        proof {
            assert(all.take(k + 1) =~= all.take(k as int).push(name@));
            assert(string_pairs_view(repos@) =~= before.push((name@, url@)));
            assert(servers(cfg@, all.take(k + 1), files@, arch@) =~= servers(
                cfg@,
                all.take(k as int),
                files@,
                arch@,
            ).push((name@, url@)));
        }
        k = k + 1;
    }
    proof {
        assert(all.take(k as int) =~= all);
    }
    Ok((ignores, repos))
}

} // verus!
