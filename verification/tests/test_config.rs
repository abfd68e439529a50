use libalpm_rs::config::parse::{key_value_map, kv, sec_kv_map, section};
use libalpm_rs::config::{
    extract_relevant_config, included_server, includes_needed, parse_pacman_config, server_url,
    try_remove_first,
};

#[test]
fn test_section() {
    assert_eq!(section("[test]").unwrap().1, "test");
    assert_eq!(section("[test]]").unwrap().1, "test");
    assert_eq!(section("[test]\n").unwrap().1, "test");
    assert!(section("[test").is_err());
    assert!(section("test").is_err());
    assert!(section("test]").is_err());
}

#[test]
fn test_kv() {
    assert_eq!(kv("a=b"), Ok(("", ("a", "b".into()))));
    assert_eq!(kv("a=b b2 b3"), Ok(("", ("a", "b b2 b3".into()))));
    assert_eq!(kv("a=b  "), Ok(("", ("a", "b  ".into()))));
    assert_eq!(kv("a   =   b"), Ok(("", ("a", "b".into()))));
    assert_eq!(kv("a=b\n\n\n"), Ok(("", ("a", "b".into()))));
    assert_eq!(kv("a\n=\nb"), Ok(("\n=\nb", ("a", None))));
}

#[test]
fn test_kvm() {
    let parse = key_value_map("a=b; b=c; d=e");
    assert_eq!(parse.0, "");
    assert_eq!(parse.1.get("a").unwrap(), vec!("b"));
    assert_eq!(parse.1.get("b").unwrap(), vec!("c"));
    assert_eq!(parse.1.get("d").unwrap(), vec!("e"));
    let parse = key_value_map("a=b\n b=c\n d=e");
    assert_eq!(parse.0, "");
    assert_eq!(parse.1.get("a").unwrap(), vec!("b"));
    assert_eq!(parse.1.get("b").unwrap(), vec!("c"));
    assert_eq!(parse.1.get("d").unwrap(), vec!("e"));
}

#[test]
fn test_sec_kv_map() {
    let parse = sec_kv_map("a=0\n#b=9\n\n[a]a=1;b=2;c=3\n[b]a=-1;b=-2;c=-3\n[c]a=1;a=2");
    assert_eq!(parse.1.get("a", "c").unwrap(), vec!("3"));
    assert_eq!(parse.1.get("b", "c").unwrap(), vec!("-3"));
    assert_eq!(parse.1.get("c", "a").unwrap(), vec!("1", "2"));
}

#[test]
fn sections_on_lines_of_their_own() {
    let cfg = parse_pacman_config("a=0\n#b=9\n\n[a]\na=1;b=2;c=3\n[c]\na=1\na=2");
    assert_eq!(cfg.get("", "a").unwrap(), vec!("0"));
    assert!(cfg.get("", "b").is_none());
    assert_eq!(cfg.get("a", "c").unwrap(), vec!("3"));
    assert_eq!(cfg.get("c", "a").unwrap(), vec!("1", "2"));
}

#[test]
fn sections_of_one_name_are_merged() {
    let cfg = parse_pacman_config("[r]\na=1\n[s]\na=7\n[r]\na=2\nb=3\n");
    assert_eq!(cfg.get("r", "a").unwrap(), vec!("1", "2"));
    assert_eq!(cfg.get("r", "b").unwrap(), vec!("3"));
    assert_eq!(cfg.get("s", "a").unwrap(), vec!("7"));
}

#[test]
fn key_without_value_has_an_empty_list() {
    let cfg = parse_pacman_config("[options]\nColor\nParallelDownloads = 5\n");
    assert_eq!(cfg.get("options", "Color").unwrap(), Vec::<&str>::new());
    assert_eq!(cfg.get("options", "ParallelDownloads").unwrap(), vec!("5"));
    assert!(cfg.get("options", "Missing").is_none());
}

#[test]
fn value_keeps_trailing_white_space() {
    let cfg = parse_pacman_config("[options]\nHoldPkg = pacman glibc  \n");
    assert_eq!(cfg.get("options", "HoldPkg").unwrap(), vec!("pacman glibc  "));
}

#[test]
fn comment_without_line_feed_ends_the_reading() {
    let (rest, map) = key_value_map("a=1\n#tail");
    assert_eq!(rest, "#tail");
    assert_eq!(map.get("a").unwrap(), vec!("1"));
}

#[test]
fn first_element_is_taken() {
    assert_eq!(try_remove_first(vec![3, 4, 5]), Some(3));
    assert_eq!(try_remove_first(Vec::<u8>::new()), None);
}

#[test]
fn url_is_filled_in() {
    assert_eq!(
        server_url("https://mirror/$repo/os/$arch", "x86_64", "core"),
        "https://mirror/core/os/x86_64"
    );
    assert_eq!(server_url("$arch$arch-$repo$", "a", "r"), "aa-r$");
    assert_eq!(server_url("plain", "a", "r"), "plain");
    assert_eq!(server_url("$arc$arch", "$repo", "r"), "$arcr");
}

#[test]
fn included_file_names_the_server() {
    assert_eq!(
        included_server("# mirrors\nServer = https://a/$repo\nServer = https://b/$repo\n"),
        Some("https://a/$repo")
    );
    assert_eq!(included_server("[core]\nServer = https://a\n"), None);
}

const MAIN: &str = "[options]\nArchitecture = auto\nIgnorePkg   = linux  nvidia\tfoo \n\n\
                    [core]\nInclude = /etc/pacman.d/mirrorlist\n\n\
                    [extra]\nServer = https://x/$repo/$arch\nInclude = /unused\n";

#[test]
fn includes_are_listed() {
    assert_eq!(includes_needed(MAIN), vec!["/etc/pacman.d/mirrorlist".to_string()]);
}

#[test]
fn relevant_config_is_extracted() {
    let files = vec![(
        "/etc/pacman.d/mirrorlist".to_string(),
        "Server = https://m/$repo/os/$arch\n".to_string(),
    )];
    let (ignores, repos) = extract_relevant_config(MAIN, "aarch64", &files).unwrap();
    assert_eq!(ignores, vec!["linux".to_string(), "nvidia".to_string(), "foo".to_string()]);
    assert_eq!(
        repos,
        vec![
            ("core".to_string(), "https://m/core/os/aarch64".to_string()),
            ("extra".to_string(), "https://x/extra/aarch64".to_string()),
        ]
    );
}

#[test]
fn missing_architecture_is_that_of_the_host() {
    let (_, repos) =
        extract_relevant_config("[core]\nServer = s/$arch\n", "riscv64", &[]).unwrap();
    assert_eq!(repos, vec![("core".to_string(), "s/riscv64".to_string())]);
}

#[test]
fn named_architecture_is_kept() {
    let (_, repos) = extract_relevant_config(
        "[options]\nArchitecture = x86_64 \n[core]\nServer = s/$arch\n",
        "riscv64",
        &[],
    )
    .unwrap();
    assert_eq!(repos, vec![("core".to_string(), "s/x86_64".to_string())]);
}

#[test]
fn unknown_architecture_is_rejected() {
    assert!(extract_relevant_config("[options]\nArchitecture = mips\n", "x86_64", &[]).is_err());
}

#[test]
fn repository_without_server_is_rejected() {
    assert!(extract_relevant_config("[core]\nInclude = /nowhere\n", "x86_64", &[]).is_err());
    assert!(extract_relevant_config("[core]\nSigLevel = Never\n", "x86_64", &[]).is_err());
}
