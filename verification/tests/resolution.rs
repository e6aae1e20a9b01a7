use novelsaga::config::{candidate_file_names, FmtConfig, NovelSagaConfig};
use novelsaga::resolver::{
    find_config_in_directory, join_path, parent_dir, str_lex_le, ConfigLoader, ResolveStep,
};

fn cfg(indent: usize) -> NovelSagaConfig {
    NovelSagaConfig {
        fmt: FmtConfig {
            indent_spaces: indent,
            blank_lines_between_paragraphs: 1,
            markdown_only_use_pangu: true,
        },
    }
}

/// A directory entry of a pretend filesystem: the directory's path, the
/// candidate configuration file names present in it, and what parsing the
/// found file yields.
type FakeDir = (&'static str, &'static [&'static str], Option<NovelSagaConfig>);

fn resolve_with(
    loader: &mut ConfigLoader,
    fs: &[FakeDir],
    start_dir: &str,
    parse_count: &mut usize,
) -> Option<NovelSagaConfig> {
    let mut step = loader.begin_resolve(&start_dir.to_string());
    loop {
        match step {
            ResolveStep::Done(r) => return r,
            ResolveStep::Probe(dir) => {
                let present: Vec<String> = fs
                    .iter()
                    .find(|(d, _, _)| *d == dir)
                    .map(|(_, names, _)| names.iter().map(|n| n.to_string()).collect())
                    .unwrap_or_default();
                step = loader.on_probe(&dir, &present);
            }
            ResolveStep::Parse { dir, file: _ } => {
                *parse_count += 1;
                let parsed = fs.iter().find(|(d, _, _)| *d == dir).and_then(|(_, _, c)| *c);
                step = loader.on_parse(&dir, parsed);
            }
        }
    }
}

#[test]
fn ancestor_resolution_with_cache() {
    let a = cfg(7);
    let fs: &[FakeDir] = &[("/a", &[".novelsaga.toml"], Some(a))];
    let mut loader = ConfigLoader::new();
    let mut parses = 0usize;

    let start = parent_dir("/a/b/c/file.txt").unwrap();
    assert_eq!(start, "/a/b/c");
    let first = resolve_with(&mut loader, fs, &start, &mut parses);
    assert_eq!(first, Some(a));
    assert_eq!(parses, 1);

    let second = resolve_with(&mut loader, fs, "/a/b", &mut parses);
    assert_eq!(second, Some(a));
    assert_eq!(parses, 1, "the cached value must be reused without a re-parse");
}

#[test]
fn closest_config_wins() {
    let outer = cfg(1);
    let inner = cfg(2);
    let fs: &[FakeDir] = &[
        ("/a", &[".novelsaga.toml"], Some(outer)),
        ("/a/b", &["novelsaga.config.json"], Some(inner)),
    ];
    let mut loader = ConfigLoader::new();
    let mut parses = 0usize;
    let got = resolve_with(&mut loader, fs, "/a/b/c", &mut parses);
    assert_eq!(got, Some(inner));
}

#[test]
fn lexicographic_tie_break() {
    let present = vec![
        "novelsaga.config.json".to_string(),
        ".novelsaga.toml".to_string(),
    ];
    let chosen = find_config_in_directory("/a", &present).unwrap();
    assert_eq!(chosen, "/a/.novelsaga.toml");
}

#[test]
fn tie_break_drives_the_parse_step() {
    let fs: &[FakeDir] = &[(
        "/a",
        &[".novelsaga.toml", "novelsaga.config.json"],
        Some(cfg(3)),
    )];
    let mut loader = ConfigLoader::new();
    let step = loader.begin_resolve(&"/a".to_string());
    let dir = match step {
        ResolveStep::Probe(d) => d,
        _ => panic!("expected a probe of /a"),
    };
    let present: Vec<String> = fs[0].1.iter().map(|n| n.to_string()).collect();
    match loader.on_probe(&dir, &present) {
        ResolveStep::Parse { dir, file } => {
            assert_eq!(dir, "/a");
            assert_eq!(file, "/a/.novelsaga.toml");
        }
        _ => panic!("expected a parse step"),
    }
}

#[test]
fn parse_failure_aborts_the_search() {
    let outer = cfg(1);
    let fs: &[FakeDir] = &[
        ("/a", &[".novelsaga.toml"], Some(outer)),
        ("/a/b", &["novelsaga.config.json"], None),
    ];
    let mut loader = ConfigLoader::new();
    let mut parses = 0usize;
    let got = resolve_with(&mut loader, fs, "/a/b/c", &mut parses);
    assert_eq!(got, None, "a parse error is an error, not absence");
    assert_eq!(parses, 1);
}

#[test]
fn no_config_anywhere_resolves_to_none() {
    let fs: &[FakeDir] = &[];
    let mut loader = ConfigLoader::new();
    let mut parses = 0usize;
    assert_eq!(resolve_with(&mut loader, fs, "/x/y", &mut parses), None);
    assert_eq!(parses, 0);
}

#[test]
fn get_config_reads_the_cache() {
    let a = cfg(9);
    let fs: &[FakeDir] = &[("/p", &[".novelsaga.ron"], Some(a))];
    let mut loader = ConfigLoader::new();
    let mut parses = 0usize;
    assert!(loader.get_config(&"/p".to_string()).is_none());
    resolve_with(&mut loader, fs, "/p", &mut parses);
    assert_eq!(loader.get_config(&"/p".to_string()), Some(&a));
    assert!(loader.get_config(&"/q".to_string()).is_none());
}

#[test]
fn candidate_names_are_the_cartesian_product() {
    let names = candidate_file_names();
    assert_eq!(names.len(), 12);
    assert_eq!(names[0], "novelsaga.config.toml");
    assert_eq!(names[5], "novelsaga.config.corn");
    assert_eq!(names[6], ".novelsaga.toml");
    assert_eq!(names[11], ".novelsaga.corn");
}

#[test]
fn parent_dir_walks_upward() {
    assert_eq!(parent_dir("/a/b"), Some("/a".to_string()));
    assert_eq!(parent_dir("/a"), Some("/".to_string()));
    assert_eq!(parent_dir("/"), None);
    assert_eq!(parent_dir("plain"), None);
    assert_eq!(parent_dir("/a/b/"), Some("/a".to_string()));
}

#[test]
fn lexicographic_order_on_names() {
    assert!(str_lex_le(".novelsaga.toml", "novelsaga.config.json"));
    assert!(!str_lex_le("novelsaga.config.json", ".novelsaga.toml"));
    assert!(str_lex_le("ab", "abc"));
    assert!(!str_lex_le("abc", "ab"));
    assert!(str_lex_le("same", "same"));
}

#[test]
fn join_path_inserts_one_slash() {
    assert_eq!(join_path("/a", "x.toml"), "/a/x.toml");
    assert_eq!(join_path("/", "x.toml"), "/x.toml");
}
