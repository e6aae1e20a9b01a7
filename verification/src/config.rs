//! Configuration schema and the discovery convention for configuration
//! files: fixed base names crossed with fixed extensions, searched per
//! directory.

use vstd::prelude::*;

verus! {

/// Formatting options.
#[derive(Clone, Copy, Debug, PartialEq, Eq, Structural)]
pub struct FmtConfig {
    /// Leading spaces prepended to every kept line.
    pub indent_spaces: usize,
    /// Blank lines inserted between consecutive kept lines.
    pub blank_lines_between_paragraphs: usize,
    /// Markdown files receive only the spacing transform, skipping the
    /// indent and blank-line rules.
    pub markdown_only_use_pangu: bool,
}

impl Default for FmtConfig {
    /// The built-in defaults: indent 4, one blank line, markdown
    /// short-circuit on.
    fn default() -> (r: FmtConfig)
        ensures
            r == default_fmt_config(),
    {
        FmtConfig { indent_spaces: 4, blank_lines_between_paragraphs: 1, markdown_only_use_pangu: true }
    }
}

/// The built-in default formatting options.
pub open spec fn default_fmt_config() -> FmtConfig {
    FmtConfig { indent_spaces: 4, blank_lines_between_paragraphs: 1, markdown_only_use_pangu: true }
}

/// The whole resolved configuration.
#[derive(Clone, Copy, Debug, PartialEq, Eq, Structural)]
pub struct NovelSagaConfig {
    /// Formatting options.
    pub fmt: FmtConfig,
}

impl Default for NovelSagaConfig {
    /// The configuration used when no configuration file is found.
    fn default() -> (r: NovelSagaConfig)
        ensures
            r == default_config(),
    {
        NovelSagaConfig { fmt: FmtConfig::default() }
    }
}

/// The built-in default configuration.
pub open spec fn default_config() -> NovelSagaConfig {
    NovelSagaConfig { fmt: default_fmt_config() }
}

/// The candidate configuration file names, in the order given by the
/// cartesian product of the base-name list and the extension list.
pub open spec fn candidate_names_spec() -> Seq<Seq<char>> {
    seq![
        "novelsaga.config.toml"@,
        "novelsaga.config.yaml"@,
        "novelsaga.config.json"@,
        "novelsaga.config.json5"@,
        "novelsaga.config.ron"@,
        "novelsaga.config.corn"@,
        ".novelsaga.toml"@,
        ".novelsaga.yaml"@,
        ".novelsaga.json"@,
        ".novelsaga.json5"@,
        ".novelsaga.ron"@,
        ".novelsaga.corn"@,
    ]
}

/// The candidate configuration file names a directory is probed for.
pub fn candidate_file_names() -> (r: Vec<String>)
    ensures
        r@.len() == candidate_names_spec().len(),
        forall|i: int| 0 <= i < r@.len() ==> r@[i]@ == candidate_names_spec()[i],
{
    let mut r: Vec<String> = Vec::new();
    r.push(String::from_str("novelsaga.config.toml"));
    r.push(String::from_str("novelsaga.config.yaml"));
    r.push(String::from_str("novelsaga.config.json"));
    r.push(String::from_str("novelsaga.config.json5"));
    r.push(String::from_str("novelsaga.config.ron"));
    r.push(String::from_str("novelsaga.config.corn"));
    r.push(String::from_str(".novelsaga.toml"));
    r.push(String::from_str(".novelsaga.yaml"));
    r.push(String::from_str(".novelsaga.json"));
    r.push(String::from_str(".novelsaga.json5"));
    r.push(String::from_str(".novelsaga.ron"));
    r.push(String::from_str(".novelsaga.corn"));
    r
}

} // verus!
