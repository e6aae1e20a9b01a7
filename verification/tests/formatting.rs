use novelsaga::config::{FmtConfig, NovelSagaConfig};
use novelsaga::formatter::{formatter, is_markdown_path};
use novelsaga::text::{split_lines, trim_str};

fn cfg(indent: usize, blank: usize, md_only: bool) -> NovelSagaConfig {
    NovelSagaConfig {
        fmt: FmtConfig {
            indent_spaces: indent,
            blank_lines_between_paragraphs: blank,
            markdown_only_use_pangu: md_only,
        },
    }
}

#[test]
fn concrete_example_mixed_script() {
    let c = cfg(2, 1, true);
    let out = formatter(&c, "Hello世界\n\n  Second line  \n", "story.txt");
    assert_eq!(out, "  Hello 世界\n\n  Second line");
}

#[test]
fn spacing_transform_inserts_boundary_space() {
    let c = cfg(0, 0, true);
    let out = formatter(&c, "Hello世界", "a.txt");
    assert_eq!(out, "Hello 世界");
}

#[test]
fn idempotent_plain_text() {
    let c = cfg(4, 1, true);
    let once = formatter(&c, "one\n\n  two  \nthree\n", "a.txt");
    let twice = formatter(&c, &once, "a.txt");
    assert_eq!(once, twice);
}

#[test]
fn idempotent_mixed_script() {
    let c = cfg(3, 2, false);
    let once = formatter(&c, "你好world\n  中文123  \n\n\nlast行\n", "b.txt");
    let twice = formatter(&c, &once, "b.txt");
    assert_eq!(once, twice);
}

#[test]
fn idempotent_markdown() {
    let c = cfg(4, 1, true);
    let once = formatter(&c, "# 标题title\n\ntext正文 here\n", "notes.md");
    let twice = formatter(&c, &once, "notes.md");
    assert_eq!(once, twice);
}

#[test]
fn markdown_short_circuit_is_spacing_only() {
    let c = cfg(7, 3, true);
    let content = "line one\n\n   line two   \n";
    let out = formatter(&c, content, "notes.md");
    let spaced = pangu::spacing(content).into_owned();
    assert_eq!(out, spaced);
}

#[test]
fn markdown_extension_is_case_insensitive() {
    let c = cfg(5, 2, true);
    let content = "a\n\n  b  \n";
    assert_eq!(formatter(&c, content, "UP.MD"), content);
    assert_eq!(formatter(&c, content, "mixed.Md"), content);
}

#[test]
fn markdown_flag_off_reformats_markdown_too() {
    let c = cfg(1, 0, false);
    let out = formatter(&c, "x\n\n  y  \n", "notes.md");
    assert_eq!(out, " x\n y");
}

#[test]
fn markdown_path_detection() {
    assert!(is_markdown_path("a.md"));
    assert!(is_markdown_path("/dir/sub/a.MD"));
    assert!(is_markdown_path("b.mD"));
    assert!(!is_markdown_path("a.mdx"));
    assert!(!is_markdown_path("amd"));
    assert!(!is_markdown_path("/dir/.md"));
    assert!(!is_markdown_path("/dir.md/file.txt"));
}

#[test]
fn blank_only_content_becomes_empty() {
    let c = cfg(4, 1, true);
    assert_eq!(formatter(&c, "   \n \t \n", "a.txt"), "");
}

#[test]
fn empty_content_stays_empty() {
    let c = cfg(4, 1, true);
    assert_eq!(formatter(&c, "", "a.txt"), "");
}

#[test]
fn zero_indent_trims_without_prefix() {
    let c = cfg(0, 1, true);
    assert_eq!(formatter(&c, "  a  \n\n  b\n", "a.txt"), "a\n\nb");
}

#[test]
fn blank_line_count_between_paragraphs() {
    let c = cfg(0, 3, true);
    assert_eq!(formatter(&c, "a\nb\n", "a.txt"), "a\n\n\n\nb");
}

#[test]
fn gap_zero_joins_adjacent_lines() {
    let c = cfg(2, 0, true);
    assert_eq!(formatter(&c, "a\n\n\nb\n", "a.txt"), "  a\n  b");
}

#[test]
fn trim_str_removes_edges_only() {
    assert_eq!(trim_str("  a b  "), "a b");
    assert_eq!(trim_str("\t\u{3000}x\u{a0}\n"), "x");
    assert_eq!(trim_str("   "), "");
    assert_eq!(trim_str(""), "");
}

#[test]
fn split_lines_follows_line_convention() {
    let v = split_lines("a\nb\n");
    assert_eq!(v, vec!["a".to_string(), "b".to_string()]);
    let w = split_lines("a\n\nb");
    assert_eq!(w, vec!["a".to_string(), "".to_string(), "b".to_string()]);
    assert_eq!(split_lines(""), Vec::<String>::new());
    assert_eq!(split_lines("\n"), vec!["".to_string()]);
}
