use mdbook_autosummary::config::Config;
use mdbook_autosummary::fsmodel::{FsEntry, FsNode};
use mdbook_autosummary::parser::{DocFile, DocFolder, DocStructure, PathError};
use mdbook_autosummary::should_write;
use mdbook_autosummary::title::extract_title;
use mdbook_autosummary::AutoSummary;

fn lines(ls: &[&str]) -> Vec<String> {
    ls.iter().map(|l| l.to_string()).collect()
}

fn file(name: &str, ls: &[&str]) -> FsEntry {
    FsEntry { name: name.to_string(), node: FsNode::File(Some(lines(ls))) }
}

fn unreadable(name: &str) -> FsEntry {
    FsEntry { name: name.to_string(), node: FsNode::File(None) }
}

fn dir(name: &str, entries: Vec<FsEntry>) -> FsEntry {
    FsEntry { name: name.to_string(), node: FsNode::Dir(entries) }
}

fn default_config() -> Config {
    Config::new("index.md".to_string(), true)
}

const HEADER: &str =
    "<!-- Generated by mdbook-autosummary v0.1.0 - do not edit manually! -->\n\n";

#[test]
fn title_from_heading() {
    let t = extract_title(&lines(&["# Foo", "body"]), "chapter.md");
    assert_eq!(t, "Foo");
}

#[test]
fn title_comment_stripped() {
    let t = extract_title(&lines(&["# Foo <!-- comment -->"]), "chapter.md");
    assert_eq!(t, "Foo");
}

#[test]
fn title_comment_without_close_still_cut() {
    let t = extract_title(&lines(&["# Foo <!-- dangling"]), "chapter.md");
    assert_eq!(t, "Foo");
}

#[test]
fn title_trimmed() {
    let t = extract_title(&lines(&["#   Foo  "]), "chapter.md");
    assert_eq!(t, "Foo");
}

#[test]
fn title_empty_heading_falls_back_to_filename() {
    let t = extract_title(&lines(&["# ", "body"]), "chapter.md");
    assert_eq!(t, "chapter.md");
    let t = extract_title(&lines(&["#  <!-- note -->"]), "chapter.md");
    assert_eq!(t, "chapter.md");
}

#[test]
fn folder_with_empty_index_heading_named_by_folder() {
    let src = dir(
        "src",
        vec![
            file("index.md", &["# Book"]),
            dir("guide", vec![file("index.md", &["# "])]),
        ],
    );
    let out = AutoSummary::new()
        .gen_summary(&src, "src", &default_config())
        .expect("summary expected");
    assert!(out.contains("- [guide](guide/index.md)\n"));
}

#[test]
fn title_fallback_to_filename() {
    let t = extract_title(&lines(&["no heading here", "## minor"]), "chapter.md");
    assert_eq!(t, "chapter.md");
}

#[test]
fn title_only_first_heading_counts() {
    let t = extract_title(&lines(&["text", "# First", "# Second"]), "x.md");
    assert_eq!(t, "First");
}

#[test]
fn chapter_depth_rendering() {
    assert_eq!(DocFile::new("T".to_string(), "p".to_string(), 0).render(), "[T](p)\n");
    assert_eq!(DocFile::new("T".to_string(), "p".to_string(), 1).render(), "[T](p)\n");
    assert_eq!(DocFile::new("T".to_string(), "p".to_string(), 2).render(), "  - [T](p)\n");
    assert_eq!(DocFile::new("T".to_string(), "p".to_string(), 3).render(), "    - [T](p)\n");
}

#[test]
fn chapters_render_before_subfolders() {
    let sub = DocFolder::new(
        "Sub".to_string(),
        "sub".to_string(),
        Vec::new(),
        1,
        "index.md".to_string(),
    );
    let ch = DocFile::new("Chapter".to_string(), "z.md".to_string(), 1);
    let root = DocFolder::new(
        "Root".to_string(),
        "".to_string(),
        vec![DocStructure::Folder(sub), DocStructure::File(ch)],
        0,
        "index.md".to_string(),
    );
    assert_eq!(
        root.render(),
        "[Root](index.md)\n[Chapter](z.md)\n- [Sub](sub/index.md)\n"
    );
}

#[test]
fn scenario_book_with_guide() {
    let src = dir(
        "src",
        vec![
            file("index.md", &["# Book"]),
            file("intro.md", &["# Intro"]),
            dir("guide", vec![file("index.md", &["# Guide"]), file("setup.md", &["no heading"])]),
        ],
    );
    let out = AutoSummary::new()
        .gen_summary(&src, "src", &default_config())
        .expect("summary expected");
    let expected = format!(
        "{}{}",
        HEADER,
        "[Book](index.md)\n[Intro](intro.md)\n- [Guide](guide/index.md)\n  - [setup.md](guide/setup.md)\n"
    );
    assert_eq!(out, expected);
}

#[test]
fn scenario_folder_without_index_absent() {
    let src = dir(
        "src",
        vec![file("index.md", &["# Book"]), dir("empty", vec![file("notes.md", &["# Notes"])])],
    );
    let out = AutoSummary::new()
        .gen_summary(&src, "src", &default_config())
        .expect("summary expected");
    assert!(!out.contains("empty"));
    assert!(!out.contains("notes"));
    assert_eq!(out, format!("{}{}", HEADER, "[Book](index.md)\n"));
}

#[test]
fn root_without_index_is_fatal() {
    let src = dir("src", vec![file("intro.md", &["# Intro"])]);
    let out = AutoSummary::new().gen_summary(&src, "src", &default_config());
    assert!(out.is_none());
}

#[test]
fn folder_title_falls_back_to_folder_name() {
    let src = dir(
        "src",
        vec![
            file("index.md", &["# Book"]),
            dir("guide", vec![file("index.md", &["just text, no heading"])]),
        ],
    );
    let out = AutoSummary::new()
        .gen_summary(&src, "src", &default_config())
        .expect("summary expected");
    assert!(out.contains("- [guide](guide/index.md)\n"));
}

#[test]
fn summary_file_excluded() {
    let src = dir(
        "src",
        vec![file("SUMMARY.md", &["# Old"]), file("index.md", &["# Book"])],
    );
    let out = AutoSummary::new()
        .gen_summary(&src, "src", &default_config())
        .expect("summary expected");
    assert!(!out.contains("Old"));
    assert!(!out.contains("SUMMARY"));
}

#[test]
fn hidden_files_skipped_by_default() {
    let src = dir(
        "src",
        vec![
            file("index.md", &["# Book"]),
            file("_draft.md", &["# Draft"]),
            file(".notes.md", &["# Dots"]),
        ],
    );
    let out = AutoSummary::new()
        .gen_summary(&src, "src", &default_config())
        .expect("summary expected");
    assert!(!out.contains("Draft"));
    assert!(!out.contains("Dots"));
}

#[test]
fn hidden_files_kept_when_configured() {
    let src = dir(
        "src",
        vec![file("index.md", &["# Book"]), file("_draft.md", &["# Draft"])],
    );
    let config = Config::new("index.md".to_string(), false);
    let out = AutoSummary::new()
        .gen_summary(&src, "src", &config)
        .expect("summary expected");
    assert!(out.contains("[Draft](_draft.md)\n"));
}

#[test]
fn non_chapter_files_skipped() {
    let src = dir(
        "src",
        vec![file("index.md", &["# Book"]), file("diagram.svg", &["<svg>"])],
    );
    let out = AutoSummary::new()
        .gen_summary(&src, "src", &default_config())
        .expect("summary expected");
    assert!(!out.contains("diagram"));
}

#[test]
fn unreadable_file_skipped() {
    let src = dir("src", vec![file("index.md", &["# Book"]), unreadable("broken.md")]);
    let out = AutoSummary::new()
        .gen_summary(&src, "src", &default_config())
        .expect("summary expected");
    assert!(!out.contains("broken"));
}

#[test]
fn custom_index_name() {
    let src = dir(
        "src",
        vec![
            file("home.md", &["# Book"]),
            dir("guide", vec![file("home.md", &["# Guide"])]),
        ],
    );
    let config = Config::new("home.md".to_string(), true);
    let out = AutoSummary::new()
        .gen_summary(&src, "src", &config)
        .expect("summary expected");
    assert_eq!(
        out,
        format!("{}{}", HEADER, "[Book](home.md)\n- [Guide](guide/home.md)\n")
    );
}

#[test]
fn children_sorted_case_sensitively() {
    let src = dir(
        "src",
        vec![
            file("b.md", &["# Lower B"]),
            file("index.md", &["# Book"]),
            file("B.md", &["# Upper B"]),
            file("a.md", &["# Lower A"]),
        ],
    );
    let out = AutoSummary::new()
        .gen_summary(&src, "src", &default_config())
        .expect("summary expected");
    let upper = out.find("Upper B").unwrap();
    let lower_a = out.find("Lower A").unwrap();
    let lower_b = out.find("Lower B").unwrap();
    assert!(upper < lower_a && lower_a < lower_b);
}

#[test]
fn rendering_is_deterministic() {
    let src = dir(
        "src",
        vec![
            file("index.md", &["# Book"]),
            dir("guide", vec![file("index.md", &["# Guide"]), file("a.md", &["# A"])]),
        ],
    );
    let auto = AutoSummary::new();
    let first = auto.gen_summary(&src, "src", &default_config()).unwrap();
    let second = auto.gen_summary(&src, "src", &default_config()).unwrap();
    assert_eq!(first, second);
}

#[test]
fn second_run_skips_write() {
    let src = dir("src", vec![file("index.md", &["# Book"])]);
    let auto = AutoSummary::new();
    let generated = auto.gen_summary(&src, "src", &default_config()).unwrap();
    assert!(should_write(generated.as_str(), None));
    let regenerated = auto.gen_summary(&src, "src", &default_config()).unwrap();
    assert!(!should_write(regenerated.as_str(), Some(&generated)));
}

#[test]
fn should_write_on_changed_content() {
    let old = "old contents".to_string();
    assert!(should_write("new contents", Some(&old)));
}

#[test]
fn relative_to_strips_root() {
    let mut node = DocStructure::File(DocFile::new(
        "T".to_string(),
        "root/a.md".to_string(),
        1,
    ));
    assert!(node.relative_to("root").is_ok());
    match &node {
        DocStructure::File(f) => assert_eq!(f.path, "a.md"),
        _ => panic!("expected a file node"),
    }
}

#[test]
fn relative_to_rejects_foreign_path() {
    let mut node = DocStructure::File(DocFile::new(
        "T".to_string(),
        "root/a.md".to_string(),
        1,
    ));
    assert_eq!(node.relative_to("elsewhere"), Err(PathError::NotRooted));
    match &node {
        DocStructure::File(f) => assert_eq!(f.path, "root/a.md"),
        _ => panic!("expected a file node"),
    }
}

#[test]
fn relative_to_rejects_doubled_separator() {
    let mut node = DocStructure::File(DocFile::new("T".to_string(), "/a//a".to_string(), 1));
    assert_eq!(node.relative_to("/a"), Err(PathError::NotRooted));
}

#[test]
fn relative_to_twice_fails_fast_under_absolute_root() {
    let mut node = DocStructure::File(DocFile::new(
        "T".to_string(),
        "/root/a.md".to_string(),
        1,
    ));
    assert!(node.relative_to("/root").is_ok());
    match &node {
        DocStructure::File(f) => assert_eq!(f.path, "a.md"),
        _ => panic!("expected a file node"),
    }
    assert_eq!(node.relative_to("/root"), Err(PathError::NotRooted));
}

#[test]
fn relative_to_twice_fails_fast() {
    let mut node = DocStructure::File(DocFile::new(
        "T".to_string(),
        "root/a.md".to_string(),
        1,
    ));
    assert!(node.relative_to("root").is_ok());
    assert_eq!(node.relative_to("root"), Err(PathError::NotRooted));
}

#[test]
fn config_construction() {
    let c = Config::new("home.md".to_string(), false);
    assert_eq!(c.index_name, "home.md");
    assert!(!c.ignore_hidden);
    let d = Config::default();
    assert_eq!(d.index_name, "index.md");
    assert!(d.ignore_hidden);
}

#[test]
fn height_of_snapshot() {
    let src = dir("src", vec![file("index.md", &["# Book"]), dir("g", vec![])]);
    assert_eq!(src.height_capped(), Some(2));
    let flat = file("a.md", &[]);
    assert_eq!(flat.height_capped(), Some(1));
}
