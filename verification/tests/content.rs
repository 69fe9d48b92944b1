use pr_dedupe::content::FileAction;
use pr_dedupe::content::FileChange;
use pr_dedupe::content::assemble;
use pr_dedupe::content::filter_nonempty;
use pr_dedupe::content::filter_paths;
use pr_dedupe::content::parse;
use pr_dedupe::content::path_ends_with;
use pr_dedupe::content::raw_url;
use pr_dedupe::content::split_csv;

#[test]
fn parse_added_renders_symbol_path_and_content() {
    let rendered = parse(FileAction::Added, "a.txt", Some("hello"));
    assert_eq!(rendered, "+ : a.txt\nhello\n");
}

#[test]
fn parse_modified_uses_its_own_symbol() {
    let rendered = parse(FileAction::Modified, "src/lib.rs", Some("x"));
    assert_eq!(rendered, "M : src/lib.rs\nx\n");
}

#[test]
fn parse_without_content_omits_the_content_line() {
    assert_eq!(parse(FileAction::Removed, "gone.rs", None), "- : gone.rs\n");
    assert_eq!(parse(FileAction::Renamed, "new_name.rs", None), "^ : new_name.rs\n");
}

#[test]
fn parse_with_empty_content_keeps_the_content_line() {
    assert_eq!(parse(FileAction::Added, "a.txt", Some("")), "+ : a.txt\n\n");
}

#[test]
fn assemble_concatenates_in_record_order() {
    let changes = vec![
        FileChange {
            path: "a.txt".to_string(),
            action: FileAction::Added,
            content: Some("hello".to_string()),
        },
        FileChange {
            path: "b.txt".to_string(),
            action: FileAction::Modified,
            content: Some("world".to_string()),
        },
        FileChange { path: "c.txt".to_string(), action: FileAction::Removed, content: None },
        FileChange { path: "d.txt".to_string(), action: FileAction::Renamed, content: None },
    ];
    let blob = assemble(&changes);
    assert_eq!(blob, "+ : a.txt\nhello\nM : b.txt\nworld\n- : c.txt\n^ : d.txt\n");
}

#[test]
fn assemble_of_nothing_is_the_placeholder_blob() {
    let blob = assemble(&Vec::new());
    assert_eq!(blob, " ");
}

#[test]
fn split_csv_keeps_empty_pieces() {
    let pieces = split_csv("a.rs,b.rs,,c.rs");
    assert_eq!(pieces, vec!["a.rs", "b.rs", "", "c.rs"]);
}

#[test]
fn split_csv_of_empty_input_is_one_empty_piece() {
    assert_eq!(split_csv(""), vec![""]);
}

#[test]
fn filter_paths_drops_empty_and_ignored_entries() {
    let paths = split_csv("a.rs,,b.lock,c.rs,d.png");
    let ignored = vec![".lock".to_string(), ".png".to_string()];
    let kept = filter_paths(&paths, &ignored);
    assert_eq!(kept, vec!["a.rs", "c.rs"]);
}

#[test]
fn filter_nonempty_drops_only_empty_entries() {
    let paths = split_csv("a.lock,,b.rs");
    let kept = filter_nonempty(&paths);
    assert_eq!(kept, vec!["a.lock", "b.rs"]);
}

#[test]
fn path_ends_with_matches_suffixes_only() {
    assert!(path_ends_with("Cargo.lock", ".lock"));
    assert!(!path_ends_with("Cargo.lock", ".rs"));
    assert!(!path_ends_with(".rs", "src.rs"));
}

#[test]
fn raw_url_joins_repo_commit_and_path() {
    let u = raw_url("cs50victor/pr_dedupe", "abc123", "src/main.rs");
    assert_eq!(u, "https://github.com/cs50victor/pr_dedupe/raw/abc123/src/main.rs");
}

#[test]
fn each_action_has_its_symbol() {
    assert_eq!(FileAction::Added.symbol(), '+');
    assert_eq!(FileAction::Modified.symbol(), 'M');
    assert_eq!(FileAction::Removed.symbol(), '-');
    assert_eq!(FileAction::Renamed.symbol(), '^');
    assert_eq!(FileAction::Added.symbol_str(), "+");
    assert_eq!(FileAction::Renamed.symbol_str(), "^");
}
