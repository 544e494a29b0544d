//! The file tree, the walk over a project, and Git.

use majestic::files::{Entry, FileTree, FileWalk, Listing};
use majestic::git::{classify, statuses, GitStatus};
use majestic::git_panel::{one_line, parse_status, section_title, GitPanel, Section};
use majestic::surface::{Rgb, Surface, Theme};

fn theme() -> Theme {
    let rgb = |n: u8| Rgb { r: n, g: n, b: n };
    Theme {
        background: rgb(0),
        foreground: rgb(200),
        accent: rgb(120),
        success: rgb(130),
        error: rgb(140),
        info: rgb(150),
    }
}

fn entry(name: &str, is_dir: bool) -> Entry {
    Entry {
        name: name.to_owned(),
        is_dir,
    }
}

/// A project tree: `README.md`, `zebra.txt`, and `src/main.rs`.
fn tree_listings() -> Vec<Listing> {
    vec![
        Listing {
            dir: "/p".to_owned(),
            entries: vec![
                entry("zebra.txt", false),
                entry("README.md", false),
                entry("src", true),
                entry(".git", true),
            ],
        },
        Listing {
            dir: "/p/src".to_owned(),
            entries: vec![entry("main.rs", false)],
        },
    ]
}

fn names(tree: &FileTree) -> Vec<String> {
    tree.names().into_iter().map(|(name, _)| name).collect()
}

#[test]
fn lists_root_children_dirs_first_then_sorted() {
    let tree = FileTree::new("/p", &tree_listings());
    assert_eq!(names(&tree), vec!["src", "README.md", "zebra.txt"]);
}

#[test]
fn expanding_a_directory_reveals_its_children() {
    let listings = tree_listings();
    let mut tree = FileTree::new("/p", &listings);
    assert!(tree.activate(&listings).is_none());
    assert_eq!(
        names(&tree),
        vec!["src", "main.rs", "README.md", "zebra.txt"]
    );
    assert_eq!(tree.names()[1].1, 1);
}

#[test]
fn activating_a_file_returns_its_path() {
    let listings = tree_listings();
    let mut tree = FileTree::new("/p", &listings);
    tree.select_down();
    let opened = tree.activate(&listings).unwrap();
    assert_eq!(opened, "/p/README.md");
}

#[test]
fn renders_title_and_entries() {
    let theme = theme();
    let mut tree = FileTree::new("/p", &tree_listings());
    let mut surface = Surface::new(24, 6, theme.base_style());
    let area = surface.area();
    tree.render(&mut surface, area, &theme, true);

    let row_text = |y: u32| -> String {
        (0..surface.width())
            .filter_map(|x| surface.cell(x, y).map(|c| c.symbol))
            .collect()
    };
    assert!(
        row_text(0).contains("EXPLORER"),
        "title row: {:?}",
        row_text(0)
    );
    let body: String = (1..surface.height()).map(row_text).collect();
    assert!(body.contains("src"), "tree should list `src`: {body:?}");
}

#[test]
fn names_are_sorted_whatever_their_case() {
    let listings = vec![Listing {
        dir: "/p".to_owned(),
        entries: vec![entry("b", false), entry("Ä", false), entry("A", false)],
    }];
    assert_eq!(names(&FileTree::new("/p", &listings)), vec!["A", "b", "Ä"]);
}

#[test]
fn a_walk_collects_files_up_to_its_limit() {
    let listings = tree_listings();
    let walk_to = |limit: usize| -> Vec<String> {
        let mut walk = FileWalk::new("/p", limit);
        while let Some(dir) = walk.next_dir() {
            let found = listings.iter().find(|listing| listing.dir == dir);
            if let Some(listing) = found {
                walk.visit(&dir, &listing.entries);
            }
        }
        walk.files().clone()
    };
    let mut all = walk_to(10);
    all.sort();
    assert_eq!(all, vec!["/p/README.md", "/p/src/main.rs", "/p/zebra.txt"]);
    assert_eq!(walk_to(1).len(), 1);
    assert!(walk_to(0).is_empty());
}

#[test]
fn classify_porcelain_codes() {
    assert_eq!(classify("??"), GitStatus::Untracked);
    assert_eq!(classify(" M"), GitStatus::Modified);
    assert_eq!(classify("MM"), GitStatus::Modified);
    assert_eq!(classify("A "), GitStatus::Added);
    assert_eq!(classify(" D"), GitStatus::Deleted);
    assert_eq!(classify("R "), GitStatus::Modified);
}

#[test]
fn non_repository_yields_empty() {
    assert!(statuses("/p", "").is_empty());
}

#[test]
fn untracked_file_is_reported() {
    let map = statuses("/p", "?? new.txt\n");
    assert_eq!(map.get("/p/new.txt"), Some(GitStatus::Untracked));
    assert_eq!(map.get("/p/other.txt"), None);
}

#[test]
fn parses_branch_with_ahead_behind() {
    let status = parse_status("## main...origin/main [ahead 2, behind 1]\n");
    assert_eq!(status.branch, "main");
    assert_eq!(status.ahead, 2);
    assert_eq!(status.behind, 1);
}

#[test]
fn classifies_staged_unstaged_untracked() {
    let porcelain = "## main\nM  staged.rs\n M unstaged.rs\nMM both.rs\nA  added.rs\n?? new.txt\n";
    let status = parse_status(porcelain);
    assert_eq!(status.staged.len(), 3, "M , MM, A  are staged");
    assert_eq!(status.unstaged.len(), 2, " M and MM are unstaged");
    assert_eq!(status.untracked.len(), 1);
    assert_eq!(status.untracked[0].path, "new.txt");
    assert_eq!(status.staged[2].code, 'A');
}

#[test]
fn a_rename_takes_the_new_path() {
    let status = parse_status("## main\nR  old.rs -> new.rs\n");
    assert_eq!(status.staged.len(), 1);
    assert_eq!(status.staged[0].path, "new.rs");
    assert_eq!(status.staged[0].code, 'R');
}

#[test]
fn section_titles_are_human() {
    assert_eq!(section_title(Section::Staged), "Staged changes");
    assert_eq!(section_title(Section::Untracked), "Untracked files");
}

#[test]
fn stage_then_commit_against_a_real_repo() {
    let mut panel = GitPanel::open("## main\n M file.txt\n");
    assert_eq!(panel.status().unstaged.len(), 1, "the edit is unstaged");
    assert!(panel.status().staged.is_empty());

    let stage = panel.stage().expect("a file is selected");
    assert!(stage.args.contains(&"file.txt".to_owned()));
    panel.finish(&stage.success, None, Some("## main\nM  file.txt\n"));
    assert_eq!(panel.status().staged.len(), 1, "stage moved it to the index");
    assert!(panel.status().unstaged.is_empty());

    let commit = panel.commit("second").expect("something is staged");
    assert!(commit.args.contains(&"second".to_owned()));
    panel.finish(&commit.success, None, Some("## main\n"));
    assert!(
        panel.status().staged.is_empty() && panel.status().unstaged.is_empty(),
        "clean after commit: {:?}",
        panel.status()
    );
}

#[test]
fn a_failed_git_command_is_told() {
    let mut panel = GitPanel::open("## main\n M file.txt\n");
    let stage = panel.stage().unwrap();
    panel.finish(&stage.success, Some("fatal: no\nmore"), None);
    assert!(panel.notice().as_deref().unwrap().contains("fatal: no"));
    assert_eq!(one_line("a\n  b"), "a b");
}

#[test]
fn a_diff_opens_and_closes() {
    let mut panel = GitPanel::open("## main\n M file.txt\n");
    let request = panel.show_diff().expect("an unstaged change");
    panel.diff_ready(&request, Ok("+added\n-removed\n".to_owned()));
    assert!(panel.diff_open());
    panel.scroll_diff(1);
    let theme = theme();
    let mut surface = Surface::new(40, 8, theme.base_style());
    let area = surface.area();
    panel.render(&mut surface, area, &theme);
    panel.close_diff();
    assert!(!panel.diff_open());
}

#[test]
fn a_branch_may_hold_dots() {
    let status = parse_status("## release-1.2...origin/release-1.2 [ahead 2]\n");
    assert_eq!(status.branch, "release-1.2");
    assert_eq!(status.ahead, 2);
    assert_eq!(status.behind, 0);
    assert_eq!(parse_status("## v1.0\n").branch, "v1.0");
}

#[test]
fn activating_a_directory_twice_restores_the_lines() {
    let listings = tree_listings();
    let mut tree = FileTree::new("/p", &listings);
    let before = names(&tree);
    assert!(tree.activate(&listings).is_none());
    assert_ne!(names(&tree), before);
    assert!(tree.activate(&listings).is_none());
    assert_eq!(names(&tree), before);

    let mut empty = FileTree::new("/nowhere", &listings);
    assert!(empty.activate(&listings).is_none());
    assert!(names(&empty).is_empty());
}
