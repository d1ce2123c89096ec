use sap::escape::_convert_unicode_escapes;
use sap::entry::{extension, passes_display, should_recurse, traversal_depth, Display, FileEntry, FileType, Layout};
use sap::flags::{Block, BlockArgs, Blocks, ColorConfig, ColorOption, Config, ExitCode, LlmOutput, ThemeOption};
use sap::meta::{AccessControl, Permissions, SymLink};
use sap::pattern::{process_entry, IgnoreGlobError, IgnoreGlobs};
use sap::project::{detect_build_systems, detect_project_type, ProjectType};
use sap::shield::{grep_lines, head_lines, tail_lines, Shield, ShieldRecord, ShieldResult, MAX_JSON_SIZE_BYTES};
use sap::sort::{assemble_sorters, by_meta, sort_entries, DirGrouping, SortColumn, SortFlags, SortOrder};
use sap::status::{GitCache, GitFileStatus, GitStatus, GitStatusInfo, StatusRecord};
use sap::tree::{build_tree, TreeNode};
use std::cmp::Ordering;

fn entry(path: &str, depth: usize, dir: bool) -> FileEntry {
    let name = path.rsplit('/').next().unwrap().to_string();
    FileEntry {
        path: path.to_string(),
        name,
        file_type: if dir {
            FileType::Directory { uid: false }
        } else {
            FileType::File { uid: false, executable: false }
        },
        size: Some(if dir { 4096 } else { 8 }),
        modified: Some(0),
        mode: if dir { 0o755 } else { 0o644 },
        uid: 0,
        gid: 0,
        inode: 1,
        links: 1,
        depth,
        is_symlink: false,
        broken_link: false,
        git_status: None,
    }
}

fn name_sorters() -> Vec<(SortOrder, sap::sort::SortKey)> {
    assemble_sorters(&SortFlags {
        column: SortColumn::Name,
        order: SortOrder::Default,
        dir_grouping: DirGrouping::Mixed,
    })
}

fn node_count(n: &TreeNode) -> usize {
    1 + n.children.iter().map(node_count).sum::<usize>()
}

/// The per-entry filter of a default tree listing, then the tree.
fn tree_of(entries: Vec<FileEntry>) -> sap::tree::TreeBuild {
    let globs = IgnoreGlobs::default();
    let kept: Vec<FileEntry> = entries
        .into_iter()
        .filter(|e| process_entry(Display::VisibleOnly, Layout::Tree, &globs, &e.name, e.file_type.is_directory()))
        .collect();
    build_tree(kept, &name_sorters())
}

#[test]
fn test_configuration_from_none() {
    assert!(matches!(IgnoreGlobs::configure_from(&vec![], &Config::with_none()), Ok(..)));
}

#[test]
fn test_configuration_from_args() {
    let cli = vec![".git".to_string()];
    assert!(matches!(IgnoreGlobs::configure_from(&cli, &Config::with_none()), Ok(..)));
}

#[test]
fn test_configuration_from_config() {
    let mut c = Config::with_none();
    c.ignore_globs = Some(vec![".git".into()]);
    assert!(matches!(IgnoreGlobs::configure_from(&vec![], &c), Ok(..)));
}

#[test]
fn test_from_cli_none() {
    assert!(IgnoreGlobs::from_cli(&vec![]).is_none());
}

#[test]
fn test_from_config_none() {
    assert!(IgnoreGlobs::from_config(&Config::with_none()).is_none());
}

#[test]
fn test_pattern_classification() {
    let globs = IgnoreGlobs::default();

    assert!(globs.is_match("test.jpg"));
    assert!(globs.is_match("file.PNG"));
    assert!(globs.is_match("archive.tar.gz"));

    assert!(globs.is_match(".git"));
    assert!(globs.is_match("node_modules"));
    assert!(globs.is_match("target"));

    assert!(!globs.is_match("README.md"));
    assert!(!globs.is_match("src"));
    assert!(!globs.is_match("main.rs"));
}

#[test]
fn test_orphaned_children_are_handled_with_warnings() {
    let built = tree_of(vec![
        entry("/tmp/t/.hidden", 1, true),
        entry("/tmp/t/.hidden/config", 2, false),
        entry("/tmp/t/visible", 1, true),
        entry("/tmp/t/visible/file.txt", 2, false),
    ]);
    assert_eq!(built.orphans.len(), 1);
    assert!(built.orphans[0].entry.path.contains("config"));
    assert!(built.orphans[0].parent.contains(".hidden"));
    assert_eq!(built.roots.len(), 1);
    assert_eq!(built.roots[0].entry.name, "visible");
    assert_eq!(built.roots[0].children.len(), 1);
}

#[test]
fn test_no_orphaned_warnings_for_normal_directory_structure() {
    let built = tree_of(vec![
        entry("/tmp/t/dir1", 1, true),
        entry("/tmp/t/dir1/file1.txt", 2, false),
        entry("/tmp/t/dir2", 1, true),
        entry("/tmp/t/dir2/file2.txt", 2, false),
    ]);
    assert!(built.orphans.is_empty());
    assert_eq!(built.roots.len(), 2);
    assert_eq!(built.roots[0].entry.name, "dir1");
    assert_eq!(built.roots[1].entry.name, "dir2");
    assert_eq!(built.roots[0].children.len(), 1);
    assert_eq!(built.roots[0].children[0].entry.name, "file1.txt");
    assert_eq!(built.roots[1].children.len(), 1);
    assert_eq!(built.roots[1].children[0].entry.name, "file2.txt");
}

#[test]
fn test_orphaned_children_with_ignore_globs() {
    let built = tree_of(vec![
        entry("/tmp/t/.git", 1, true),
        entry("/tmp/t/.git/HEAD", 2, false),
        entry("/tmp/t/src", 1, true),
        entry("/tmp/t/src/main.rs", 2, false),
    ]);
    assert_eq!(built.orphans.len(), 1);
    assert!(built.orphans[0].parent.contains(".git"));
    assert!(built.orphans[0].entry.path.contains("HEAD"));
    assert_eq!(built.roots.len(), 1);
    assert_eq!(built.roots[0].entry.name, "src");
}

#[test]
fn test_deeply_nested_orphaned_children() {
    let built = tree_of(vec![
        entry("/tmp/t/.hidden", 1, true),
        entry("/tmp/t/.hidden/subdir", 2, true),
        entry("/tmp/t/.hidden/subdir/file.txt", 3, false),
        entry("/tmp/t/visible.txt", 1, false),
    ]);
    assert_eq!(built.orphans.len(), 2);
    assert!(built.orphans.iter().any(|o| o.parent.contains(".hidden") && o.entry.path.ends_with("subdir")));
    assert!(built.orphans.iter().any(|o| o.entry.path.ends_with("file.txt")));
    assert_eq!(built.roots.len(), 1);
    assert_eq!(built.roots[0].entry.name, "visible.txt");
}

#[test]
fn classification_does_not_change_verdicts() {
    let patterns = vec!["*.PNG", "build", "*.min.*", "cache?"];
    let (globs, rejected) = IgnoreGlobs::from_patterns(&patterns).unwrap();
    assert!(rejected.is_empty());
    assert!(globs.is_match("photo.png"));
    assert!(globs.is_match("photo.Png"));
    assert!(!globs.is_match("png"));
    assert!(globs.is_match("build"));
    assert!(!globs.is_match("Build"));
    assert!(globs.is_match("app.min.js"));
    assert!(globs.is_match("cache1"));
    assert!(!globs.is_match("cache12"));
    assert!(!globs.is_match("main.rs"));
}

#[test]
fn malformed_glob_is_rejected() {
    let patterns = vec!["ok", "[unclosed", "*.JPG", "Target"];
    let (globs, rejected) = IgnoreGlobs::from_patterns(&patterns).unwrap();
    assert_eq!(rejected, vec!["[unclosed".to_string()]);
    assert!(globs.is_match("ok"));
    assert!(globs.is_match("photo.jpg"));
    assert!(globs.is_match("photo.Jpg"));
    assert!(globs.is_match("Target"));
    assert!(!globs.is_match("target"));
    assert!(!globs.is_match("[unclosed"));
    assert!(!matches!(IgnoreGlobs::from_patterns(&vec![]), Err(IgnoreGlobError::BuildFailed)));
}

#[test]
fn extension_follows_last_dot() {
    assert_eq!(extension("archive.tar.gz"), Some("gz".to_string()));
    assert_eq!(extension(".git"), None);
    assert_eq!(extension(".."), None);
    assert_eq!(extension("noext"), None);
    assert_eq!(extension("trailing."), Some(String::new()));
}

#[test]
fn display_modes_filter_names() {
    assert!(!passes_display(Display::VisibleOnly, ".hidden", true));
    assert!(passes_display(Display::VisibleOnly, "config", false));
    assert!(!passes_display(Display::AlmostAll, "..", true));
    assert!(passes_display(Display::AlmostAll, ".hidden", true));
    assert!(!passes_display(Display::DirectoryOnly, "f", false));
    assert!(passes_display(Display::All, ".", true));
    assert_eq!(traversal_depth(Layout::Grid, false, 7), 1);
    assert_eq!(traversal_depth(Layout::Grid, true, 7), 7);
    assert_eq!(traversal_depth(Layout::Tree, false, 7), 7);
}

#[test]
fn name_sort_ignores_case_and_second_sort_keeps_order() {
    let mut entries = vec![
        entry("/r/beta", 1, false),
        entry("/r/Alpha", 1, false),
        entry("/r/alpha2", 1, false),
        entry("/r/Gamma", 1, false),
    ];
    let sorters = name_sorters();
    sort_entries(&mut entries, &sorters);
    let names: Vec<String> = entries.iter().map(|e| e.name.clone()).collect();
    assert_eq!(names, vec!["Alpha", "alpha2", "beta", "Gamma"]);
    sort_entries(&mut entries, &sorters);
    let again: Vec<String> = entries.iter().map(|e| e.name.clone()).collect();
    assert_eq!(names, again);
}

#[test]
fn comparator_chain_first_difference_decides() {
    let sorters = assemble_sorters(&SortFlags {
        column: SortColumn::Size,
        order: SortOrder::Reverse,
        dir_grouping: DirGrouping::First,
    });
    assert_eq!(sorters.len(), 2);
    let dir = entry("/r/d", 1, true);
    let small = entry("/r/a", 1, false);
    let mut big = entry("/r/b", 1, false);
    big.size = Some(100);
    assert_eq!(by_meta(&sorters, &dir, &small), Ordering::Less);
    assert_eq!(by_meta(&sorters, &small, &big), Ordering::Less);
    assert_eq!(by_meta(&sorters, &big, &small), Ordering::Greater);
    assert_eq!(by_meta(&sorters, &small, &small), Ordering::Equal);
}

#[test]
fn version_sort_orders_numbers_naturally() {
    let sorters = assemble_sorters(&SortFlags {
        column: SortColumn::Version,
        order: SortOrder::Default,
        dir_grouping: DirGrouping::Mixed,
    });
    let mut entries = vec![entry("/r/b 10.txt", 1, false), entry("/r/b 5.txt", 1, false), entry("/r/a.txt", 1, false)];
    sort_entries(&mut entries, &sorters);
    let names: Vec<String> = entries.iter().map(|e| e.name.clone()).collect();
    assert_eq!(names, vec!["a.txt", "b 5.txt", "b 10.txt"]);
}

#[test]
fn directory_status_is_the_worst_below_it() {
    let cache = GitCache::new(vec![
        StatusRecord {
            path: "/repo/d/a".to_string(),
            info: GitStatusInfo { index_status: None, workdir_status: Some(GitStatus::Modified) },
        },
        StatusRecord {
            path: "/repo/d/b".to_string(),
            info: GitStatusInfo { index_status: None, workdir_status: Some(GitStatus::Ignored) },
        },
        StatusRecord {
            path: "/repo/dx".to_string(),
            info: GitStatusInfo { index_status: Some(GitStatus::Conflicted), workdir_status: None },
        },
    ]);
    let d = cache.get("/repo/d", true);
    assert_eq!(d.workdir, GitStatus::Modified);
    assert_eq!(d.index, GitStatus::Unmodified);
    let f = cache.get("/repo/d/b", false);
    assert_eq!(f, GitFileStatus { index: GitStatus::Unmodified, workdir: GitStatus::Ignored });
    assert_eq!(cache.get("/repo/none", false), GitFileStatus::default());
    assert_eq!(GitCache::empty().get("/repo", true), GitFileStatus::default());
}

fn record(path: &str, kind: &str, size: u64, line_len: usize) -> ShieldRecord {
    ShieldRecord {
        line: "x".repeat(line_len),
        path: Some(path.to_string()),
        kind: Some(kind.to_string()),
        size: Some(size),
    }
}

#[test]
fn shield_threshold_is_inclusive() {
    let shield = Shield::new("/tmp/sap".to_string());
    let at = vec![record("/r/a", "File", 1, MAX_JSON_SIZE_BYTES - 2)];
    assert!(matches!(shield.process(at, Some("/r"), "/tmp/sap/x.jsonl".to_string()), ShieldResult::PassThrough(_)));
    let over = vec![record("/r/a", "File", 1, MAX_JSON_SIZE_BYTES - 1)];
    match shield.process(over, Some("/r"), "/tmp/sap/x.jsonl".to_string()) {
        ShieldResult::FileShielded { path, entry_count, summary, original_size } => {
            assert_eq!(path, "/tmp/sap/x.jsonl");
            assert_eq!(entry_count, 1);
            assert_eq!(summary.total_entries, 1);
            assert_eq!(original_size, MAX_JSON_SIZE_BYTES + 1);
        },
        _ => panic!("expected a spill"),
    }
}

#[test]
fn shield_summary_counts_and_ranks() {
    let mut recs = vec![
        record("/r/src/main.rs", "File", 10, 4),
        record("/r/src/lib.rs", "File", 30, 4),
        record("/r/docs/guide.md", "File", 100, 4),
        record("/r/src", "Directory", 4096, 4),
        record("/r/Cargo.toml", "File", 5, 4),
    ];
    recs.push(ShieldRecord { line: "x".repeat(MAX_JSON_SIZE_BYTES), path: None, kind: None, size: None });
    let shield = Shield::new("/tmp/sap".to_string());
    match shield.process(recs, Some("/r"), "/tmp/sap/y.jsonl".to_string()) {
        ShieldResult::FileShielded { summary, .. } => {
            assert_eq!(summary.total_entries, 6);
            assert_eq!(summary.top_level_dirs, vec!["src", "docs", "Cargo.toml"]);
            assert_eq!(summary.file_types_summary, vec![("File".to_string(), 4), ("Directory".to_string(), 1)]);
            assert_eq!(summary.marker_files, vec!["src/main.rs", "src/lib.rs", "Cargo.toml"]);
            assert_eq!(summary.largest_dirs[0], ("/r".to_string(), 4101));
            assert_eq!(summary.largest_dirs[1], ("/r/docs".to_string(), 100));
            assert_eq!(summary.largest_dirs[2], ("/r/src".to_string(), 40));
            assert_eq!(summary.largest_dirs.len(), 3);
            assert_eq!(detect_project_type(&summary.marker_files, &summary.top_level_dirs), ProjectType::Library);
            assert_eq!(detect_build_systems(&summary.marker_files), vec!["Cargo"]);
        },
        _ => panic!("expected a spill"),
    }
}

#[test]
fn end_to_end_flat_and_tree() {
    let entries = vec![
        entry("/tmp/t/dir2", 1, true),
        entry("/tmp/t/dir2/file2.txt", 2, false),
        entry("/tmp/t/dir1", 1, true),
        entry("/tmp/t/dir1/file1.txt", 2, false),
    ];
    let mut top: Vec<FileEntry> = entries.iter().filter(|e| e.depth == 1).cloned().collect();
    sort_entries(&mut top, &name_sorters());
    assert_eq!(top[0].name, "dir1");
    assert_eq!(top[1].name, "dir2");
    let built = build_tree(entries, &name_sorters());
    assert_eq!(built.roots.len(), 2);
    assert!(built.orphans.is_empty());
    for root in &built.roots {
        assert_eq!(root.children.len(), 1);
        assert_eq!(node_count(root), 2);
    }
}

#[test]
fn blocks_edit_in_place() {
    let mut b = Blocks::long();
    b.optional_prepend_inode();
    b.optional_prepend_inode();
    assert_eq!(b.0[0], Block::INode);
    assert_eq!(b.0.len(), 7);
    b.optional_insert_context();
    assert_eq!(b.0[4], Block::Context);
    b.optional_add_git_status();
    assert_eq!(b.0[b.0.len() - 2], Block::GitStatus);
    assert!(b.displays_size());
    assert_eq!(Block::Date.get_header(), "Date Modified");
    let mut d = Blocks::default();
    d.optional_insert_context();
    assert_eq!(d.0, vec![Block::Context, Block::Name]);
}

#[test]
fn exit_code_only_rises() {
    let mut code = ExitCode::OK;
    code.set_if_greater(ExitCode::MajorIssue);
    code.set_if_greater(ExitCode::MinorIssue);
    assert_eq!(code, ExitCode::MajorIssue);
    assert_eq!(ColorOption::from_arg_str("never"), ColorOption::Never);
}

#[test]
fn permissions_decode_mode_bits() {
    let p = Permissions::from_mode(0o4751);
    assert!(p.user_read && p.user_write && p.user_execute && p.setuid);
    assert!(p.group_read && !p.group_write && p.group_execute);
    assert!(!p.other_read && p.other_execute);
    assert_eq!(p._mode(), 0o4751);
    assert!(p.is_executable());
    assert_eq!(Permissions::bits_to_octal(true, false, true), 5);
}

#[test]
fn link_and_access_control_data() {
    let l = SymLink::new(Some("../target".to_string()), false);
    assert_eq!(l.symlink_string(), Some("../target".to_string()));
    assert!(!l.valid());
    let ac = AccessControl::from_data(true, b"system_u:object_r", &[0xff]);
    assert!(ac.has_acl());
    assert!(ac.has_context());
    let none = AccessControl::from_data(false, b"", b"");
    assert!(!none.has_context());
}

#[test]
fn theme_follows_configuration() {
    let mut c = Config::with_none();
    assert_eq!(ThemeOption::from_config(&c), ThemeOption::Default);
    c.color = Some(ColorConfig { when: None, theme: Some(ThemeOption::CustomLegacy("t.yaml".to_string())) });
    assert_eq!(ThemeOption::from_config(&c), ThemeOption::CustomLegacy("t.yaml".to_string()));
    c.classic = Some(true);
    assert_eq!(ThemeOption::from_config(&c), ThemeOption::NoColor);
    assert_eq!(sap::meta::Method::Selinux.name(), "security.selinux");
}

#[test]
fn valid_subtree_has_no_orphans_and_keeps_every_entry() {
    let entries = vec![
        entry("/r/a", 1, true),
        entry("/r/a/b", 2, true),
        entry("/r/a/b/c.txt", 3, false),
        entry("/r/a/d.txt", 2, false),
        entry("/r/e.txt", 1, false),
    ];
    let built = build_tree(entries, &name_sorters());
    assert!(built.orphans.is_empty());
    let total: usize = built.roots.iter().map(node_count).sum();
    assert_eq!(total, 5);
    assert_eq!(built.roots.len(), 2);
    assert_eq!(built.roots[0].children[0].entry.name, "b");
    assert_eq!(built.roots[0].children[0].children[0].entry.name, "c.txt");
}

#[test]
fn file_type_from_mode() {
    assert_eq!(FileType::new(0o100755, None), FileType::File { uid: false, executable: true });
    assert_eq!(FileType::new(0o104644, None), FileType::File { uid: true, executable: false });
    assert_eq!(FileType::new(0o040755, None), FileType::Directory { uid: false });
    assert_eq!(FileType::new(0o120777, Some(true)), FileType::SymLink { is_dir: true });
    assert_eq!(FileType::new(0o120777, None), FileType::SymLink { is_dir: false });
    assert_eq!(FileType::new(0o010644, None), FileType::Pipe);
    assert_eq!(FileType::new(0o140755, None), FileType::Socket);
    assert!(FileType::new(0o040755, None).is_dirlike());
}

#[test]
fn spilled_file_exploration() {
    let lines: Vec<String> = vec!["{\"path\":\"/r/Main.rs\"}", "{\"path\":\"/r/b\"}", "{\"path\":\"/r/MAIN.md\"}"]
        .into_iter()
        .map(String::from)
        .collect();
    assert_eq!(head_lines(lines.clone(), 2), lines[..2].to_vec());
    assert_eq!(head_lines(lines.clone(), 9), lines);
    assert_eq!(tail_lines(&lines, 1), lines[2..].to_vec());
    assert_eq!(tail_lines(&lines, 5), lines);
    assert_eq!(grep_lines(&lines, "main"), vec![lines[0].clone(), lines[2].clone()]);
    assert!(grep_lines(&lines, "zzz").is_empty());
}

#[test]
fn recursion_decisions() {
    let dir = FileType::Directory { uid: false };
    let link = FileType::SymLink { is_dir: true };
    assert!(should_recurse(dir, Display::VisibleOnly, Layout::Grid, 1));
    assert!(!should_recurse(dir, Display::DirectoryOnly, Layout::Grid, 1));
    assert!(should_recurse(dir, Display::DirectoryOnly, Layout::Tree, 1));
    assert!(should_recurse(link, Display::All, Layout::Grid, 1));
    assert!(!should_recurse(link, Display::All, Layout::Grid, 6));
}

#[test]
fn block_columns_from_settings() {
    assert_eq!(Block::parse("git"), Ok(Block::GitStatus));
    assert_eq!(Block::parse("bogus"), Err("Not a valid block name: bogus".to_string()));
    let plain = BlockArgs { long: false, context: false, inode: false, git: false, blocks: vec![] };
    assert_eq!(Blocks::configure_from(&plain, &Config::with_none()).0, vec![Block::Name]);
    let long = BlockArgs { long: true, context: false, inode: true, git: true, blocks: vec![] };
    assert_eq!(
        Blocks::configure_from(&long, &Config::with_none()).0,
        vec![Block::INode, Block::Permission, Block::User, Block::Group, Block::Size, Block::Date, Block::GitStatus, Block::Name]
    );
    let mut config = Config::with_none();
    config.blocks = Some(vec!["size".to_string(), "nope".to_string(), "name".to_string()]);
    let long_plain = BlockArgs { long: true, context: false, inode: false, git: false, blocks: vec![] };
    assert_eq!(Blocks::configure_from(&long_plain, &config).0, vec![Block::Size, Block::Name]);
    let explicit = BlockArgs { long: true, context: false, inode: false, git: false, blocks: vec!["date".to_string()] };
    assert_eq!(Blocks::configure_from(&explicit, &config).0, vec![Block::Date]);
    let unknown = BlockArgs { long: false, context: false, inode: false, git: false, blocks: vec!["x".to_string()] };
    assert!(Blocks::from_cli(&unknown).is_none());
}

#[test]
fn unicode_escapes_decode() {
    assert_eq!(_convert_unicode_escapes("a\\u0041-b"), "aA-b");
    assert_eq!(_convert_unicode_escapes("\\ue5fb "), "\u{e5fb} ");
    assert_eq!(_convert_unicode_escapes("\\u1F600!"), "\u{1F600}!");
    assert_eq!(_convert_unicode_escapes("\\uZZ"), "\\uZZ");
    assert_eq!(_convert_unicode_escapes("\\ud800x"), "\\ud800x");
    assert_eq!(_convert_unicode_escapes("\\u110000"), "\\u110000");
    assert_eq!(_convert_unicode_escapes("\\u0000000041"), "A");
    assert_eq!(_convert_unicode_escapes("\\u1234567890"), "\\u1234567890");
    assert_eq!(_convert_unicode_escapes("back\\slash"), "back\\slash");
    assert_eq!(_convert_unicode_escapes(""), "");
}

#[test]
fn llm_and_color_settings() {
    let on = LlmOutput::from_cli(true, Some("fix auth".to_string()), None).unwrap();
    assert!(on.is_enabled());
    assert_eq!(on.objective, Some("fix auth".to_string()));
    assert!(LlmOutput::from_cli(false, None, None).is_none());
    let mut c = Config::with_none();
    assert!(LlmOutput::from_config(&c).is_none());
    c.llm = Some(false);
    assert!(!LlmOutput::from_config(&c).unwrap().is_enabled());
    assert_eq!(ColorOption::from_config(&c), None);
    c.color = Some(ColorConfig { when: Some(ColorOption::Always), theme: None });
    assert_eq!(ColorOption::from_config(&c), Some(ColorOption::Always));
    c.classic = Some(true);
    assert_eq!(ColorOption::from_config(&c), Some(ColorOption::Never));
}

#[test]
fn roots_follow_the_chain_and_children_their_names() {
    let by_size = assemble_sorters(&SortFlags {
        column: SortColumn::Size,
        order: SortOrder::Default,
        dir_grouping: DirGrouping::Mixed,
    });
    let mut small = entry("/r/a.txt", 1, false);
    small.size = Some(1);
    let mut big = entry("/r/b.txt", 1, false);
    big.size = Some(100);
    let mut z = entry("/r/d/Z.txt", 2, false);
    z.size = Some(1000);
    let entries = vec![small, entry("/r/d", 1, true), z, entry("/r/d/a.txt", 2, false), big];
    let built = build_tree(entries, &by_size);
    let roots: Vec<String> = built.roots.iter().map(|n| n.entry.name.clone()).collect();
    assert_eq!(roots, vec!["d", "b.txt", "a.txt"]);
    let children: Vec<String> = built.roots[0].children.iter().map(|n| n.entry.name.clone()).collect();
    assert_eq!(children, vec!["a.txt", "Z.txt"]);
}
