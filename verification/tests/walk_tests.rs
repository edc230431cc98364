use agg_files::ignores::IgnoreSet;
use agg_files::walk::{FsNode, walk};

fn file(name: &str) -> FsNode {
    FsNode::File { name: name.to_string() }
}

fn dir(name: &str, children: Vec<FsNode>) -> FsNode {
    FsNode::Dir { name: name.to_string(), children }
}

#[test]
fn walk_yields_files_in_order() {
    let tree = vec![file("b.ts"), file("a.ts"), dir("sub", vec![file("c.ts")])];
    let ig = IgnoreSet::none();
    let got = walk(&tree, "", true, &ig);
    assert_eq!(got, vec!["b.ts", "a.ts", "sub/c.ts"]);
}

#[test]
fn ignored_directory_is_pruned_whole() {
    let tree = vec![
        file("a.ts"),
        dir(
            "node_modules",
            vec![file("x.ts"), dir("pkg", vec![file("y.ts")])],
        ),
        file("z.ts"),
    ];
    let ig = IgnoreSet::from_dir_listing("node_modules/\n");
    let got = walk(&tree, "", true, &ig);
    assert_eq!(got, vec!["a.ts", "z.ts"]);
}

#[test]
fn pruning_reaches_nested_listings() {
    let tree = vec![dir(
        "src",
        vec![file("m.ts"), dir("gen", vec![file("g.ts")])],
    )];
    let ig = IgnoreSet::from_dir_listing("src/gen/\n");
    let got = walk(&tree, "", true, &ig);
    assert_eq!(got, vec!["src/m.ts"]);
}

#[test]
fn non_recursive_walk_stays_at_depth_one() {
    let tree = vec![
        file("a.ts"),
        dir("sub", vec![file("c.ts"), dir("deep", vec![file("d.ts")])]),
    ];
    let ig = IgnoreSet::none();
    let got = walk(&tree, "", false, &ig);
    assert_eq!(got, vec!["a.ts"]);
}

#[test]
fn listing_keeps_only_directory_lines() {
    let ig = IgnoreSet::from_dir_listing("# comment/\ntarget/\n*.log\nbuild//\n\n");
    assert!(ig.excluded("target", true));
    assert!(ig.excluded("target/debug/app", false));
    assert!(ig.excluded("build", true));
    assert!(!ig.excluded("*.log", false));
    assert!(!ig.excluded("a.log", false));
    assert!(!ig.excluded("targets", true));
    assert!(!ig.excluded("# comment", true));
}

#[test]
fn listing_lines_may_end_with_carriage_return() {
    let ig = IgnoreSet::from_dir_listing("target/\r\nsrc/\r\n");
    assert!(ig.excluded("target", true));
    assert!(ig.excluded("src/lib.rs", false));
    assert!(!ig.excluded("other", true));
}

#[test]
fn empty_listing_excludes_nothing() {
    let ig = IgnoreSet::from_dir_listing("");
    assert!(!ig.excluded("anything", false));
    assert!(!ig.excluded("anything", true));
}

#[test]
fn rule_set_prunes_directory_entry() {
    let lines = vec!["node_modules/".to_string()];
    let ig = IgnoreSet::from_rule_lines(&lines);
    assert!(ig.excluded("node_modules", true));
    assert!(!ig.excluded("src", true));
    assert!(!ig.excluded("node_modules_file.ts", false));
}

#[test]
fn rule_set_matches_file_globs() {
    let lines = vec!["*.log".to_string(), "!keep.log".to_string()];
    let ig = IgnoreSet::from_rule_lines(&lines);
    assert!(ig.excluded("a.log", false));
    assert!(ig.excluded("sub/b.log", false));
    assert!(!ig.excluded("keep.log", false));
    assert!(!ig.excluded("a.txt", false));
}

#[test]
fn empty_rule_lines_exclude_nothing() {
    let lines: Vec<String> = Vec::new();
    let ig = IgnoreSet::from_rule_lines(&lines);
    assert!(!ig.excluded("anything", false));
}

#[test]
fn rule_set_prunes_subtree_in_walk() {
    let tree = vec![
        file("a.ts"),
        dir("node_modules", vec![file("x.ts")]),
    ];
    let lines = vec!["node_modules/".to_string()];
    let ig = IgnoreSet::from_rule_lines(&lines);
    let got = walk(&tree, "", true, &ig);
    assert_eq!(got, vec!["a.ts"]);
}
