use agg_files::glob::Pattern;
use agg_files::ignores::IgnoreSet;
use agg_files::render::{FileRecord, ReadOutcome, render_all, render_record, select_matching};
use agg_files::walk::{FsNode, walk};

const SEP: &str = "================================================================================";

fn ok_record(path: &str, text: &str) -> FileRecord {
    FileRecord { path: path.to_string(), outcome: ReadOutcome::Content { text: text.to_string() } }
}

fn failed_record(path: &str) -> FileRecord {
    FileRecord { path: path.to_string(), outcome: ReadOutcome::Failed }
}

#[test]
fn successful_record_text_is_exact() {
    let r = render_record(&ok_record("a.ts", "let x = 1;\n"));
    assert_eq!(r, format!("# File: a.ts\nlet x = 1;\n\n\n{}\n\n", SEP));
}

#[test]
fn failed_record_text_is_exact() {
    let r = render_record(&failed_record("locked.ts"));
    assert_eq!(r, "# File: locked.ts\nError reading file: locked.ts\n");
}

#[test]
fn one_unreadable_file_among_three_is_isolated() {
    let records = vec![
        ok_record("a.ts", "alpha\n"),
        failed_record("b.ts"),
        ok_record("c.ts", "gamma\n"),
    ];
    let out = render_all(&records);
    let expected = format!(
        "# File: a.ts\nalpha\n\n\n{}\n\n# File: b.ts\nError reading file: b.ts\n# File: c.ts\ngamma\n\n\n{}\n\n",
        SEP, SEP
    );
    assert_eq!(out, expected);
}

#[test]
fn select_matching_keeps_order_and_drops_mismatches() {
    let cands = vec!["a.ts".to_string(), "b.tsx".to_string(), "sub/c.ts".to_string()];
    let p = Pattern::compile("*.ts").expect("pattern compiles");
    let got = select_matching(&cands, &p);
    assert_eq!(got, vec!["a.ts", "sub/c.ts"]);
}

#[test]
fn end_to_end_scenario_yields_only_the_unpruned_match() {
    let tree = vec![
        FsNode::File { name: "a.ts".to_string() },
        FsNode::File { name: "b.tsx".to_string() },
        FsNode::Dir {
            name: "sub".to_string(),
            children: vec![FsNode::File { name: "c.ts".to_string() }],
        },
    ];
    let ig = IgnoreSet::from_dir_listing("sub/\n");
    let cands = walk(&tree, "", true, &ig);
    assert_eq!(cands, vec!["a.ts", "b.tsx"]);
    let p = Pattern::compile("*.ts").expect("pattern compiles");
    let kept = select_matching(&cands, &p);
    assert_eq!(kept, vec!["a.ts"]);
    let records: Vec<FileRecord> = kept.iter().map(|k| ok_record(k, "content of a\n")).collect();
    let out = render_all(&records);
    assert_eq!(out, format!("# File: a.ts\ncontent of a\n\n\n{}\n\n", SEP));
    assert!(!out.contains("b.tsx"));
    assert!(!out.contains("sub/c.ts"));
}

#[test]
fn two_identical_runs_render_identical_output() {
    let tree = vec![
        FsNode::File { name: "a.ts".to_string() },
        FsNode::Dir {
            name: "sub".to_string(),
            children: vec![FsNode::File { name: "c.ts".to_string() }],
        },
    ];
    let run = || {
        let ig = IgnoreSet::from_dir_listing("ignored/\n");
        let cands = walk(&tree, "", true, &ig);
        let p = Pattern::compile("*.ts").expect("pattern compiles");
        let kept = select_matching(&cands, &p);
        let records: Vec<FileRecord> = kept
            .iter()
            .map(|k| {
                if k == "sub/c.ts" {
                    failed_record(k)
                } else {
                    ok_record(k, "body\n")
                }
            })
            .collect();
        render_all(&records)
    };
    let first = run();
    let second = run();
    assert_eq!(first, second);
}

#[test]
fn same_file_is_emitted_once_per_matching_pattern() {
    let cands = vec!["a.ts".to_string()];
    let p1 = Pattern::compile("*.ts").expect("pattern compiles");
    let p2 = Pattern::compile("a.*").expect("pattern compiles");
    let mut out = String::new();
    for p in [&p1, &p2] {
        let kept = select_matching(&cands, p);
        let records: Vec<FileRecord> = kept.iter().map(|k| ok_record(k, "x\n")).collect();
        out.push_str(&render_all(&records));
    }
    assert_eq!(out.matches("# File: a.ts").count(), 2);
}
