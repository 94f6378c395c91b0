use file_tools::rename::plan_renames;
use file_tools::rename::Modification;
use file_tools::walk::collect_files;
use file_tools::walk::walk_files;
use file_tools::walk::FsTree;

fn file(name: &str) -> FsTree {
    FsTree::File(name.to_string())
}

fn dir(name: &str, children: Vec<FsTree>) -> FsTree {
    FsTree::Dir(name.to_string(), children)
}

#[test]
fn every_file_is_visited_exactly_once() {
    // five files spread over three levels of nesting
    let entries = vec![
        file("a.txt"),
        dir(
            "sub",
            vec![file("b.txt"), dir("deep", vec![file("c.txt"), file("d.txt")])],
        ),
        file("e.txt"),
    ];
    let mut paths: Vec<String> = Vec::new();
    collect_files(&entries, "root/", &mut paths);
    assert_eq!(
        paths,
        vec![
            "root/a.txt".to_string(),
            "root/sub/b.txt".to_string(),
            "root/sub/deep/c.txt".to_string(),
            "root/sub/deep/d.txt".to_string(),
            "root/e.txt".to_string(),
        ]
    );
}

#[test]
fn directories_alone_yield_no_paths() {
    let entries = vec![dir("only", vec![dir("dirs", vec![])])];
    let mut paths: Vec<String> = Vec::new();
    collect_files(&entries, "root/", &mut paths);
    assert_eq!(paths, Vec::<String>::new());
}

#[test]
fn walk_appends_to_what_is_already_there() {
    let tree = dir("d", vec![file("x"), file("y")]);
    let mut paths: Vec<String> = vec!["kept".to_string()];
    walk_files(&tree, "r/", &mut paths);
    assert_eq!(
        paths,
        vec!["kept".to_string(), "r/d/x".to_string(), "r/d/y".to_string()]
    );
}

#[test]
fn a_walked_tree_gets_one_rename_attempt_per_file() {
    let entries = vec![
        file("one.txt"),
        dir("nested", vec![file("two.txt")]),
        file("three.txt"),
    ];
    let mut paths: Vec<String> = Vec::new();
    collect_files(&entries, "top/", &mut paths);
    let jobs = plan_renames(&paths, &Modification::End, "_old");
    assert_eq!(jobs.len(), 3);
    assert_eq!(jobs[0].new_path, "top/one.txt_old");
    assert_eq!(jobs[1].new_path, "top/nested/two.txt_old");
    assert_eq!(jobs[2].new_path, "top/three.txt_old");
}
