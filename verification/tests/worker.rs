use zellaunch::text::{decimal_string, same_text, starts_with, strip_prefix};
use zellaunch::worker::{
    get_npm_tasks, is_manifest, shell_task, EntryKind, TaskDiscoveryWorker, TaskOption,
    TaskRunner, WalkEntry, MANIFEST_NAME, ROOT, ROOT_PREFIX, SHEBANG,
};

fn strings(items: &[&str]) -> Vec<String> {
    items.iter().map(|s| s.to_string()).collect()
}

fn file(path: &str, first_line: Option<&str>) -> WalkEntry {
    WalkEntry {
        path: path.to_string(),
        file_name: path.rsplit('/').next().map(|s| s.to_string()),
        kind: EntryKind::File,
        scripts: None,
        first_line: first_line.map(|s| s.to_string()),
    }
}

fn directory(path: &str) -> WalkEntry {
    WalkEntry {
        path: path.to_string(),
        file_name: path.rsplit('/').next().map(|s| s.to_string()),
        kind: EntryKind::Directory,
        scripts: None,
        first_line: None,
    }
}

fn npm(name: &str) -> TaskOption {
    TaskOption {
        args: strings(&["run", name]),
        command: "npm".to_string(),
        runner: TaskRunner::Npm,
        task: name.to_string(),
    }
}

fn shell(path: &str) -> TaskOption {
    TaskOption {
        args: vec![],
        command: format!("./{}", path),
        runner: TaskRunner::Shell,
        task: path.to_string(),
    }
}

fn discover(entries: &Vec<WalkEntry>) -> Vec<TaskOption> {
    TaskDiscoveryWorker::default().on_message(entries)
}

#[test]
fn constants_of_the_walk() {
    assert_eq!(ROOT, "/host");
    assert_eq!(ROOT_PREFIX, "/host/");
    assert_eq!(MANIFEST_NAME, "package.json");
    assert_eq!(SHEBANG, "#!");
}

#[test]
fn starts_with_compares_characters() {
    assert!(starts_with("#!/bin/sh", "#!"));
    assert!(starts_with("#!", "#!"));
    assert!(starts_with("abc", ""));
    assert!(starts_with("", ""));
    assert!(!starts_with("#", "#!"));
    assert!(!starts_with(" #!", "#!"));
    assert!(!starts_with("#?!", "#!"));
    assert!(starts_with("äöü", "äö"));
}

#[test]
fn same_text_is_equality() {
    assert!(same_text("package.json", "package.json"));
    assert!(same_text("", ""));
    assert!(!same_text("package.json", "package.jsom"));
    assert!(!same_text("package.json", "package.json5"));
    assert!(!same_text("package.jso", "package.json"));
}

#[test]
fn strip_prefix_gives_what_follows() {
    assert_eq!(strip_prefix("/host/a/b.sh", "/host/"), Some("a/b.sh"));
    assert_eq!(strip_prefix("/host/", "/host/"), Some(""));
    assert_eq!(strip_prefix("/host", "/host/"), None);
    assert_eq!(strip_prefix("/hosts/a", "/host/"), None);
    assert_eq!(strip_prefix("/host/ä.sh", "/host/"), Some("ä.sh"));
}

#[test]
fn default_option_is_an_empty_shell_task() {
    let option = TaskOption::default();
    assert_eq!(
        option,
        TaskOption {
            args: vec![],
            command: String::new(),
            runner: TaskRunner::Shell,
            task: String::new(),
        }
    );
}

#[test]
fn label_names_the_runner() {
    let mut option = npm("build");
    assert_eq!(option.to_string(), "build (npm)");
    option.runner = TaskRunner::Just;
    assert_eq!(option.to_string(), "build (just)");
    assert_eq!(shell("run.sh").to_string(), "run.sh");
}

#[test]
fn npm_tasks_follow_the_scripts() {
    assert_eq!(get_npm_tasks(&vec![]), vec![]);
    assert_eq!(
        get_npm_tasks(&strings(&["build", "test", "build"])),
        vec![npm("build"), npm("test"), npm("build")]
    );
}

#[test]
fn shell_task_runs_the_path_from_here() {
    assert_eq!(shell_task("scripts/run.sh"), shell("scripts/run.sh"));
    let option = shell_task("a b.sh");
    assert_eq!(option.command, "./a b.sh");
    assert_eq!(option.task, "a b.sh");
    assert_eq!(option.args, Vec::<String>::new());
    assert_eq!(option.runner, TaskRunner::Shell);
}

#[test]
fn manifest_is_known_by_its_exact_name() {
    assert!(is_manifest(&Some("package.json".to_string())));
    assert!(!is_manifest(&Some("Package.json".to_string())));
    assert!(!is_manifest(&Some("package.json.bak".to_string())));
    assert!(!is_manifest(&Some(String::new())));
    assert!(!is_manifest(&None));
}

#[test]
fn empty_walk_gives_an_empty_catalog() {
    assert_eq!(discover(&vec![]), vec![]);
}

#[test]
fn scripts_are_found_by_their_first_line() {
    let entries = vec![
        directory("/host"),
        file("/host/run.sh", Some("#!/bin/sh")),
        file("/host/notes.txt", Some("# not a script")),
        file("/host/empty", None),
        file("/host/bin/tool", Some("#!")),
        file("/host/late", Some(" #!/bin/sh")),
    ];
    assert_eq!(discover(&entries), vec![shell("run.sh"), shell("bin/tool")]);
}

#[test]
fn directories_are_never_tasks() {
    let mut entry = directory("/host/bin");
    entry.first_line = Some("#!/bin/sh".to_string());
    assert_eq!(discover(&vec![entry]), vec![]);
}

#[test]
fn entries_of_unknown_kind_are_no_scripts() {
    let mut entry = file("/host/run.sh", Some("#!/bin/sh"));
    entry.kind = EntryKind::Unknown;
    assert_eq!(discover(&vec![entry]), vec![]);
}

#[test]
fn paths_outside_the_root_are_no_scripts() {
    assert_eq!(discover(&vec![file("/home/run.sh", Some("#!/bin/sh"))]), vec![]);
    assert_eq!(discover(&vec![file("/host", Some("#!/bin/sh"))]), vec![]);
}

#[test]
fn manifest_gives_one_task_for_each_script() {
    let mut manifest = file("/host/package.json", Some("{"));
    manifest.scripts = Some(strings(&["build", "deploy"]));
    assert_eq!(discover(&vec![manifest]), vec![npm("build"), npm("deploy")]);
}

#[test]
fn manifest_that_could_not_be_read_is_skipped() {
    let manifest = file("/host/package.json", Some("not json"));
    assert_eq!(discover(&vec![manifest]), vec![]);
}

#[test]
fn scripts_of_a_file_with_another_name_are_ignored() {
    let mut other = file("/host/composer.json", Some("{"));
    other.scripts = Some(strings(&["build"]));
    assert_eq!(discover(&vec![other]), vec![]);
}

#[test]
fn manifest_with_a_shebang_is_both() {
    let mut manifest = file("/host/pkg/package.json", Some("#!/usr/bin/env node"));
    manifest.scripts = Some(strings(&["start"]));
    assert_eq!(
        discover(&vec![manifest]),
        vec![npm("start"), shell("pkg/package.json")]
    );
}

#[test]
fn directory_named_like_a_manifest_gives_its_scripts_only() {
    let mut entry = directory("/host/package.json");
    entry.scripts = Some(strings(&["odd"]));
    entry.first_line = Some("#!".to_string());
    assert_eq!(discover(&vec![entry]), vec![npm("odd")]);
}

#[test]
fn catalog_keeps_the_order_of_the_walk_and_duplicates() {
    let mut manifest = file("/host/package.json", Some("{"));
    manifest.scripts = Some(strings(&["b", "a"]));
    let first = vec![file("/host/z.sh", Some("#!/bin/sh")), manifest.clone()];
    let second = vec![
        directory("/host/sub"),
        file("/host/sub/a.sh", Some("#!/bin/bash")),
        manifest,
        file("/host/z.sh", Some("#!/bin/sh")),
    ];
    let mut whole = first.clone();
    whole.extend(second.clone());
    let mut expected = discover(&first);
    expected.extend(discover(&second));
    assert_eq!(discover(&whole), expected);
    assert_eq!(
        expected,
        vec![
            shell("z.sh"),
            npm("b"),
            npm("a"),
            shell("sub/a.sh"),
            npm("b"),
            npm("a"),
            shell("z.sh"),
        ]
    );
}

#[test]
fn the_same_walk_gives_the_same_catalog() {
    let mut manifest = file("/host/package.json", Some("{"));
    manifest.scripts = Some(strings(&["lint", "test"]));
    let entries = vec![manifest, file("/host/go.sh", Some("#!/bin/sh"))];
    let mut worker = TaskDiscoveryWorker::default();
    let once = worker.on_message(&entries);
    let twice = worker.on_message(&entries);
    assert_eq!(once, twice);
    assert_eq!(once, vec![npm("lint"), npm("test"), shell("go.sh")]);
}

#[test]
fn decimal_string_writes_numbers_without_leading_zeros() {
    assert_eq!(decimal_string(0), "0");
    assert_eq!(decimal_string(7), "7");
    assert_eq!(decimal_string(10), "10");
    assert_eq!(decimal_string(1090), "1090");
    assert_eq!(decimal_string(usize::MAX), usize::MAX.to_string());
}
