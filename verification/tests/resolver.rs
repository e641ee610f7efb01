use zellaunch::parser::{InputIterator, ParsedTask};
use zellaunch::resolver::{resolve, resolve_all, ResolutionError, ResolvedLaunch};
use zellaunch::worker::{TaskOption, TaskRunner};

fn strings(items: &[&str]) -> Vec<String> {
    items.iter().map(|s| s.to_string()).collect()
}

fn launch(command: &str, args: &[&str]) -> ResolvedLaunch {
    ResolvedLaunch { command: command.to_string(), args: strings(args) }
}

fn deploy_catalog() -> Vec<TaskOption> {
    vec![TaskOption {
        task: "deploy".to_string(),
        runner: TaskRunner::Npm,
        command: "npm".to_string(),
        args: strings(&["run", "deploy"]),
    }]
}

fn build_catalog() -> Vec<TaskOption> {
    vec![
        TaskOption {
            task: "test.sh".to_string(),
            runner: TaskRunner::Shell,
            command: "./test.sh".to_string(),
            args: vec![],
        },
        TaskOption {
            task: "build".to_string(),
            runner: TaskRunner::Npm,
            command: "npm".to_string(),
            args: strings(&["run", "build"]),
        },
    ]
}

#[test]
fn catalog_arguments_come_before_those_of_the_request() {
    let request = ParsedTask { index: Some(2), command: None, args: vec!["--watch"] };
    assert_eq!(
        resolve(&request, &build_catalog()),
        Ok(launch("npm", &["run", "build", "--watch"]))
    );
}

#[test]
fn index_counts_from_one() {
    let request = ParsedTask { index: Some(1), command: None, args: vec![] };
    assert_eq!(resolve(&request, &build_catalog()), Ok(launch("./test.sh", &[])));
}

#[test]
fn index_out_of_range() {
    let catalog = build_catalog();
    let zero = ParsedTask { index: Some(0), command: None, args: vec![] };
    assert_eq!(resolve(&zero, &catalog), Err(ResolutionError::IndexOutOfRange));
    let beyond = ParsedTask { index: Some(3), command: None, args: vec!["x"] };
    assert_eq!(resolve(&beyond, &catalog), Err(ResolutionError::IndexOutOfRange));
    let largest = ParsedTask { index: Some(usize::MAX), command: None, args: vec![] };
    assert_eq!(resolve(&largest, &catalog), Err(ResolutionError::IndexOutOfRange));
    let any = ParsedTask { index: Some(1), command: None, args: vec![] };
    assert_eq!(resolve(&any, &vec![]), Err(ResolutionError::IndexOutOfRange));
}

#[test]
fn command_is_launched_as_it_stands() {
    let request = ParsedTask { index: None, command: Some("echo"), args: vec!["a", "b c"] };
    assert_eq!(resolve(&request, &build_catalog()), Ok(launch("echo", &["a", "b c"])));
    assert_eq!(resolve(&request, &vec![]), Ok(launch("echo", &["a", "b c"])));
}

#[test]
fn request_without_index_or_command() {
    let request = ParsedTask { index: None, command: None, args: vec!["a"] };
    assert_eq!(resolve(&request, &build_catalog()), Err(ResolutionError::EmptyRequest));
}

#[test]
fn index_decides_where_both_are_present() {
    let request = ParsedTask { index: Some(2), command: Some("echo"), args: vec![] };
    assert_eq!(resolve(&request, &build_catalog()), Ok(launch("npm", &["run", "build"])));
}

#[test]
fn number_resolves_by_index_and_not_as_a_command() {
    let requests = InputIterator::new("42").collect();
    assert_eq!(requests, vec![ParsedTask { index: Some(42), command: None, args: vec![] }]);
    assert_eq!(resolve(&requests[0], &deploy_catalog()), Err(ResolutionError::IndexOutOfRange));
    assert_eq!(resolve_all(&requests, &deploy_catalog()), vec![]);
    let mut catalog = Vec::new();
    for i in 1..=42 {
        catalog.push(TaskOption {
            task: format!("t{}", i),
            runner: TaskRunner::Shell,
            command: format!("./t{}", i),
            args: vec![],
        });
    }
    assert_eq!(resolve_all(&requests, &catalog), vec![launch("./t42", &[])]);
}

#[test]
fn index_with_an_argument_end_to_end() {
    let requests = InputIterator::new("1 --staging").collect();
    assert_eq!(
        resolve_all(&requests, &deploy_catalog()),
        vec![launch("npm", &["run", "deploy", "--staging"])]
    );
}

#[test]
fn command_and_index_end_to_end() {
    let requests = InputIterator::new("echo 'hi there'; 1").collect();
    assert_eq!(
        resolve_all(&requests, &deploy_catalog()),
        vec![launch("echo", &["hi there"]), launch("npm", &["run", "deploy"])]
    );
}

#[test]
fn a_request_that_does_not_resolve_holds_up_no_other() {
    let requests = InputIterator::new("ls; 9; 0; 2 x; pwd").collect();
    assert_eq!(
        resolve_all(&requests, &build_catalog()),
        vec![launch("ls", &[]), launch("npm", &["run", "build", "x"]), launch("pwd", &[])]
    );
    assert_eq!(resolve_all(&vec![], &build_catalog()), vec![]);
}
