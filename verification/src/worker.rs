//! Task discovery: which of the files met on a walk of the tree are tasks,
//! and the catalog that they make.

use crate::text::{same_text, starts_with, strip_prefix};
use vstd::prelude::*;
use vstd::string::StringExecFns;

verus! {

/// The directory at which the tree to be searched is mounted.
pub const ROOT: &'static str = "/host";

/// What every path below the root begins with.
pub const ROOT_PREFIX: &'static str = "/host/";

/// The base name of a package manifest.
pub const MANIFEST_NAME: &'static str = "package.json";

/// What the first line of a script begins with.
pub const SHEBANG: &'static str = "#!";

/// The kind of program that runs a task.
#[derive(Debug, Clone, Copy, PartialEq, Eq)]
pub enum TaskRunner {
    Just,
    Npm,
    Shell,
}

/// A task that can be launched: the command with the arguments that come
/// before any that the user adds.
#[derive(Debug, Clone, PartialEq, Eq)]
pub struct TaskOption {
    pub args: Vec<String>,
    pub command: String,
    pub runner: TaskRunner,
    pub task: String,
}

/// What a `TaskOption` says.
pub ghost struct TaskOptionView {
    pub args: Seq<Seq<char>>,
    pub command: Seq<char>,
    pub runner: TaskRunner,
    pub task: Seq<char>,
}

/// The views of a vector of strings.
pub open spec fn strings(v: Seq<String>) -> Seq<Seq<char>> {
    Seq::new(v.len(), |i: int| v[i]@)
}

impl View for TaskOption {
    type V = TaskOptionView;

    open spec fn view(&self) -> TaskOptionView {
        TaskOptionView {
            args: strings(self.args@),
            command: self.command@,
            runner: self.runner,
            task: self.task@,
        }
    }
}

/// The views of a catalog.
pub open spec fn option_views(v: Seq<TaskOption>) -> Seq<TaskOptionView> {
    Seq::new(v.len(), |i: int| v[i]@)
}

impl Default for TaskOption {
    /// A shell task with no name, no command and no arguments.
    fn default() -> (option: Self)
        ensures
            option@ == (TaskOptionView {
                args: Seq::empty(),
                command: Seq::empty(),
                runner: TaskRunner::Shell,
                task: Seq::empty(),
            }),
    {
        let option = Self {
            args: Vec::new(),
            command: String::new(),
            runner: TaskRunner::Shell,
            task: String::new(),
        };
        assert(strings(option.args@) =~= Seq::<Seq<char>>::empty());
        option
    }
}

/// The line that shows a task to the user: its name, with the runner in
/// brackets unless it is a shell script.
pub open spec fn label_spec(option: TaskOptionView) -> Seq<char> {
    match option.runner {
        TaskRunner::Just => option.task + " (just)"@,
        TaskRunner::Npm => option.task + " (npm)"@,
        TaskRunner::Shell => option.task,
    }
}

impl TaskOption {
    /// The line that shows the task to the user.
    pub fn to_string(&self) -> (label: String)
        ensures
            label@ == label_spec(self@),
    {
        let mut label = self.task.clone();
        match self.runner {
            TaskRunner::Just => label.append(" (just)"),
            TaskRunner::Npm => label.append(" (npm)"),
            TaskRunner::Shell => {},
        }
        label
    }
}

/// The task that runs the script `name` of a package manifest.
pub open spec fn npm_task_spec(name: Seq<char>) -> TaskOptionView {
    TaskOptionView {
        args: seq!["run"@, name],
        command: "npm"@,
        runner: TaskRunner::Npm,
        task: name,
    }
}

/// The task that runs the script at `path`, a path relative to the root.
pub open spec fn shell_task_spec(path: Seq<char>) -> TaskOptionView {
    TaskOptionView {
        args: Seq::empty(),
        command: "./"@ + path,
        runner: TaskRunner::Shell,
        task: path,
    }
}

/// One task for each script of a manifest, in the order given.
pub open spec fn npm_tasks_spec(scripts: Seq<Seq<char>>) -> Seq<TaskOptionView> {
    Seq::new(scripts.len(), |i: int| npm_task_spec(scripts[i]))
}

/// The tasks of a package manifest, given the names of its scripts: one for
/// each, in the order given.
pub fn get_npm_tasks(scripts: &Vec<String>) -> (options: Vec<TaskOption>)
    ensures
        option_views(options@) == npm_tasks_spec(strings(scripts@)),
{
    let mut options: Vec<TaskOption> = Vec::new();
    let mut i: usize = 0;
    while i < scripts.len()
        invariant
            i <= scripts.len(),
            options.len() == i,
            forall|j: int| 0 <= j < i ==> (#[trigger] options@[j])@ == npm_task_spec(scripts@[j]@),
        decreases scripts.len() - i,
    {
        let mut args: Vec<String> = Vec::new();
        args.push(String::from_str("run"));
        args.push(scripts[i].clone());
        let option = TaskOption {
            command: String::from_str("npm"),
            runner: TaskRunner::Npm,
            task: scripts[i].clone(),
            args,
        };
        assert(option@.args =~= seq!["run"@, scripts@[i as int]@]);
        options.push(option);
        i = i + 1;
    }
    assert(option_views(options@) =~= npm_tasks_spec(strings(scripts@)));
    options
}

/// The task that runs the script at `path`, a path relative to the root.
pub fn shell_task(path: &str) -> (option: TaskOption)
    ensures
        option@ == shell_task_spec(path@),
{
    let mut command = String::from_str("./");
    command.append(path);
    let option = TaskOption {
        args: Vec::new(),
        command,
        runner: TaskRunner::Shell,
        task: String::from_str(path),
    };
    assert(option@.args =~= Seq::<Seq<char>>::empty());
    option
}

/// What kind of thing a walk met at a path.
#[derive(Debug, Clone, Copy, PartialEq, Eq)]
pub enum EntryKind {
    Directory,
    /// Anything that the walk knows not to be a directory.
    File,
    /// The walk could not tell.
    Unknown,
}

/// What a walk of the tree learned of one path.
#[derive(Debug, Clone, PartialEq, Eq)]
pub struct WalkEntry {
    /// The path, starting at the root.
    pub path: String,
    /// Its last component, if it has one.
    pub file_name: Option<String>,
    pub kind: EntryKind,
    /// The names of the scripts that the file declares, where it could be
    /// read as a package manifest.
    pub scripts: Option<Vec<String>>,
    /// The first line of the file, where it could be opened and read.
    pub first_line: Option<String>,
}

/// What a `WalkEntry` says.
pub ghost struct WalkEntryView {
    pub path: Seq<char>,
    pub file_name: Option<Seq<char>>,
    pub kind: EntryKind,
    pub scripts: Option<Seq<Seq<char>>>,
    pub first_line: Option<Seq<char>>,
}

impl View for WalkEntry {
    type V = WalkEntryView;

    open spec fn view(&self) -> WalkEntryView {
        WalkEntryView {
            path: self.path@,
            file_name: match self.file_name {
                Some(name) => Some(name@),
                None => None,
            },
            kind: self.kind,
            scripts: match self.scripts {
                Some(scripts) => Some(strings(scripts@)),
                None => None,
            },
            first_line: match self.first_line {
                Some(line) => Some(line@),
                None => None,
            },
        }
    }
}

/// The views of the entries of a walk.
pub open spec fn entry_views(v: Seq<WalkEntry>) -> Seq<WalkEntryView> {
    Seq::new(v.len(), |i: int| v[i]@)
}

/// Whether a file of this name is read as a package manifest.
pub open spec fn is_manifest_spec(file_name: Option<Seq<char>>) -> bool {
    file_name == Some(MANIFEST_NAME@)
}

/// The tasks that an entry gives as a package manifest: one for each of its
/// scripts, where it has the name of a manifest and could be read as one.
pub open spec fn manifest_tasks_spec(entry: WalkEntryView) -> Seq<TaskOptionView> {
    if is_manifest_spec(entry.file_name) && entry.scripts is Some {
        npm_tasks_spec(entry.scripts->0)
    } else {
        Seq::empty()
    }
}

/// Whether an entry is a script: a file whose first line could be read and
/// begins with the shebang, at a path below the root.
pub open spec fn is_script_spec(entry: WalkEntryView) -> bool {
    &&& entry.kind == EntryKind::File
    &&& entry.first_line is Some
    &&& SHEBANG@.is_prefix_of(entry.first_line->0)
    &&& ROOT_PREFIX@.is_prefix_of(entry.path)
}

/// The task that an entry gives as a script, named by its path relative to
/// the root.
pub open spec fn script_tasks_spec(entry: WalkEntryView) -> Seq<TaskOptionView> {
    if is_script_spec(entry) {
        seq![shell_task_spec(entry.path.skip(ROOT_PREFIX@.len() as int))]
    } else {
        Seq::empty()
    }
}

/// The tasks of one entry: those of the manifest first, then the script.
pub open spec fn entry_tasks_spec(entry: WalkEntryView) -> Seq<TaskOptionView> {
    manifest_tasks_spec(entry) + script_tasks_spec(entry)
}

/// The catalog of a walk: the tasks of its entries, in the order in which
/// the walk met them. Nothing is sorted and nothing is left out as a
/// duplicate.
pub open spec fn catalog_spec(entries: Seq<WalkEntryView>) -> Seq<TaskOptionView>
    decreases entries.len(),
{
    if entries.len() == 0 {
        Seq::empty()
    } else {
        catalog_spec(entries.drop_last()) + entry_tasks_spec(entries.last())
    }
}

/// Whether a file of this name is read as a package manifest.
pub fn is_manifest(file_name: &Option<String>) -> (b: bool)
    ensures
        b == is_manifest_spec(
            match *file_name {
                Some(name) => Some(name@),
                None => None,
            },
        ),
{
    match file_name {
        Some(name) => same_text(name.as_str(), MANIFEST_NAME),
        None => false,
    }
}

/// The worker that makes the catalog. It keeps nothing from one walk to the
/// next.
#[derive(Debug)]
pub struct TaskDiscoveryWorker {}

impl Default for TaskDiscoveryWorker {
    fn default() -> Self {
        Self {  }
    }
}

impl TaskDiscoveryWorker {
    /// Makes the catalog from what a walk of the tree found, entry by entry
    /// in the order of the walk.
    pub fn on_message(&mut self, entries: &Vec<WalkEntry>) -> (options: Vec<TaskOption>)
        ensures
            option_views(options@) == catalog_spec(entry_views(entries@)),
    {
        let mut options: Vec<TaskOption> = Vec::new();
        let mut i: usize = 0;
        assert(entry_views(entries@).take(0) =~= Seq::<WalkEntryView>::empty());
        assert(option_views(options@) =~= Seq::<TaskOptionView>::empty());
        while i < entries.len()
            invariant
                i <= entries.len(),
                option_views(options@) == catalog_spec(entry_views(entries@).take(i as int)),
            decreases entries.len() - i,
        {
            let entry = &entries[i];
            let ghost before = option_views(options@);
            proof {
                let seen = entry_views(entries@).take(i + 1);
                assert(seen.drop_last() =~= entry_views(entries@).take(i as int));
                assert(seen.last() == entry@);
            }
            if is_manifest(&entry.file_name) {
                if let Some(scripts) = &entry.scripts {
                    let mut found = get_npm_tasks(scripts);
                    let ghost added = option_views(found@);
                    options.append(&mut found);
                    assert(option_views(options@) =~= before + added);
                }
            }
            let ghost middle = option_views(options@);
            assert(middle == before + manifest_tasks_spec(entry@)) by {
                assert(before + Seq::<TaskOptionView>::empty() =~= before);
            }
            let mut script = false;
            match entry.kind {
                EntryKind::File => {
                    if let Some(line) = &entry.first_line {
                        if starts_with(line.as_str(), SHEBANG) {
                            if let Some(relative) = strip_prefix(entry.path.as_str(), ROOT_PREFIX) {
                                options.push(shell_task(relative));
                                script = true;
                                assert(option_views(options@) =~= middle + script_tasks_spec(
                                    entry@,
                                ));
                            }
                        }
                    }
                },
                _ => {},
            }
            proof {
                if !script {
                    assert(middle + Seq::<TaskOptionView>::empty() =~= middle);
                }
                assert(before + (manifest_tasks_spec(entry@) + script_tasks_spec(entry@)) =~= (
                before + manifest_tasks_spec(entry@)) + script_tasks_spec(entry@));
            }
            i = i + 1;
        }
        assert(entry_views(entries@).take(i as int) =~= entry_views(entries@));
        options
    }
}

/// A walk in two parts gives the catalog of the first part followed by that
/// of the second: the catalog keeps the order of the walk.
pub proof fn lemma_catalog_keeps_order(first: Seq<WalkEntryView>, second: Seq<WalkEntryView>)
    ensures
        catalog_spec(first + second) == catalog_spec(first) + catalog_spec(second),
    decreases second.len(),
{
    if second.len() == 0 {
        assert(first + second =~= first);
        assert(catalog_spec(first) + Seq::<TaskOptionView>::empty() =~= catalog_spec(first));
    } else {
        lemma_catalog_keeps_order(first, second.drop_last());
        assert((first + second).drop_last() =~= first + second.drop_last());
        assert((first + second).last() == second.last());
        assert((catalog_spec(first) + catalog_spec(second.drop_last())) + entry_tasks_spec(
            second.last(),
        ) =~= catalog_spec(first) + (catalog_spec(second.drop_last()) + entry_tasks_spec(
            second.last(),
        )));
    }
}

/// A directory gives no task, whatever else is known of it, unless it has
/// the name of a manifest.
pub proof fn lemma_directory_is_no_script(entry: WalkEntryView)
    requires
        entry.kind == EntryKind::Directory,
    ensures
        script_tasks_spec(entry) == Seq::<TaskOptionView>::empty(),
        !is_manifest_spec(entry.file_name) ==> entry_tasks_spec(entry) == Seq::<
            TaskOptionView,
        >::empty(),
{
    assert(Seq::<TaskOptionView>::empty() + Seq::<TaskOptionView>::empty() =~= Seq::<
        TaskOptionView,
    >::empty());
}

} // verus!
