//! Resolution: what a parsed request launches, given the catalog.

use crate::parser::{digits_value, parse_spec, texts, ParsedTask, TaskView};
use crate::spelling::{is_number, lemma_number_is_index};
use crate::worker::{option_views, strings, TaskOption, TaskOptionView};
use vstd::prelude::*;
use vstd::string::StringExecFns;

verus! {

/// A command with its arguments, ready to be launched.
#[derive(Debug, Clone, PartialEq, Eq)]
pub struct ResolvedLaunch {
    pub command: String,
    pub args: Vec<String>,
}

/// What a `ResolvedLaunch` says.
pub ghost struct LaunchView {
    pub command: Seq<char>,
    pub args: Seq<Seq<char>>,
}

impl View for ResolvedLaunch {
    type V = LaunchView;

    open spec fn view(&self) -> LaunchView {
        LaunchView { command: self.command@, args: strings(self.args@) }
    }
}

/// The views of a vector of launches.
pub open spec fn launch_views(v: Seq<ResolvedLaunch>) -> Seq<LaunchView> {
    Seq::new(v.len(), |i: int| v[i]@)
}

/// Why a request launches nothing.
#[derive(Debug, Clone, Copy, PartialEq, Eq)]
pub enum ResolutionError {
    /// The index is zero or larger than the number of catalog entries.
    IndexOutOfRange,
    /// The request holds neither an index nor a command.
    EmptyRequest,
}

/// What a request launches. An index counts the catalog from one; the
/// entry's own arguments come before those of the request. A request with a
/// command launches it as it stands. Where both are present the index
/// decides.
pub open spec fn resolve_spec(request: TaskView, catalog: Seq<TaskOptionView>) -> Result<
    LaunchView,
    ResolutionError,
> {
    match request.index {
        Some(index) => if 1 <= index <= catalog.len() {
            Ok(
                LaunchView {
                    command: catalog[index - 1].command,
                    args: catalog[index - 1].args + request.args,
                },
            )
        } else {
            Err(ResolutionError::IndexOutOfRange)
        },
        None => match request.command {
            Some(command) => Ok(LaunchView { command, args: request.args }),
            None => Err(ResolutionError::EmptyRequest),
        },
    }
}

/// The launches of a sequence of requests, in order; a request that does
/// not resolve gives none and holds up no other.
pub open spec fn launches_spec(requests: Seq<TaskView>, catalog: Seq<TaskOptionView>) -> Seq<
    LaunchView,
>
    decreases requests.len(),
{
    if requests.len() == 0 {
        Seq::empty()
    } else {
        let earlier = launches_spec(requests.drop_last(), catalog);
        match resolve_spec(requests.last(), catalog) {
            Ok(launch) => earlier.push(launch),
            Err(_) => earlier,
        }
    }
}

/// Resolves one request against the catalog.
pub fn resolve(request: &ParsedTask, catalog: &Vec<TaskOption>) -> (r: Result<
    ResolvedLaunch,
    ResolutionError,
>)
    ensures
        match resolve_spec(request@, option_views(catalog@)) {
            Ok(launch) => r is Ok && r->Ok_0@ == launch,
            Err(e) => r is Err && r->Err_0 == e,
        },
{
    let mut args: Vec<String> = Vec::new();
    let command: String;
    match request.index {
        Some(index) => {
            if index == 0 || index > catalog.len() {
                return Err(ResolutionError::IndexOutOfRange);
            }
            let chosen = &catalog[index - 1];
            command = chosen.command.clone();
            let mut i: usize = 0;
            while i < chosen.args.len()
                invariant
                    i <= chosen.args.len(),
                    strings(args@) == strings(chosen.args@).take(i as int),
                decreases chosen.args.len() - i,
            {
                let ghost copied = strings(args@);
                args.push(chosen.args[i].clone());
                assert(strings(args@) =~= copied.push(chosen.args@[i as int]@));
                i = i + 1;
                assert(strings(chosen.args@).take(i as int) =~= copied.push(
                    chosen.args@[i - 1]@,
                ));
            }
            assert(strings(chosen.args@).take(i as int) =~= strings(chosen.args@));
        },
        None => {
            match request.command {
                Some(literal) => {
                    command = String::from_str(literal);
                },
                None => {
                    return Err(ResolutionError::EmptyRequest);
                },
            }
            assert(strings(args@) =~= Seq::<Seq<char>>::empty());
        },
    }
    let ghost first = strings(args@);
    let mut j: usize = 0;
    while j < request.args.len()
        invariant
            j <= request.args.len(),
            strings(args@) == first + texts(request.args@).take(j as int),
        decreases request.args.len() - j,
    {
        let ghost copied = strings(args@);
        args.push(String::from_str(request.args[j]));
        assert(strings(args@) =~= copied.push(request.args@[j as int]@));
        j = j + 1;
        assert(first + texts(request.args@).take(j as int) =~= copied.push(
            request.args@[j - 1]@,
        ));
    }
    assert(texts(request.args@).take(j as int) =~= texts(request.args@));
    assert(Seq::<Seq<char>>::empty() + request@.args =~= request@.args);
    Ok(ResolvedLaunch { command, args })
}

/// Resolves each request against the catalog and gives the launches of
/// those that resolve, in the order of the requests.
pub fn resolve_all(requests: &Vec<ParsedTask>, catalog: &Vec<TaskOption>) -> (launches: Vec<
    ResolvedLaunch,
>)
    ensures
        launch_views(launches@) == launches_spec(
            crate::parser::task_views(requests@),
            option_views(catalog@),
        ),
{
    let mut launches: Vec<ResolvedLaunch> = Vec::new();
    let mut i: usize = 0;
    let ghost all = crate::parser::task_views(requests@);
    assert(all.take(0) =~= Seq::<TaskView>::empty());
    assert(launch_views(launches@) =~= Seq::<LaunchView>::empty());
    while i < requests.len()
        invariant
            i <= requests.len(),
            all == crate::parser::task_views(requests@),
            launch_views(launches@) == launches_spec(all.take(i as int), option_views(catalog@)),
        decreases requests.len() - i,
    {
        let ghost before = launch_views(launches@);
        proof {
            assert(all.take(i + 1).drop_last() =~= all.take(i as int));
            assert(all.take(i + 1).last() == requests@[i as int]@);
        }
        match resolve(&requests[i], catalog) {
            Ok(launch) => {
                let ghost v = launch@;
                launches.push(launch);
                assert(launch_views(launches@) =~= before.push(v));
            },
            Err(_) => {},
        }
        i = i + 1;
    }
    assert(all.take(i as int) =~= all);
    launches
}

/// Merge order: where an index resolves, the launch has the command of the
/// catalog entry, and its arguments are those of the entry followed by those
/// of the request, each list whole and in its own order.
pub proof fn lemma_catalog_arguments_first(request: TaskView, catalog: Seq<TaskOptionView>)
    requires
        request.index is Some,
        1 <= request.index->0 <= catalog.len(),
    ensures
        resolve_spec(request, catalog) is Ok,
        ({
            let launch = resolve_spec(request, catalog)->Ok_0;
            let entry = catalog[request.index->0 - 1];
            &&& launch.command == entry.command
            &&& launch.args.len() == entry.args.len() + request.args.len()
            &&& launch.args.take(entry.args.len() as int) == entry.args
            &&& launch.args.skip(entry.args.len() as int) == request.args
        }),
{
    let launch = resolve_spec(request, catalog)->Ok_0;
    let entry = catalog[request.index->0 - 1];
    assert(launch.args.take(entry.args.len() as int) =~= entry.args);
    assert(launch.args.skip(entry.args.len() as int) =~= request.args);
}

/// Each request is resolved on its own: the launches of two runs of
/// requests, one after the other, are those of the first followed by those
/// of the second.
pub proof fn lemma_launches_independent(
    first: Seq<TaskView>,
    second: Seq<TaskView>,
    catalog: Seq<TaskOptionView>,
)
    ensures
        launches_spec(first + second, catalog) == launches_spec(first, catalog) + launches_spec(
            second,
            catalog,
        ),
    decreases second.len(),
{
    if second.len() == 0 {
        assert(first + second =~= first);
        assert(launches_spec(first, catalog) + Seq::<LaunchView>::empty() =~= launches_spec(
            first,
            catalog,
        ));
    } else {
        lemma_launches_independent(first, second.drop_last(), catalog);
        assert((first + second).drop_last() =~= first + second.drop_last());
        assert((first + second).last() == second.last());
        let a = launches_spec(first, catalog);
        let b = launches_spec(second.drop_last(), catalog);
        match resolve_spec(second.last(), catalog) {
            Ok(launch) => {
                assert((a + b).push(launch) =~= a + b.push(launch));
            },
            Err(_) => {},
        }
    }
}

/// A line made of digits alone is looked up in the catalog by its number:
/// it launches the entry at that place, or nothing where the catalog has no
/// such place, and never a command of that name.
pub proof fn lemma_number_resolves_by_index(digits: Seq<char>, catalog: Seq<TaskOptionView>)
    requires
        is_number(digits),
        digits_value(digits) <= usize::MAX,
    ensures
        launches_spec(parse_spec(digits), catalog) == if 1 <= digits_value(digits)
            <= catalog.len() {
            seq![
                LaunchView {
                    command: catalog[digits_value(digits) - 1].command,
                    args: catalog[digits_value(digits) - 1].args,
                },
            ]
        } else {
            Seq::<LaunchView>::empty()
        },
{
    lemma_number_is_index(digits);
    let requests = parse_spec(digits);
    assert(requests.drop_last() =~= Seq::<TaskView>::empty());
    assert(launches_spec(requests.drop_last(), catalog) =~= Seq::<LaunchView>::empty());
    if 1 <= digits_value(digits) <= catalog.len() {
        let entry = catalog[digits_value(digits) - 1];
        assert(entry.args + Seq::<Seq<char>>::empty() =~= entry.args);
        assert(launches_spec(requests, catalog) =~= seq![
            LaunchView { command: entry.command, args: entry.args },
        ]);
    }
}

} // verus!
