//! The search path: the directories in which programs are looked for. What
//! is on disk is asked of the caller, through the probes that it hands in.

use crate::autocompletion::{insert_sorted, strictly_sorted};
use crate::builtin::{is_builtin, is_builtin_name};
use crate::command::{chain_of, ParsedCommand, StageView};
use crate::text::{split_on, split_str, str_starts_with, text_of};
use vstd::prelude::*;

verus! {

/// The text of the path that `std::path::Path::join` makes of the path
/// `base` and the path `part`.
pub uninterp spec fn path_joined(base: Seq<char>, part: Seq<char>) -> Seq<char>;

/// The text of what `std::path::PathBuf::pop` leaves of the path `base`.
pub uninterp spec fn path_popped(base: Seq<char>) -> Seq<char>;

/// The text of what `std::path::Path::file_name` finds in `path`.
pub uninterp spec fn path_file_name(path: Seq<char>) -> Option<Seq<char>>;

/// Calls `std::path::Path::join` on the two texts. The join of two paths is
/// told by the two alone; it is given the name `path_joined`, and nothing
/// else is claimed of it. Both texts are UTF-8, so the result is too.
#[verifier::external_body]
pub(crate) fn join_path(base: &str, part: &str) -> (r: String)
    ensures
        r@ == path_joined(base@, part@),
{
    std::path::Path::new(base).join(part).to_string_lossy().into_owned()
}

/// Calls `std::path::PathBuf::pop` on the path of the text `base`, which
/// cuts the path down to its parent, or leaves it where it has none. What is
/// left is told by the path alone; it is given the name `path_popped`.
#[verifier::external_body]
pub(crate) fn pop_path(base: &str) -> (r: String)
    ensures
        r@ == path_popped(base@),
{
    let mut path = std::path::PathBuf::from(base);
    path.pop();
    path.to_string_lossy().into_owned()
}

/// Calls `std::path::Path::file_name` on the path of the text `path`: the
/// last component, where the path ends in a name. It is told by the path
/// alone and given the name `path_file_name`.
#[verifier::external_body]
pub(crate) fn file_name_of(path: &str) -> (r: Option<String>)
    ensures
        text_of(r) == path_file_name(path@),
{
    match std::path::Path::new(path).file_name() {
        Some(name) => Some(name.to_string_lossy().into_owned()),
        None => None,
    }
}

/// The probe was asked about the path `path` and gave `answer`.
pub open spec fn probed<P: Fn(&str) -> bool>(probe: P, path: Seq<char>, answer: bool) -> bool {
    exists|asked: &str| asked@ == path && #[trigger] call_ensures(probe, (asked,), answer)
}

/// `found` is what looking for `name` in the directories can give: the
/// first of `directory/name`, in the order of the directories, that the
/// probe takes for an executable file; nothing where it takes none.
pub open spec fn found_in<P: Fn(&str) -> bool>(
    directories: Seq<Seq<char>>,
    name: Seq<char>,
    probe: P,
    found: Option<Seq<char>>,
) -> bool {
    match found {
        Some(path) => exists|i: int|
            0 <= i < directories.len() && path == #[trigger] path_joined(directories[i], name)
                && probed(probe, path, true) && forall|j: int|
                0 <= j < i ==> probed(probe, #[trigger] path_joined(directories[j], name), false),
        None => forall|j: int|
            0 <= j < directories.len() ==> probed(
                probe,
                #[trigger] path_joined(directories[j], name),
                false,
            ),
    }
}

/// The directories in which programs are looked for, in the order of the
/// search.
#[derive(Clone, Debug)]
pub struct Path {
    pub directories: Vec<String>,
}

impl View for Path {
    type V = Seq<Seq<char>>;

    open spec fn view(&self) -> Seq<Seq<char>> {
        self.directories.deep_view()
    }
}

impl Path {
    /// The directories of a search path: the pieces of `input` between its
    /// colons.
    pub fn parse(input: &str) -> (r: Path)
        ensures
            r@ == split_on(input@, ':'),
    {
        Path { directories: split_str(input, ':') }
    }

    /// The path of the program `command_name`: the first `directory/name`
    /// that `is_executable` takes for an executable file.
    pub fn find_command<P: Fn(&str) -> bool>(&self, command_name: &str, is_executable: &P) -> (r:
        Option<String>)
        requires
            forall|path: &str| call_requires(*is_executable, (path,)),
        ensures
            found_in(self@, command_name@, *is_executable, text_of(r)),
    {
        self.find_executable_path(command_name, is_executable)
    }

    /// Tries `directory/name` for each directory in turn.
    fn find_executable_path<P: Fn(&str) -> bool>(&self, command_name: &str, is_executable: &P) -> (r:
        Option<String>)
        requires
            forall|path: &str| call_requires(*is_executable, (path,)),
        ensures
            found_in(self@, command_name@, *is_executable, text_of(r)),
    {
        let mut i: usize = 0;
        while i < self.directories.len()
            invariant
                i <= self.directories.len(),
                forall|path: &str| call_requires(*is_executable, (path,)),
                forall|j: int|
                    0 <= j < i ==> probed(
                        *is_executable,
                        #[trigger] path_joined(self@[j], command_name@),
                        false,
                    ),
            decreases self.directories.len() - i,
        {
            let candidate = join_path(self.directories[i].as_str(), command_name);
            let executable = is_executable(candidate.as_str());
            if executable {
                assert(candidate@ == path_joined(self@[i as int], command_name@));
                return Some(candidate);
            }
            i = i + 1;
        }
        None
    }
}

/// How looking up a stage's command changes the stage: a builtin stays as
/// it is; of any other stage the command becomes the path that was found
/// for it.
pub open spec fn stage_resolved<P: Fn(&str) -> bool>(
    directories: Seq<Seq<char>>,
    probe: P,
    before: StageView,
    after: StageView,
) -> bool {
    if is_builtin_name(before.command) {
        after == before
    } else {
        found_in(directories, before.command, probe, Some(after.command)) && after == (StageView {
            command: after.command,
            ..before
        })
    }
}

/// What resolving a chain leaves of it. `Ok`: every stage is resolved.
/// `Err(name)`: `name` is the command of the first stage for which nothing
/// was found; the stages before it are resolved, that stage and those after
/// it are as they were.
pub open spec fn chain_resolved<P: Fn(&str) -> bool>(
    directories: Seq<Seq<char>>,
    probe: P,
    before: Seq<StageView>,
    after: Seq<StageView>,
    r: Result<(), Seq<char>>,
) -> bool {
    &&& after.len() == before.len()
    &&& match r {
        Ok(_) => forall|i: int|
            0 <= i < before.len() ==> stage_resolved(
                directories,
                probe,
                #[trigger] before[i],
                after[i],
            ),
        Err(name) => exists|k: int|
            0 <= k < before.len() && !is_builtin_name(before[k].command) && name
                == #[trigger] before[k].command && found_in(directories, name, probe, None)
                && (forall|i: int|
                0 <= i < k ==> stage_resolved(directories, probe, #[trigger] before[i], after[i]))
                && (forall|i: int| k <= i < before.len() ==> #[trigger] after[i] == before[i]),
    }
}

/// The result of resolving a chain, with the command's name as a text.
pub open spec fn result_text(r: Result<(), String>) -> Result<(), Seq<char>> {
    match r {
        Ok(_) => Ok(()),
        Err(name) => Err(name@),
    }
}

impl Path {
    /// Replaces, in every stage of the chain that is no builtin, the command
    /// by the path found for it. Stops at the first stage for which nothing
    /// is found and returns that stage's command.
    pub fn resolve_piped_commands<P: Fn(&str) -> bool>(
        &self,
        cmd: &mut ParsedCommand,
        is_executable: &P,
    ) -> (r: Result<(), String>)
        requires
            forall|path: &str| call_requires(*is_executable, (path,)),
        ensures
            chain_resolved(self@, *is_executable, old(cmd)@, final(cmd)@, result_text(r)),
        decreases old(cmd)@.len(),
    {
        let ghost before = cmd@;
        let ghost head = cmd.head();
        proof {
            reveal_with_fuel(chain_of, 2);
        }
        if !is_builtin(cmd.command.as_str()) {
            match self.find_command(cmd.command.as_str(), is_executable) {
                Some(path) => {
                    cmd.command = path;
                },
                None => {
                    let name = cmd.command.clone();
                    proof {
                        assert(name@ == before[0].command);
                        assert(chain_resolved(
                            self@,
                            *is_executable,
                            before,
                            cmd@,
                            Err::<(), Seq<char>>(name@),
                        ));
                    }
                    return Err(name);
                },
            }
        }
        let ghost new_head = cmd.head();
        match &mut cmd.piped_command {
            Some(next) => {
                let ghost tail = next@;
                let r = self.resolve_piped_commands(next, is_executable);
                proof {
                    let after = seq![new_head] + next@;
                    assert forall|i: int| 1 <= i < before.len() implies before[i] == tail[i - 1] by {}
                    match &r {
                        Ok(_) => {
                            assert forall|i: int| 0 <= i < before.len() implies stage_resolved(
                                self@,
                                *is_executable,
                                #[trigger] before[i],
                                after[i],
                            ) by {
                                if i > 0 {
                                    assert(stage_resolved(
                                        self@,
                                        *is_executable,
                                        tail[i - 1],
                                        next@[i - 1],
                                    ));
                                }
                            }
                        },
                        Err(name) => {
                            let k = choose|k: int|
                                0 <= k < tail.len() && !is_builtin_name(tail[k].command) && name@
                                    == #[trigger] tail[k].command && found_in(
                                    self@,
                                    name@,
                                    *is_executable,
                                    None,
                                ) && (forall|i: int|
                                    0 <= i < k ==> stage_resolved(
                                        self@,
                                        *is_executable,
                                        #[trigger] tail[i],
                                        next@[i],
                                    )) && (forall|i: int|
                                    k <= i < tail.len() ==> #[trigger] next@[i] == tail[i]);
                            assert(before[k + 1] == tail[k]);
                            assert forall|i: int| 0 <= i < k + 1 implies stage_resolved(
                                self@,
                                *is_executable,
                                #[trigger] before[i],
                                after[i],
                            ) by {
                                if i > 0 {
                                    assert(stage_resolved(
                                        self@,
                                        *is_executable,
                                        tail[i - 1],
                                        next@[i - 1],
                                    ));
                                }
                            }
                            assert forall|i: int| k + 1 <= i < before.len() implies #[trigger] after[i]
                                == before[i] by {}
                        },
                    }
                }
                r
            },
            None => Ok(()),
        }
    }
}

/// The listing was asked for the entries of `directory` and gave `entries`.
pub open spec fn lists<L: Fn(&str) -> Vec<String>>(
    list: L,
    directory: Seq<char>,
    entries: Seq<Seq<char>>,
) -> bool {
    exists|asked: &str, names: Vec<String>|
        asked@ == directory && names.deep_view() == entries && #[trigger] call_ensures(
            list,
            (asked,),
            names,
        )
}

/// The name `x` starts with `partial`, is an entry of one of the
/// directories, and the probe takes it there for an executable file.
pub open spec fn is_executable_match<P: Fn(&str) -> bool>(
    directories: Seq<Seq<char>>,
    listings: Seq<Seq<Seq<char>>>,
    partial: Seq<char>,
    probe: P,
    x: Seq<char>,
) -> bool {
    partial.is_prefix_of(x) && exists|i: int|
        0 <= i < directories.len() && i < listings.len() && (#[trigger] listings[i]).contains(x)
            && probed(probe, path_joined(directories[i], x), true)
}

/// Every entry of `entries[..upto]` that starts with `partial` is in `r`,
/// unless the probe did not take it for an executable file.
pub open spec fn accounts_for<P: Fn(&str) -> bool>(
    r: Seq<Seq<char>>,
    directory: Seq<char>,
    entries: Seq<Seq<char>>,
    upto: int,
    partial: Seq<char>,
    probe: P,
) -> bool {
    forall|k: int|
        0 <= k < upto && k < entries.len() && partial.is_prefix_of(#[trigger] entries[k])
            ==> r.contains(entries[k]) || probed(
            probe,
            path_joined(directory, entries[k]),
            false,
        )
}

/// `r` is what the search for executables that start with `partial` gives,
/// where `listings` holds what each directory was found to hold: the names
/// that start with `partial` and that the probe takes for executable files,
/// each once, in ascending order.
pub open spec fn executables_matching<L: Fn(&str) -> Vec<String>, P: Fn(&str) -> bool>(
    directories: Seq<Seq<char>>,
    partial: Seq<char>,
    list: L,
    probe: P,
    listings: Seq<Seq<Seq<char>>>,
    r: Seq<Seq<char>>,
) -> bool {
    &&& listings.len() == directories.len()
    &&& forall|i: int|
        0 <= i < directories.len() ==> lists(list, directories[i], #[trigger] listings[i])
    &&& strictly_sorted(r)
    &&& forall|x: Seq<char>| #[trigger]
        r.contains(x) ==> is_executable_match(directories, listings, partial, probe, x)
    &&& forall|i: int|
        0 <= i < directories.len() ==> accounts_for(
            r,
            directories[i],
            #[trigger] listings[i],
            listings[i].len() as int,
            partial,
            probe,
        )
}

/// Adds to the sorted `matches` the names among `entries` that start with
/// `partial` and that `is_executable` takes, in `directory`, for executable
/// files.
fn add_executables<P: Fn(&str) -> bool>(
    matches: &mut Vec<String>,
    directory: &str,
    entries: &Vec<String>,
    partial: &str,
    is_executable: &P,
)
    requires
        strictly_sorted(old(matches).deep_view()),
        forall|path: &str| call_requires(*is_executable, (path,)),
    ensures
        strictly_sorted(final(matches).deep_view()),
        forall|x: Seq<char>| #[trigger]
            old(matches).deep_view().contains(x) ==> final(matches).deep_view().contains(x),
        forall|x: Seq<char>| #[trigger]
            final(matches).deep_view().contains(x) ==> old(matches).deep_view().contains(x) || (
            partial@.is_prefix_of(x) && entries.deep_view().contains(x) && probed(
                *is_executable,
                path_joined(directory@, x),
                true,
            )),
        accounts_for(
            final(matches).deep_view(),
            directory@,
            entries.deep_view(),
            entries.deep_view().len() as int,
            partial@,
            *is_executable,
        ),
{
    let ghost before = matches.deep_view();
    let ghost names = entries.deep_view();
    let mut k: usize = 0;
    while k < entries.len()
        invariant
            k <= entries.len(),
            names == entries.deep_view(),
            forall|path: &str| call_requires(*is_executable, (path,)),
            strictly_sorted(matches.deep_view()),
            forall|x: Seq<char>| #[trigger] before.contains(x) ==> matches.deep_view().contains(x),
            forall|x: Seq<char>| #[trigger]
                matches.deep_view().contains(x) ==> before.contains(x) || (partial@.is_prefix_of(x)
                    && names.contains(x) && probed(
                    *is_executable,
                    path_joined(directory@, x),
                    true,
                )),
            accounts_for(matches.deep_view(), directory@, names, k as int, partial@, *is_executable),
        decreases entries.len() - k,
    {
        let ghost current = matches.deep_view();
        assert(names.contains(names[k as int]));
        if str_starts_with(entries[k].as_str(), partial) {
            let full_path = join_path(directory, entries[k].as_str());
            let executable = is_executable(full_path.as_str());
            if executable {
                insert_sorted(matches, entries[k].clone());
            }
        }
        proof {
            let now = matches.deep_view();
            assert forall|x: Seq<char>| #[trigger] current.contains(x) implies now.contains(x) by {}
            assert forall|j: int|
                0 <= j < k + 1 && j < names.len() && partial@.is_prefix_of(
                    #[trigger] names[j],
                ) implies now.contains(names[j]) || probed(
                *is_executable,
                path_joined(directory@, names[j]),
                false,
            ) by {
                if j < k {
                    assert(current.contains(names[j]) || probed(
                        *is_executable,
                        path_joined(directory@, names[j]),
                        false,
                    ));
                }
            }
        }
        k = k + 1;
    }
}

impl Path {
    /// The names of the executable files in the directories that start with
    /// `partial`, each once, in ascending order; none for an empty `partial`,
    /// for which nothing is asked. `list` gives the entries of a directory,
    /// `is_executable` tells whether a path is an executable file.
    pub fn find_matching_executables<L: Fn(&str) -> Vec<String>, P: Fn(&str) -> bool>(
        &self,
        partial: &str,
        list: &L,
        is_executable: &P,
    ) -> (r: Vec<String>)
        requires
            forall|directory: &str| call_requires(*list, (directory,)),
            forall|path: &str| call_requires(*is_executable, (path,)),
        ensures
            partial@.len() == 0 ==> r@.len() == 0,
            partial@.len() > 0 ==> exists|listings: Seq<Seq<Seq<char>>>|
                executables_matching(
                    self@,
                    partial@,
                    *list,
                    *is_executable,
                    listings,
                    r.deep_view(),
                ),
    {
        let mut matches: Vec<String> = Vec::new();
        if partial.is_empty() {
            return matches;
        }
        let ghost mut listings: Seq<Seq<Seq<char>>> = Seq::empty();
        let mut i: usize = 0;
        while i < self.directories.len()
            invariant
                i <= self.directories.len(),
                forall|directory: &str| call_requires(*list, (directory,)),
                forall|path: &str| call_requires(*is_executable, (path,)),
                listings.len() == i,
                forall|j: int| 0 <= j < i ==> lists(*list, self@[j], #[trigger] listings[j]),
                strictly_sorted(matches.deep_view()),
                forall|x: Seq<char>| #[trigger]
                    matches.deep_view().contains(x) ==> is_executable_match(
                        self@,
                        listings,
                        partial@,
                        *is_executable,
                        x,
                    ),
                forall|j: int|
                    0 <= j < i ==> accounts_for(
                        matches.deep_view(),
                        self@[j],
                        #[trigger] listings[j],
                        listings[j].len() as int,
                        partial@,
                        *is_executable,
                    ),
            decreases self.directories.len() - i,
        {
            let ghost current = matches.deep_view();
            let ghost known = listings;
            let entries = list(self.directories[i].as_str());
            add_executables(
                &mut matches,
                self.directories[i].as_str(),
                &entries,
                partial,
                is_executable,
            );
            proof {
                listings = listings.push(entries.deep_view());
                let now = matches.deep_view();
                assert forall|j: int| 0 <= j < i + 1 implies lists(
                    *list,
                    self@[j],
                    #[trigger] listings[j],
                ) by {}
                assert forall|x: Seq<char>| #[trigger] now.contains(x) implies is_executable_match(
                    self@,
                    listings,
                    partial@,
                    *is_executable,
                    x,
                ) by {
                    if current.contains(x) {
                        let j = choose|j: int|
                            0 <= j < self@.len() && j < known.len() && (#[trigger] known[j]).contains(
                                x,
                            ) && probed(*is_executable, path_joined(self@[j], x), true);
                        assert(listings[j] == known[j]);
                    } else {
                        assert(listings[i as int].contains(x));
                    }
                }
                assert forall|j: int| 0 <= j < i + 1 implies accounts_for(
                    now,
                    self@[j],
                    #[trigger] listings[j],
                    listings[j].len() as int,
                    partial@,
                    *is_executable,
                ) by {
                    if j < i {
                        assert(accounts_for(
                            current,
                            self@[j],
                            known[j],
                            known[j].len() as int,
                            partial@,
                            *is_executable,
                        ));
                        assert forall|k: int|
                            0 <= k < known[j].len() && partial@.is_prefix_of(
                                #[trigger] known[j][k],
                            ) implies now.contains(known[j][k]) || probed(
                            *is_executable,
                            path_joined(self@[j], known[j][k]),
                            false,
                        ) by {}
                    }
                }
            }
            i = i + 1;
        }
        assert(executables_matching(
            self@,
            partial@,
            *list,
            *is_executable,
            listings,
            matches.deep_view(),
        ));
        matches
    }
}

} // verus!
