//! Removing entries.

use vstd::prelude::*;
use vstd::string::*;

use crate::app::new_config;
use crate::entry::{paths_under, EntryPaths, EntryPathsView};
use crate::error::{Error, ErrorView};
use crate::files::{steps_of, FileStep, FileStepView};
use crate::names::{
    ensure_entry_exists, entry_root, law_entry_lies_under_entries, name_char, valid_name,
};
use crate::path::{components, joined, path_of, this_dir, within};
use crate::path_laws::{lemma_child_components, lemma_no_slash};
use crate::report::{confirm_rm, confirms};

verus! {

/// What removing an entry changes: its directory goes.
pub open spec fn removal_steps(paths: EntryPathsView) -> Seq<FileStepView> {
    seq![FileStepView::RemoveEntryDir { path: paths.root }]
}

/// What comes of the wish to remove an entry. One that is not there is not removed, nor is one of
/// which the removal was neither wished for with `yes` nor confirmed.
pub open spec fn removal(
    paths: EntryPathsView,
    config_exists: bool,
    yes: bool,
    answer: Seq<char>,
) -> Result<Seq<FileStepView>, ErrorView> {
    if !config_exists {
        Err(ErrorView::EntryNotFound { root: paths.root })
    } else if !yes && !confirms(answer) {
        Err(ErrorView::Aborted)
    } else {
        Ok(removal_steps(paths))
    }
}

/// Removes an entry: what is to be done. `config_exists` tells whether its configuration is there,
/// and `answer` is what was answered if it was asked.
pub fn handle_rm(paths: &EntryPaths, config_exists: bool, yes: bool, answer: &str) -> (result: Result<
    Vec<FileStep>,
    Error,
>)
    ensures
        match result {
            Ok(steps) => removal(paths@, config_exists, yes, answer@) == Ok::<
                Seq<FileStepView>,
                ErrorView,
            >(steps_of(steps@)),
            Err(e) => removal(paths@, config_exists, yes, answer@) == Err::<
                Seq<FileStepView>,
                ErrorView,
            >(e@),
        },
{
    match ensure_entry_exists(paths, config_exists) {
        Ok(()) => {},
        Err(e) => {
            return Err(e);
        },
    }
    if !yes {
        match confirm_rm(answer) {
            Ok(()) => {},
            Err(e) => {
                return Err(e);
            },
        }
    }
    let mut steps: Vec<FileStep> = Vec::new();
    steps.push(FileStep::RemoveEntryDir { path: paths.root.clone() });
    assert(steps_of(steps@) =~= removal_steps(paths@));
    Ok(steps)
}

/// One of `steps` removes what lies at `path`.
pub open spec fn removes(steps: Seq<FileStepView>, path: Seq<u8>) -> bool {
    exists|i: int|
        0 <= i < steps.len() && (#[trigger] steps[i] matches FileStepView::RemoveEntryDir {
            path: dir,
        } && within(dir, path))
}

/// A removal removes the directory of its entry with everything in it, and nothing else.
pub proof fn law_removal_takes_the_entry_alone(paths: EntryPathsView, path: Seq<u8>)
    ensures
        removes(removal_steps(paths), path) <==> within(paths.root, path),
        removal_steps(paths).len() == 1,
{
    let steps = removal_steps(paths);
    assert(steps[0] == FileStepView::RemoveEntryDir { path: paths.root });
}

/// What lies in a workspace that is apart from the directory of its entry stays when the entry is
/// removed.
pub proof fn law_removal_spares_external_workspace(
    paths: EntryPathsView,
    workspace: Seq<u8>,
    path: Seq<u8>,
)
    requires
        !within(paths.root, workspace),
        !within(workspace, paths.root),
        within(workspace, path),
    ensures
        !removes(removal_steps(paths), path),
{
    law_removal_takes_the_entry_alone(paths, path);
    let (a, b, c) = (components(paths.root), components(workspace), components(path));
    if within(paths.root, path) {
        if a.len() <= b.len() {
            assert(b.subrange(0, a.len() as int) =~= c.subrange(0, a.len() as int));
        } else {
            assert(a.subrange(0, b.len() as int) =~= c.subrange(0, b.len() as int));
        }
    }
}

/// A managed workspace goes with its entry.
pub proof fn law_removal_takes_managed_workspace(
    root: Seq<u8>,
    name: Seq<char>,
    description: Option<Seq<char>>,
    autobuild: bool,
    autobuild_order: int,
    shell: Option<Seq<u8>>,
)
    requires
        valid_name(name),
    ensures
        removes(
            removal_steps(paths_under(entry_root(root, name))),
            new_config(
                root,
                name,
                None,
                description,
                autobuild,
                autobuild_order,
                shell,
            ).workspace,
        ),
{
    let place = entry_root(root, name);
    let part = path_of("workspace"@);
    law_entry_lies_under_entries(root, name);
    assert forall|i: int| 0 <= i < name.len() implies (#[trigger] name[i] as u32) < 128 && name[i]
        != '/' by {
        assert(name_char(name[i]));
    }
    lemma_no_slash(name);
    assert(place.last() == path_of(name)[name.len() - 1]);
    reveal_strlit("workspace");
    lemma_no_slash("workspace"@);
    lemma_child_components(place, part);
    assert(part.len() == 9 && this_dir().len() == 1);
    assert(components(place).push(part).subrange(0, components(place).len() as int)
        =~= components(place));
    law_removal_takes_the_entry_alone(paths_under(place), joined(place, part));
}

} // verus!
