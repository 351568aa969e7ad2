//! Hot reload: which changes on disk call for a rebuild, and what becomes of
//! a rebuild's outcome.
use crate::config::ProjectRoutes;
use crate::path::{extension_of, has_trailing_components, path_ends_with, path_extension};
use crate::router::{fault_at, holds_build, routes_ok, RouterError, SwappableAppRouter};
use crate::text::str_eq;
use vstd::prelude::*;

verus! {

/// The seconds over which changes on disk are gathered into one batch.
pub const MONITOR_FS_INTERVAL_SECS: u64 = 2;

/// The file that holds a project's configuration.
pub const CONFIG_FILE: &'static str = "config.yml";

/// Whether an extension is one of a script: `ts` or `js`.
pub open spec fn is_script_extension(ext: Option<Seq<char>>) -> bool {
    ext == Some("ts"@) || ext == Some("js"@)
}

/// Whether a change of the file at `path` calls for a rebuild, given whether
/// the path ends in the configuration file and what its extension is.
pub open spec fn is_relevant(ends_in_config: bool, ext: Option<Seq<char>>) -> bool {
    ends_in_config || is_script_extension(ext)
}

/// Whether a change of the file at `path` calls for a rebuild.
pub open spec fn calls_for_rebuild(path: Seq<char>) -> bool {
    is_relevant(path_ends_with(path, CONFIG_FILE@), path_extension(path))
}

/// Whether a change of a file calls for a rebuild, given whether its path
/// ends in the configuration file and what its extension is.
pub fn relevant_change(ends_in_config: bool, ext: &Option<String>) -> (r: bool)
    ensures
        r == is_relevant(ends_in_config, ext.deep_view()),
{
    if ends_in_config {
        return true;
    }
    match ext {
        Some(e) => str_eq(e.as_str(), "ts") || str_eq(e.as_str(), "js"),
        None => false,
    }
}

/// Whether a change of the file at `path` calls for a rebuild.
pub fn is_source_change(path: &str) -> (r: bool)
    ensures
        r == calls_for_rebuild(path@),
{
    let ends_in_config = has_trailing_components(path, CONFIG_FILE);
    let ext = extension_of(path);
    relevant_change(ends_in_config, &ext)
}

/// Whether one of `paths` calls for a rebuild.
pub open spec fn any_calls_for_rebuild(paths: Seq<Seq<char>>) -> bool {
    exists|i: int| 0 <= i < paths.len() && calls_for_rebuild(#[trigger] paths[i])
}

/// Whether a batch of changes calls for a rebuild: one of its paths does.
pub fn need_swap(paths: &Vec<String>) -> (r: bool)
    ensures
        r == any_calls_for_rebuild(paths.deep_view()),
{
    let ghost all = paths.deep_view();
    let mut i: usize = 0;
    while i < paths.len()
        invariant
            i <= paths.len(),
            all == paths.deep_view(),
            forall|j: int| 0 <= j < i ==> !calls_for_rebuild(#[trigger] all[j]),
        decreases paths.len() - i,
    {
        assert(all[i as int] == paths@[i as int]@);
        if is_source_change(paths[i].as_str()) {
            return true;
        }
        i += 1;
    }
    false
}

/// What the watcher does about what the file system reported.
#[derive(Debug, Clone, PartialEq, Eq)]
pub enum WatchAction {
    /// Build the project again and swap the result in.
    Rebuild,
    /// Nothing.
    Ignore,
    /// Log this warning and go on watching.
    Warn(String),
}

/// A `WatchAction` as plain values.
pub enum WatchActionView {
    Rebuild,
    Ignore,
    Warn(Seq<char>),
}

impl View for WatchAction {
    type V = WatchActionView;

    open spec fn view(&self) -> WatchActionView {
        match self {
            WatchAction::Rebuild => WatchActionView::Rebuild,
            WatchAction::Ignore => WatchActionView::Ignore,
            WatchAction::Warn(text) => WatchActionView::Warn(text@),
        }
    }
}

/// What the watcher does about a report: a batch of changed paths, or the
/// failure of the watch itself.
pub open spec fn reaction(report: Result<Seq<Seq<char>>, Seq<char>>) -> WatchActionView {
    match report {
        Ok(paths) => if any_calls_for_rebuild(paths) {
            WatchActionView::Rebuild
        } else {
            WatchActionView::Ignore
        },
        Err(text) => WatchActionView::Warn(text),
    }
}

/// The view of a report.
pub open spec fn report_view(report: Result<Vec<String>, String>) -> Result<Seq<Seq<char>>, Seq<char>> {
    match report {
        Ok(paths) => Ok(paths.deep_view()),
        Err(text) => Err(text@),
    }
}

/// Decides what the watcher does about a report. A failure of the watch is
/// a warning and never ends the watching.
pub fn on_report(report: Result<Vec<String>, String>) -> (action: WatchAction)
    ensures
        action@ == reaction(report_view(report)),
{
    match report {
        Ok(paths) => {
            if need_swap(&paths) {
                WatchAction::Rebuild
            } else {
                WatchAction::Ignore
            }
        },
        Err(text) => WatchAction::Warn(text),
    }
}

/// Puts the outcome of a rebuild to use. A rebuild that succeeded is swapped
/// in; one that failed, or whose routes make no router, leaves the current
/// snapshot in place and is reported as `Err`, for the watcher to log.
pub fn apply_rebuild(router: &SwappableAppRouter, rebuilt: Result<(String, ProjectRoutes), String>) -> (r:
    Result<(), RebuildError>)
    ensures
        r is Ok <==> (rebuilt matches Ok(built) && routes_ok(built.1.deep_view())),
        match (rebuilt, r) {
            (Ok(built), Ok(_)) => holds_build(*router, built.0@, built.1.deep_view()),
            (Ok(built), Err(RebuildError::Routes(e))) => fault_at(built.1.deep_view(), e),
            (Err(text), Err(RebuildError::Build(t))) => t@ == text@,
            _ => false,
        },
{
    match rebuilt {
        Ok((code, routes)) => match router.swap(code.as_str(), routes) {
            Ok(()) => Ok(()),
            Err(e) => Err(RebuildError::Routes(e)),
        },
        Err(text) => Err(RebuildError::Build(text)),
    }
}

/// Why a rebuild changed nothing.
#[derive(Debug, Clone, PartialEq, Eq)]
pub enum RebuildError {
    /// The project could not be built or its configuration not read.
    Build(String),
    /// The routes of the new configuration make no router.
    Routes(RouterError),
}

} // verus!
