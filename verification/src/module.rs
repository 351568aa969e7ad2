//! Choosing a loader for an import and resolving a specifier to the
//! identifier of a module.
use crate::core_modules::{is_core_module, is_core_name};
use crate::import_map::{mapped, ImportMap};
use crate::path::{join_paths, parent_of, path_join, path_parent};
use crate::pattern::{drive_prefixed, is_match, url_prefixed, URL_PATTERN, WINDOWS_PATH_PATTERN};
use crate::url::{absolute_url, parse_url, resolve_url, url_parse, UrlError};
use vstd::prelude::*;

verus! {

/// The three ways of finding a module.
#[derive(Debug, Clone, Copy, PartialEq, Eq, Structural)]
pub enum Loader {
    /// A built-in module, served from the registry.
    Core,
    /// A file on disk.
    Fs,
    /// A document behind a URL.
    Url,
}

/// The loader that loads a specifier: a built-in name goes to the registry, a
/// Windows absolute path to the disk, anything else that parses as a URL to
/// the network, and the rest to the disk.
pub open spec fn loader_for_load_spec(is_core: bool, is_windows_path: bool, is_url: bool) -> Loader {
    if is_core {
        Loader::Core
    } else if is_windows_path {
        Loader::Fs
    } else if is_url {
        Loader::Url
    } else {
        Loader::Fs
    }
}

/// The loader that loads a specifier, from what is known of it.
pub fn loader_for_load(is_core: bool, is_windows_path: bool, is_url: bool) -> (loader: Loader)
    ensures
        loader == loader_for_load_spec(is_core, is_windows_path, is_url),
{
    if is_core {
        Loader::Core
    } else if is_windows_path {
        Loader::Fs
    } else if is_url {
        Loader::Url
    } else {
        Loader::Fs
    }
}

/// The loader that resolves a specifier: a built-in name goes to the registry
/// unless built-ins are ignored, a URL import to the URL loader, and the rest
/// to the disk.
pub open spec fn loader_for_resolve_spec(
    is_core: bool,
    is_url_import: bool,
    ignore_core_modules: bool,
) -> Loader {
    if is_core && !ignore_core_modules {
        Loader::Core
    } else if is_url_import {
        Loader::Url
    } else {
        Loader::Fs
    }
}

/// The loader that resolves a specifier, from what is known of it.
pub fn loader_for_resolve(is_core: bool, is_url_import: bool, ignore_core_modules: bool) -> (loader:
    Loader)
    ensures
        loader == loader_for_resolve_spec(is_core, is_url_import, ignore_core_modules),
{
    if is_core && !ignore_core_modules {
        Loader::Core
    } else if is_url_import {
        Loader::Url
    } else {
        Loader::Fs
    }
}

/// What has to be fetched to load an import.
#[derive(Debug, Clone, PartialEq, Eq)]
pub enum LoadRequest {
    /// The built-in module of this name.
    Core { name: String },
    /// The file at this path.
    File { path: String },
    /// The document at this URL, past the download cache if `skip_cache`.
    Remote { url: String, skip_cache: bool },
}

/// A `LoadRequest` as plain values.
pub enum LoadRequestView {
    Core { name: Seq<char> },
    File { path: Seq<char> },
    Remote { url: Seq<char>, skip_cache: bool },
}

impl View for LoadRequest {
    type V = LoadRequestView;

    open spec fn view(&self) -> LoadRequestView {
        match self {
            LoadRequest::Core { name } => LoadRequestView::Core { name: name@ },
            LoadRequest::File { path } => LoadRequestView::File { path: path@ },
            LoadRequest::Remote { url, skip_cache } => LoadRequestView::Remote {
                url: url@,
                skip_cache: *skip_cache,
            },
        }
    }
}

/// The request that loads `specifier` through `loader`.
pub open spec fn load_request_spec(loader: Loader, specifier: Seq<char>, skip_cache: bool) -> LoadRequestView {
    match loader {
        Loader::Core => LoadRequestView::Core { name: specifier },
        Loader::Fs => LoadRequestView::File { path: specifier },
        Loader::Url => LoadRequestView::Remote { url: specifier, skip_cache },
    }
}

/// The request that loads `specifier` through `loader`.
pub fn load_request(loader: Loader, specifier: &str, skip_cache: bool) -> (request: LoadRequest)
    ensures
        request@ == load_request_spec(loader, specifier@, skip_cache),
{
    match loader {
        Loader::Core => LoadRequest::Core { name: specifier.to_owned() },
        Loader::Fs => LoadRequest::File { path: specifier.to_owned() },
        Loader::Url => LoadRequest::Remote { url: specifier.to_owned(), skip_cache },
    }
}

/// Looks at a specifier, chooses its loader and says what the loader has to
/// fetch.
pub fn load_import(specifier: &str, skip_cache: bool) -> (request: LoadRequest)
    ensures
        request@ == load_request_spec(
            loader_for_load_spec(
                is_core_name(specifier@),
                drive_prefixed(specifier@),
                url_parse(specifier@) is Some,
            ),
            specifier@,
            skip_cache,
        ),
{
    let is_core = is_core_module(specifier);
    let is_windows_path = is_match(WINDOWS_PATH_PATTERN, specifier);
    let is_url = parse_url(specifier).is_some();
    load_request(loader_for_load(is_core, is_windows_path, is_url), specifier, skip_cache)
}

/// How the URL loader gets a document.
#[derive(Debug, Clone, Copy, PartialEq, Eq, Structural)]
pub enum RemoteStep {
    /// Serve the copy in the download cache.
    ServeCached,
    /// Fetch the document and put a copy in the download cache.
    FetchAndStore,
    /// Fetch the document and leave the download cache alone.
    Fetch,
}

/// How the URL loader gets a document: from the cache where the cache is in
/// use and holds it, and from the network else.
pub open spec fn remote_step_spec(skip_cache: bool, cached: bool) -> RemoteStep {
    if skip_cache {
        RemoteStep::Fetch
    } else if cached {
        RemoteStep::ServeCached
    } else {
        RemoteStep::FetchAndStore
    }
}

/// Decides how the URL loader gets a document.
pub fn remote_step(skip_cache: bool, cached: bool) -> (step: RemoteStep)
    ensures
        step == remote_step_spec(skip_cache, cached),
{
    if skip_cache {
        RemoteStep::Fetch
    } else if cached {
        RemoteStep::ServeCached
    } else {
        RemoteStep::FetchAndStore
    }
}

/// Where an import leads.
#[derive(Debug, Clone, PartialEq, Eq)]
pub enum Resolution {
    /// A built-in module; its identifier is its name.
    Core(String),
    /// A module behind a URL; its identifier is the absolute URL.
    Url(String),
    /// A module on disk. Its identifier is the canonical path of `specifier`,
    /// taken from the directory of `base` where it is relative.
    File { base: Option<String>, specifier: String },
}

/// A `Resolution` as plain values.
pub enum ResolutionView {
    Core(Seq<char>),
    Url(Seq<char>),
    File { base: Option<Seq<char>>, specifier: Seq<char> },
}

impl View for Resolution {
    type V = ResolutionView;

    open spec fn view(&self) -> ResolutionView {
        match self {
            Resolution::Core(name) => ResolutionView::Core(name@),
            Resolution::Url(url) => ResolutionView::Url(url@),
            Resolution::File { base, specifier } => ResolutionView::File {
                base: base.deep_view(),
                specifier: specifier@,
            },
        }
    }
}

/// The view of a resolution's outcome.
pub open spec fn resolution_view(r: Result<Resolution, UrlError>) -> Result<
    ResolutionView,
    UrlError,
> {
    match r {
        Ok(found) => Ok(found@),
        Err(e) => Err(e),
    }
}

/// Whether an import is a URL import: the specifier is a URL, or the module
/// that imports it was itself found behind a URL.
pub open spec fn is_url_import(base: Option<Seq<char>>, specifier: Seq<char>) -> bool {
    url_prefixed(specifier) || match base {
        Some(b) => url_prefixed(b),
        None => false,
    }
}

/// Where `specifier` leads through `loader`.
pub open spec fn resolved_by(loader: Loader, base: Option<Seq<char>>, specifier: Seq<char>) -> Result<
    ResolutionView,
    UrlError,
> {
    match loader {
        Loader::Core => Ok(ResolutionView::Core(specifier)),
        Loader::Url => match absolute_url(base, specifier) {
            Ok(url) => Ok(ResolutionView::Url(url)),
            Err(e) => Err(e),
        },
        Loader::Fs => Ok(ResolutionView::File { base, specifier }),
    }
}

/// Where the import of `specifier` from the module `base` leads, once the
/// import map has been applied.
pub open spec fn resolve_import_spec(
    base: Option<Seq<char>>,
    specifier: Seq<char>,
    ignore_core_modules: bool,
) -> Result<ResolutionView, UrlError> {
    resolved_by(
        loader_for_resolve_spec(
            is_core_name(specifier),
            is_url_import(base, specifier),
            ignore_core_modules,
        ),
        base,
        specifier,
    )
}

/// The text of an optional base.
pub open spec fn base_view(base: Option<&str>) -> Option<Seq<char>> {
    match base {
        Some(b) => Some(b@),
        None => None,
    }
}

/// Resolves `specifier` through `loader`.
pub fn resolve_with(loader: Loader, base: Option<&str>, specifier: &str) -> (r: Result<
    Resolution,
    UrlError,
>)
    ensures
        resolution_view(r) == resolved_by(loader, base_view(base), specifier@),
{
    match loader {
        Loader::Core => Ok(Resolution::Core(specifier.to_owned())),
        Loader::Url => match resolve_url(base, specifier) {
            Ok(url) => Ok(Resolution::Url(url)),
            Err(e) => Err(e),
        },
        Loader::Fs => {
            let base = match base {
                Some(b) => Some(b.to_owned()),
                None => None,
            };
            Ok(Resolution::File { base, specifier: specifier.to_owned() })
        },
    }
}

/// The directory that a file import starts from: the directory of the
/// module that imports, and the working directory where the import comes
/// from no module. A module without a directory stands for the empty path.
pub open spec fn import_dir(base: Option<Seq<char>>, cwd: Seq<char>) -> Seq<char> {
    match base {
        Some(b) => match path_parent(b) {
            Some(dir) => dir,
            None => Seq::empty(),
        },
        None => cwd,
    }
}

/// The path of a file import before it is made canonical: `specifier` under
/// the directory the import starts from.
pub open spec fn file_target_spec(base: Option<Seq<char>>, specifier: Seq<char>, cwd: Seq<char>) -> Seq<
    char,
> {
    path_join(import_dir(base, cwd), specifier)
}

/// The path of a file import before it is made canonical.
pub fn file_target(base: Option<&str>, specifier: &str, cwd: &str) -> (path: String)
    ensures
        path@ == file_target_spec(base_view(base), specifier@, cwd@),
{
    match base {
        Some(b) => match parent_of(b) {
            Some(dir) => join_paths(dir.as_str(), specifier),
            None => {
                proof {
                    reveal_strlit("");
                    assert(""@ =~= Seq::<char>::empty());
                }
                join_paths("", specifier)
            },
        },
        None => join_paths(cwd, specifier),
    }
}

/// Resolves the import of `specifier` from the module `base`: applies the
/// import map, if there is one, with `cwd` for the working directory, then
/// chooses the loader and lets it resolve.
pub fn resolve_import(
    base: Option<&str>,
    specifier: &str,
    ignore_core_modules: bool,
    import_map: Option<ImportMap>,
    cwd: &str,
) -> (r: Result<Resolution, UrlError>)
    ensures
        resolution_view(r) == resolve_import_spec(
            base_view(base),
            match import_map {
                Some(map) => mapped(map@, cwd@, specifier@),
                None => specifier@,
            },
            ignore_core_modules,
        ),
{
    let specifier: String = match import_map {
        Some(map) => match map.lookup(specifier, cwd) {
            Some(rewritten) => rewritten,
            None => specifier.to_owned(),
        },
        None => specifier.to_owned(),
    };
    let is_core = is_core_module(specifier.as_str());
    let is_url = is_match(URL_PATTERN, specifier.as_str()) || match base {
        Some(b) => is_match(URL_PATTERN, b),
        None => false,
    };
    resolve_with(loader_for_resolve(is_core, is_url, ignore_core_modules), base, specifier.as_str())
}

} // verus!
