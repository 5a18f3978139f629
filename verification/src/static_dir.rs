//! Serve a pre-built SPA from a directory on disk (no embedding, no dev server).

use axum::Router;
use std::path::PathBuf;
use tower_http::services::fs::DefaultServeDirFallback;
use tower_http::services::{ServeDir, ServeFile};
use vstd::prelude::*;

use crate::spa::{default_index, SpaOptions};

verus! {

/// `axum::Router`, built here and handed to the caller unchanged.
#[verifier::external_type_specification]
#[verifier::external_body]
#[verifier::reject_recursive_types(S)]
pub struct ExRouter<S>(Router<S>);

/// `tower_http::services::ServeDir`, a service that serves a directory.
#[verifier::external_type_specification]
#[verifier::external_body]
#[verifier::reject_recursive_types(F)]
pub struct ExServeDir<F>(ServeDir<F>);

/// `tower_http::services::fs::DefaultServeDirFallback`, the type parameter of a
/// `ServeDir` without a fallback.
#[verifier::external_type_specification]
#[verifier::external_body]
pub struct ExDefaultServeDirFallback(DefaultServeDirFallback);

/// `tower_http::services::ServeFile`, a service that serves one file.
#[verifier::external_type_specification]
#[verifier::external_body]
pub struct ExServeFile(ServeFile);

/// The path that `dir.join(name)` returns.
pub uninterp spec fn joined_path(dir: PathBuf, name: Seq<char>) -> PathBuf;

/// The service that `ServeDir::new(dir)` returns.
pub uninterp spec fn dir_service(dir: PathBuf) -> ServeDir;

/// The service that `dir.append_index_html_on_directories(false)` returns: a
/// request for a directory is treated as a file that is not there.
pub uninterp spec fn no_directory_index(dir: ServeDir) -> ServeDir;

/// The service that `ServeFile::new(path)` returns.
pub uninterp spec fn file_service(path: PathBuf) -> ServeFile;

/// The service that `dir.fallback(file)` returns: `dir`, answering with `file`
/// whatever it cannot resolve.
pub uninterp spec fn with_fallback(dir: ServeDir, file: ServeFile) -> ServeDir<ServeFile>;

/// The router that `Router::new().fallback_service(service)` returns: no routes
/// of its own, and `service` for every request.
pub uninterp spec fn fallback_router(service: ServeDir<ServeFile>) -> Router;

/// Calls `PathBuf::join`; the contract says only that the result is the path
/// named `joined_path(dir, name)`, which depends on its arguments alone.
#[verifier::external_body]
fn path_join(dir: &PathBuf, name: &str) -> (r: PathBuf)
    ensures
        r == joined_path(*dir, name@),
{
    dir.join(name)
}

/// Calls `tower_http::services::ServeDir::new`; the result is the service named
/// `dir_service(dir)`.
#[verifier::external_body]
fn serve_dir_new(dir: PathBuf) -> (r: ServeDir)
    ensures
        r == dir_service(dir),
{
    ServeDir::new(dir)
}

/// Calls `ServeDir::append_index_html_on_directories(false)`; the result is the
/// service named `no_directory_index(dir)`.
#[verifier::external_body]
fn serve_dir_without_index(dir: ServeDir) -> (r: ServeDir)
    ensures
        r == no_directory_index(dir),
{
    dir.append_index_html_on_directories(false)
}

/// Calls `tower_http::services::ServeFile::new`; the result is the service named
/// `file_service(path)`.
#[verifier::external_body]
fn serve_file_new(path: PathBuf) -> (r: ServeFile)
    ensures
        r == file_service(path),
{
    ServeFile::new(path)
}

/// Calls `ServeDir::fallback`; the result is the service named
/// `with_fallback(dir, file)`.
#[verifier::external_body]
fn serve_dir_fallback(dir: ServeDir, file: ServeFile) -> (r: ServeDir<ServeFile>)
    ensures
        r == with_fallback(dir, file),
{
    dir.fallback(file)
}

/// Calls `axum::Router::new` and then `Router::fallback_service` (which does
/// not panic); the result is the router named `fallback_router(service)`.
/// Equality of two such routers is behavioural: they hold equal services.
#[verifier::external_body]
fn router_with_fallback(service: ServeDir<ServeFile>) -> (r: Router)
    ensures
        r == fallback_router(service),
{
    Router::new().fallback_service(service)
}

/// The on-disk SPA router for `dir`: files under `dir` are served as they are;
/// anything else, the root and other directories included, gets the file
/// `dir/index` (a missing `/missing.js` too, not a `404`).
pub open spec fn spa_dir_router(dir: PathBuf, index: Seq<char>) -> Router {
    fallback_router(
        with_fallback(
            no_directory_index(dir_service(dir)),
            file_service(joined_path(dir, index)),
        ),
    )
}

/// A `Router` whose fallback serves `dir`, falling back to `dir/index.html`
/// for the root and client-side routes.
///
/// Unlike the embedded router, the on-disk fallback serves the index document
/// for **any** unresolved path, including missing files with an extension such
/// as `/missing.js`, which return `200` with the index HTML rather than `404`.
pub fn static_router(dir: PathBuf) -> (r: Router)
    ensures
        r == spa_dir_router(dir, default_index()),
        r == fallback_router(
            with_fallback(
                no_directory_index(dir_service(dir)),
                file_service(joined_path(dir, "index.html"@)),
            ),
        ),
{
    static_router_with(dir, SpaOptions::new())
}

/// Like [`static_router`], with configurable [`SpaOptions`] (the index file
/// served for `/` and unmatched client-side routes).
pub fn static_router_with(dir: PathBuf, opts: SpaOptions) -> (r: Router)
    ensures
        r == spa_dir_router(dir, opts@.index),
        r == fallback_router(
            with_fallback(
                no_directory_index(dir_service(dir)),
                file_service(joined_path(dir, opts@.index)),
            ),
        ),
{
    let index = path_join(&dir, opts.index_document());
    let files = serve_dir_without_index(serve_dir_new(dir));
    let service = serve_dir_fallback(files, serve_file_new(index));
    router_with_fallback(service)
}

} // verus!
