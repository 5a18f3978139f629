//! Serve a single-page frontend from axum: the on-disk and dev-server routers,
//! and the decisions behind the embedded router and the dev-server lifecycle,
//! each with its contract.

use vstd::prelude::*;

pub mod dev;
pub mod dev_router;
pub mod embed;
pub mod lifecycle;
pub mod proxy;
pub mod route_path;
pub mod spa;
pub mod static_dir;
pub mod text;

pub use dev::DevConfig;
pub use spa::SpaOptions;
pub use static_dir::{static_router, static_router_with};

verus! {

} // verus!
