use vstd::prelude::*;

pub mod authz;
pub mod bridge;
pub mod discovery;
pub mod frame;
pub mod host;
pub mod json;
pub mod params;
pub mod png;
pub mod ranking;
pub mod registry;
pub mod text;
pub mod visual;

verus! {
}
