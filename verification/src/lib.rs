use vstd::prelude::*;

pub mod config;
pub mod desktop;
pub mod discovery;
pub mod error;
pub mod exec;
pub mod favorites;
pub mod interaction;
pub mod launch;
pub mod order;
pub mod paths;
pub mod power;
pub mod search;
pub mod state;
pub mod strmap;
pub mod text;
pub mod theme;

verus! {

/// The application name used in configuration and state paths.
pub const APP_NAME: &'static str = "helto-launcher";

} // verus!
