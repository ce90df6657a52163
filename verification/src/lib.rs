//! Sticky notes that remember their monitor.

pub mod actions;
pub mod clock;
pub mod diagnostics;
pub mod diagnostics_laws;
pub mod model;
pub mod paths;
pub mod placement;
pub mod placement_laws;
pub mod search;
pub mod session;
pub mod session_laws;
pub mod text;
pub mod text_laws;
pub mod tray;
pub mod tray_laws;
pub mod window;
pub mod window_laws;
pub mod wire;

use vstd::prelude::*;

verus! {

/// The application's identity on the bus, and the prefix of its resources.
pub const APP_ID: &'static str = "us.hagreli.Stickies";

/// The object path that the toolkit derives from the application's identity.
pub const APP_OBJECT_PATH: &'static str = "/us/hagreli/Stickies";

} // verus!
