//! What the program does before its window opens: the launch options it
//! reads, what it opens first, and the desktop entry it writes.
pub mod cli;
pub mod desktop;
pub mod startup;

pub use cli::{parse_args, CliOptions};
pub use desktop::quote_desktop_path;
pub use startup::{startup_plan, StartupPlan};
