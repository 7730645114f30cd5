//! A line filter: it keeps the lines of a text stream that are not, character
//! for character, one of a given set of forbidden strings.
//!
//! The forbidden strings form a [`ForbiddenSet`], built once from the
//! arguments of the run. [`filter_lines`] filters lines that are at hand.
//! [`step`] takes the events of a reader one by one and answers each with an
//! [`Action`], for a caller that reads and writes as it goes; [`run`] takes
//! them all and gives the [`Outcome`].

pub mod filter;
pub mod forbidden;
pub mod laws;
pub mod machine;
pub mod report;
pub mod run;
pub mod text;

pub use filter::filter_lines;
pub use forbidden::ForbiddenSet;
pub use machine::{step, Action, Event, State};
pub use report::{read_error_message, render_lines, EXIT_READ_ERROR, EXIT_SUCCESS};
pub use run::{run, Outcome};
