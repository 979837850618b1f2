//! A code generator for state machines with an entry API: a small language
//! describes states and transitions, and the generator writes Rust types in
//! which illegal states and transitions cannot be expressed.
//!
//! ```text
//! /// A traffic light
//! #[derive(Debug)]
//! #[fsmentry(entry = pub(crate) LightEntry, unsafe = false)]
//! pub enum Light {
//!     Red;                 // a state
//!     Green: String;       // a state that carries data
//!     /// Cars speed up
//!     Red -> RedAmber -> Green;
//!     Green -> Amber -"make sure you stop!"-> Red;
//!     Red -skip-> Green;   // a transition method with its own name
//! }
//! ```
//!
//! Reading ([`syntax`]), checking ([`graph`]), classifying ([`topology`]),
//! planning ([`plan`]) and writing ([`render`]) are separate steps, joined by
//! [`FsmEntry`]. The properties that hold of the whole are proved in [`laws`].
pub mod config;
pub mod error;
pub mod example;
pub mod graph;
pub mod laws;
pub mod machine;
pub mod names;
pub mod plan;
pub mod render;
pub mod syntax;
pub mod text;
pub mod topology;

pub use error::{Error, ErrorKind};
pub use machine::{FsmEntry, Mermaid, Renderer};
