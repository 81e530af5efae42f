//! Random sampling of files from a directory tree.
//!
//! A run makes repeated random descents from a root directory and collects
//! the files they end at. File names that match a whitelist of glob patterns
//! are never entered. The library decides; its caller reads the file system:
//! a [`Sampler`] names the path it wants probed, takes the answer as a
//! [`Probe`] and moves on. [`sample`] makes a whole run with a function that
//! looks at paths.

pub mod choice;
pub mod file_tree;
pub mod glob_match;
pub mod run_laws;
pub mod path_set;
pub mod probe;
pub mod sample;
pub mod sampler;
pub mod text;
pub mod walk;
pub mod whitelist;

pub use glob_match::{glob_compiles, glob_matches, pattern_accepts};
pub use choice::{draw, position_of};
pub use path_set::PathSet;
pub use probe::{eligible_entries, Probe};
pub use sample::{sample, Sample};
pub use sampler::{Phase, Sampler, MAX_STEPS};
pub use text::{split_text, trim_text, white_space};
pub use walk::{guided_walk, random_walk, Progress, Walk};
pub use whitelist::{
    is_whitelisted, parse_whitelist, try_parse_whitelist, InvalidPattern, Whitelist,
};
