//! Aggregation of the two national postal-code registries into one dataset
//! grouped by the first three digits of the postal code.
//!
//! `row` cuts a line into its fields and cleans them; `store` holds the
//! dataset and assigns the codes of prefecture and municipality pairs;
//! `aggregate` takes whole registries in; `emit` says which documents a
//! dataset gives. `model` states all of this as mathematics, `laws` proves
//! what follows from it. `zip_util` and `encording_util` unpack and decode
//! what was downloaded, `registry` runs the steps from archive to dataset,
//! and `command_line` reads the program's arguments.

pub mod aggregate;
pub mod command_line;
pub mod emit;
pub mod encording_util;
pub mod generic_error;
pub mod laws;
pub mod model;
pub mod registry;
pub mod row;
pub mod store;
pub mod text;
pub mod zip_util;
