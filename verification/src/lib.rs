//! Decision logic of a batch converter between optical-disc / hard-disk images
//! and MAME's CHD format: which `chdman` sub-command handles which input, how raw
//! CD dumps are recognised, which paths can be handed to `chdman` unchanged, how
//! free output names are chosen, and how `chdman`'s output is turned into lines
//! and progress figures.

pub mod batch;
pub mod disc;
pub mod listing;
pub mod names;
pub mod output;
pub mod paths;
pub mod routing;
pub mod text;
pub mod tools;
