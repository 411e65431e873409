pub mod text;
pub mod registry;
pub mod baseline;
pub mod writer;
pub mod memory;
pub mod rtti;
pub mod walk;
pub mod names;
pub mod maps;
pub mod window;
pub mod lists;
pub mod classify;
pub mod fields;
pub mod slots;
pub mod anchors;
pub mod heuristics;
pub mod instance_stage;
pub mod texts;
pub mod tree;
pub mod links;
pub mod reference_order;
pub mod baseline_values;
pub mod numerals;
