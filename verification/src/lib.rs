//! drawskill: a diagram language engine.

pub mod style;
pub mod text_util;
pub mod error;
pub mod expr;
pub mod path;
pub mod model;
pub mod parse;
pub mod output;
pub mod update;
pub mod render;
pub mod symbols;
pub mod schematic;
pub mod dataflow;
pub mod shapes;
pub mod order;
pub mod text;
pub mod registry;
