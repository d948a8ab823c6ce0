//! The multiverse timeline: a graph of commits and dimensions, and its
//! renderings as terminal text, Graphviz DOT and SVG.
pub mod ancestry;
pub mod ascii;
pub mod builder;
pub mod dot;
pub mod graph;
pub mod svg;
