//! Parses bracketed constituency strings and CoNLL dependency rows into
//! in-memory structures (an `id_tree::Tree<String>` or a `Vec<Token>`),
//! walks them with a generic depth-first engine, and turns them back into
//! plot coordinates or source strings.

use vstd::prelude::*;

pub mod config;
pub mod conll_2_plot;
pub mod conll_2_string;
pub mod errors;
pub mod generic_traits;
pub mod string_2_conll;
pub mod sub_tree_children;
pub mod string_2_tree;
pub mod text;
pub mod tree_2_plot;
pub mod tree_2_string;
pub mod tree_model;
pub mod tree_store;
pub mod walk_tree;

pub use config::Config;
pub use config::DataType;
pub use conll_2_plot::Conll2Plot;
pub use conll_2_string::Conll2String;
pub use errors::LibError;
pub use generic_traits::String2StructureBuilder;
pub use generic_traits::Structure2PlotBuilder;
pub use string_2_conll::String2Conll;
pub use string_2_conll::Token;
pub use string_2_tree::String2Tree;
pub use tree_2_plot::Tree2Plot;
pub use tree_2_string::Tree2String;
pub use walk_tree::Accumulator;
pub use walk_tree::Element;
pub use walk_tree::WalkActions;
pub use walk_tree::WalkTree;

verus! {

} // verus!
