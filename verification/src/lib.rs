use vstd::prelude::*;

pub mod def_ids;
pub mod document;
pub mod encoder;
pub mod filter;
pub mod filter_eval;
pub mod filter_graph;
pub mod fragment;
pub mod image;
pub mod keyframe;
pub mod length;
pub mod number;
pub mod parser;
pub mod path_data;
pub mod path_length;
pub mod path_writer;
pub mod pretty_round_trip;
pub mod preserved;
pub mod round_trip;
pub mod scene;
pub mod strings;
pub mod text;
pub mod transform;

verus! {
} // verus!
