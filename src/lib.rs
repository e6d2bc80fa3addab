pub mod datastructures;
pub mod laws;
pub mod misc;
pub mod model;
pub mod parser;
pub mod rules;
pub mod search;
pub mod termination;
