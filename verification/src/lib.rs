use vstd::prelude::*;

pub mod text;
pub mod order;
pub mod lines;
pub mod gui_string;
pub mod deck;
pub mod inp;
pub mod inp_basic;
pub mod expansion;
pub mod model;
pub mod output;
pub mod compat;
pub mod registry;
pub mod petsc;
pub mod mesh;
pub mod elements;
pub mod bc;
pub mod mesh_builder;
pub mod bc_builder;
pub mod analysis;
pub mod catalog;
pub mod gui_catalog;
pub mod migration;
pub mod converters;
pub mod results;
pub mod frd;
pub mod materials;
pub mod pipeline;
pub mod validation;
