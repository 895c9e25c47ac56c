use vstd::prelude::*;

pub mod text;
pub mod state;
pub mod order;
pub mod library;
pub mod shelf;
pub mod artscrape;
pub mod coverfetch;
pub mod deck;
pub mod deck_laws;
pub mod raster;
pub mod cases;
pub mod controls;
pub mod rack;
pub mod label;
pub mod screens;

verus! {
} // verus!
