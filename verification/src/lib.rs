//! The engine of an image-reveal puzzle: a planar point set, two sets of
//! undirected edges over it (the solution and the player's progress), and the
//! coloured triangles that the solution edges close.
//!
//! Positions are points of the integer lattice of world units. Every
//! geometric predicate of the crate (distance tests, grid cells, the
//! point-in-triangle test) is exact integer arithmetic.

pub mod autosolver;
pub mod color;
pub mod cursor;
pub mod edge;
pub mod geometry;
pub mod grid;
pub mod hidden_text;
pub mod installation;
pub mod manifest;
pub mod math;
pub mod messages;
pub mod network;
pub mod puzzle;
pub mod quantize;
pub mod sampling;
pub mod save_data;
pub mod seq_facts;
pub mod sounds;
pub mod states;
pub mod storage;
pub mod take_once;
pub mod triangle;
pub mod triangulate;
pub mod ui;
pub mod vec_map;
pub mod vertex;
