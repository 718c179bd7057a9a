//! Verified core of a terminal arena shooter: the arena grid and its
//! navigation field, the deterministic spawn generator and where waves
//! appear, frame pacing, the wave, ammunition and scoring rules, key
//! handling, the frame loop's decisions, and the character frame with the
//! menu screens, the heads-up display, the minimap and the differential
//! ANSI encoder, with a model of the terminal that reads its output.

pub mod world;
pub mod pacing;
pub mod strings;
pub mod render;
pub mod game;
pub mod input;
pub mod options;
pub mod screens;
pub mod hud;
pub mod minimap;
pub mod spawn;
pub mod session;
pub mod terminal;
