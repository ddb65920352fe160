//! A probabilistic, rule-based cellular automaton on a toroidal grid of
//! discrete symbols, together with the machinery used to search seeds for
//! long-lived, visually non-repetitive behavior: a calibrated random rule
//! generator, a first-match-wins transition evaluator, a stepper with a
//! dirty-region optimization that skips quiescent areas, and a novelty
//! heuristic that scores finished runs.

pub mod calibrate;
pub mod explore;
pub mod novelty;
pub mod render;
pub mod rng;
pub mod rules;
pub mod torus;
pub mod transition;
pub mod world;
