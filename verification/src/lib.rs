//! Building blocks of a collaborative-filtering recommendation engine:
//! the densely indexed rating container and its builder, the sources
//! that ratings come from, per-item and per-user rating counts, the order
//! of work of a training run, and the rules by which queries are answered
//! from a trained model.
//!
//! The library carries rating values and never computes with them: the
//! arithmetic of training and prediction belongs to whoever drives the
//! engine.

pub mod csvdata;
pub mod dataprovider;
pub mod ratings;
pub mod recommender;
pub mod settings;
pub mod sorting;
pub mod statistics;
pub mod training;
