//! A discrete-time simulation of rigid circles ("balls") on a rectangular
//! table, in fixed-point integer arithmetic.
//!
//! `world` is the component store; `physics` advances positions by velocity;
//! `collision` reflects balls off the table's sides and exchanges impulses
//! between overlapping pairs; `schedule` runs ticks and observes them;
//! `entities` builds a simulation from its `config`; `laws` states and proves
//! what holds of every input.
pub mod components;
pub mod world;
pub mod physics;
pub mod collision;
pub mod config;
pub mod entities;
pub mod schedule;
pub mod laws;
