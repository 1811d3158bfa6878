//! Interchain transaction coordination: a saga-style coordinator with
//! resource locks, an ordered step log, an idempotency cache and a task
//! queue, together with a FIFO relay log of interchain requests.
#![allow(non_snake_case)]

pub mod hub;
pub mod invoke;
pub mod proxy;
pub mod samples;
pub mod table;
pub mod text;
