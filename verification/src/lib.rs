//! A prioritized work queue shared by one producer and a pool of workers,
//! together with the state machines that drive both sides and a sequential
//! model of the whole pipeline.

pub mod work_item;
pub mod mailbox;
pub mod history;
pub mod input;
pub mod config;
pub mod random;
pub mod producer;
pub mod worker;
pub mod summary;
pub mod system;
pub mod guarantees;
pub mod simulation;
