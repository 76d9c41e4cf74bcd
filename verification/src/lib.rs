//! A registry of type-tagged services behind reader-writer locks, with
//! staged lookup, composite requests and runtime selection among
//! alternatives.
pub mod access;
pub mod container;
pub mod errors;
pub mod factory;
pub mod guards;
pub mod ioc;
pub mod methods;
pub mod names;
pub mod option_model;
pub mod pipeline;
pub mod reflect;
pub mod register;
pub mod service;
pub mod stage_model;
pub mod staged_ioc;
pub mod sync;
pub mod wiring;
