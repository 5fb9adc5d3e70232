//! A modular signal-processing engine: a graph of components whose outputs
//! drive other components' inputs and parameters, evaluated once per tick.
//!
//! A [`rack::Rack`] holds a top-level definition and the definitions that it
//! can call. Each definition is a list of statements, which are nodes of some
//! kind or calls of other definitions, and a table of wires into its outputs.
//! Once per tick the host calls `update`, which moves every node on, and then
//! `output` for each output that it wants to hear.
//!
//! - `value`: samples, MIDI events, signals, and the types of ports
//! - `components`: port specifications and the contract of a kind of node
//! - `wire`, `params`: wires, tables of wires, and the resolution of parameters
//! - `uid`: tokens, and the addresses of node instances
//! - `rack`: the definition store and its operations
//! - `eval`: the evaluation of wires, of ticks, and of calls
//! - `laws`, `ticks`: what holds of every rack, and of every tick
//! - `context`, `output`: the host's side of a tick, and audio frames
//! - `octahack_components`: a small library of node kinds

pub mod components;
pub mod context;
pub mod eval;
pub mod laws;
pub mod octahack_components;
pub mod output;
pub mod params;
pub mod rack;
pub mod ticks;
pub mod uid;
pub mod value;
pub mod wire;
