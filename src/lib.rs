//! Runtime core of a real-time simulation: a fixed-timestep clock, a graph of
//! per-frame stages resolved into one deterministic order, a frame scheduler
//! that runs them, the window host that gates graphics start-up, and the
//! decisions of the graphics-context bootstrap.
pub mod order;
pub mod scheduler;
pub mod stage;
pub mod components;
pub mod event;
pub mod game;
pub mod time;
pub mod vulkan;
pub mod window;
