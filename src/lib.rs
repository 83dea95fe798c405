//! Turn-based decision engine for a resource-collection game on a hexagonal cell graph: a
//! nearest-resource search over the graph, interchangeable strategies that turn the state of a
//! turn into force-allocation intents, and the rendering of those intents as one command line.
pub mod model;
pub mod graph;
pub mod path_finder;
pub mod state;
pub mod sorting;
pub mod emitter;
pub mod behaviors;
