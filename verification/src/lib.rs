//! Neuroevolution of simple agents: feed-forward networks whose flattened
//! weights are the genomes of a genetic algorithm, and the state of the
//! world in which the agents live.
//!
//! The library is generic in the scalar type `T` of weights, genes and
//! coordinates. It moves such values and never computes with them: what is
//! to be computed of them, such as what a neuron gives or where an animal
//! is after a step, is asked of kernels that the caller hands in. Every
//! guarantee stated here is about shape, order and bookkeeping: who is
//! asked what, in what order, and what becomes of the answers.

pub mod algorithm;
pub mod animal;
pub mod animal_individual;
pub mod chromosome;
pub mod crossover;
pub mod eye;
pub mod food;
pub mod individual;
pub mod mutation;
pub mod network;
pub mod physics;
pub mod random;
pub mod selection;
pub mod simulation;
pub mod statistics;
pub mod world;
