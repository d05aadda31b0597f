//! A falling-sand cellular automaton over one packed chunk of particles.
pub mod grid;
pub mod particle;
pub mod sim;
pub mod brush;
pub mod present;
pub mod game;

pub use game::Game;
pub use particle::ParticleType;
