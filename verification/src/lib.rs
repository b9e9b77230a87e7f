//! Verified core of a small OpenGL/SDL2 prototype renderer: the set of keys
//! that are held down, and the bookkeeping of a linked shader program
//! (its uniform-location cache and the decisions taken while it is built).
pub mod renderer;
pub mod utility;
