//! A puzzle cube of any size, turned by rotations that are parsed from the
//! usual cube notation, with every operation verified against a mathematical
//! model of the cube's facelets.

/// The cube, its sides and rotations, and the laws that rotations obey.
pub mod cube;

/// Module providing the ability to parse string-encoded sequences of moves and apply them to a cube.
pub mod notation;

/// Pre-defined sequences of rotations that make patterns on a cube.
pub mod known_transforms;

/// Demos of the cube to show in a terminal.
pub mod demo;

/// The moves that dragging across the cube decides on, and which cubies they move.
pub mod moves;
