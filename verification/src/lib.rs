//! The exact part of a recursive ray tracer.
//!
//! A ray tracer computes with real numbers, and decides on what it
//! computed: which crossing of a ray comes first, what a group of shapes
//! keeps of the crossings with its children, which media lie on the two
//! sides of a hit, whether a point lies in shadow, whether light has fuel
//! left to bounce once more.  This library holds the decisions, and proves
//! of each what it returns.  The arithmetic is left to the program around it.
//!
//! # How numbers are carried
//!
//! A number is carried as the 64-bit integer that orders among integers as
//! the number does among numbers.  For a double-precision number that is
//! not negative this is its bit pattern; for a negative one, the pattern
//! with every bit but the sign flipped.  Zero is carried as 0 whatever its
//! sign, so the integers that are not negative are the numbers that are
//! not negative.  The ledger of crossings and the bounding boxes work on
//! such integers.  The coordinates of a mesh file are only passed on, and
//! are carried as plain bit patterns.

pub mod approx;
pub mod bounding_box;
pub mod image;
pub mod intersection;
pub mod material;
pub mod noise;
pub mod obj;
pub mod shape;
pub mod world;
