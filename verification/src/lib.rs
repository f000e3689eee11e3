//! Verified core of a hexagonal-grid cellular automaton.
//!
//! The library covers the logic of the simulation: conversion between
//! axial/cube hex coordinates and screen positions (in fixed-point
//! arithmetic), robust rounding of fractional cube coordinates, a sparse
//! grid of cells keyed by axial coordinate, pointer-driven cell toggling,
//! and the fixed-step automaton rule (a cell is alive after a step exactly
//! when it had two alive neighbours before it).

pub mod coords;
pub mod screen;
pub mod grid;
pub mod life;
