//! Fibre analysis on labelled scroll volumes: connected regions, point clouds and the places
//! where fibres meet.

pub mod clouds;
pub mod collisions;
pub mod components;
pub mod flood;
pub mod maps;
