//! Verified core of the keyboard plate prototyping tool: the menu
//! commands of the command-line front end and the index topology of the
//! extruded plate mesh written to PLY files.

pub mod command;
pub mod mesh;
pub mod sprites;
