//! Middle end of the coil compiler: project files, stack code passes, and the
//! SSA form that numeric bodies are specialised through.
pub mod idmap;
pub mod ids;
pub mod il;
pub mod lockfile;
pub mod manifest;
pub mod mir;
pub mod order;
pub mod paths;
pub mod reach;
pub mod scan;
pub mod text;
pub mod words;
