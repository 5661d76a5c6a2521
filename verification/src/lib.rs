//! The logic of umpv, a single-instance mpv launcher for Windows: it reads
//! its command line, builds the command it writes to a running mpv's named
//! pipe, decides what to do at each step of handing a file to mpv or
//! starting it, and decides how file associations are pointed at umpv and
//! back at mpv. The Windows calls themselves are made by the program around
//! this library.
pub mod cli;
pub mod mpv;
pub mod pipe;
pub mod registry;
pub mod text;
