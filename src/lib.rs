//! Process discovery and open-descriptor counting over the values read from
//! a process-information filesystem (one directory per live process, named by
//! its identifier, holding a name record and a descriptor directory).
//!
//! The filesystem itself is read by the caller; this library decides, from
//! what was read, which entries are processes, which of them carry the
//! requested name, and what a descriptor listing or its failure means.

pub mod descriptors;
pub mod failure;
pub mod pid;
pub mod resolve;
