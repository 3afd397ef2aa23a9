//! The verified core of a fast TCP/UDP port scanner: target resolution,
//! port ordering, endpoint enumeration, file-descriptor budgeting, and the
//! bookkeeping of the concurrent scan engine.
pub mod address;
pub mod benchmark;
pub mod input;
pub mod modular;
pub mod port_strategy;
pub mod range_iterator;
pub mod scanner;
pub mod scripts;
pub mod socket_iterator;
pub mod udp_packets;
pub mod ulimit;

