//! A simulator of Tanenbaum's MIC-1 architecture: the datapath, control unit and
//! memory of the processor, an assembler for the MAC-1 macro language and a
//! compiler for the MAL micro language, and a virtual machine that ties them.
pub mod architecture;
pub mod messages;
pub mod parsers;
pub mod virtual_machine;
