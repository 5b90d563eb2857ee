//! Blu-ray BDMV structures: parsers for the navigation files, a small machine
//! for HDMV programs, menu resolution, title analysis and AACS decryption.
pub mod aacs;
pub mod analysis;
pub mod clpi;
pub mod crypto;
pub mod cursor;
pub mod disc;
pub mod ig;
pub mod index;
pub mod inventory;
pub mod keydb;
pub mod lossy;
pub mod mobj;
pub mod mpls;
pub mod nav;
pub mod reader;
pub mod report;
pub mod seqs;
pub mod text;
