//! Passive capture of Zenless Zone Zero sessions: transport reassembly, session
//! keys, message decoding, inventory extraction and export, with contracts that
//! say what each of them computes.
use vstd::prelude::*;

pub mod b64;
pub mod capture;
pub mod changelog;
pub mod console;
pub mod datamine;
pub mod dump;
pub mod ec2b;
pub mod ec2b_field;
pub mod ec2b_laws;
pub mod ec2b_tables;
pub mod endian;
pub mod export_laws;
pub mod frame;
pub mod gamedata;
pub mod inventory_laws;
pub mod json;
pub mod kcp;
pub mod live;
pub mod lookup;
pub mod model;
pub mod mt19937;
pub mod names;
pub mod nanoka;
pub mod netrand;
pub mod packet;
pub mod proto;
pub mod protonap;
pub mod refresh;
pub mod region;
pub mod report;
pub mod rsa;
pub mod scan;
pub mod scan_laws;
pub mod server;
pub mod session;
pub mod settings;
pub mod sha1;
pub mod snapshot;
pub mod sort;
pub mod structure;
pub mod tally;
pub mod text;
pub mod update;
pub mod version;
pub mod xor_fields;
pub mod xorpad;
pub mod zod;

verus! {

} // verus!
