use vstd::prelude::*;

pub mod text;
pub mod alias;
pub mod groups;
pub mod inbox;
pub mod clonehome;
pub mod autoheal;
pub mod arm;
pub mod doctor;
pub mod crosshub;
pub mod append;
pub mod api;
pub mod envelope;
pub mod ghapp;
pub mod keygen_release;
pub mod config;
pub mod gitcmd;
pub mod join;
pub mod sorted;
pub mod heal;
pub mod identity;
pub mod fleet;
pub mod init;
pub mod config_hub;
pub mod topics;
pub mod attach;

verus! {

} // verus!
