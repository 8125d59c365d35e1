//! Decision logic of a game-controller switchboard.
//!
//! Device discovery, identity checks, recovery bookkeeping and the update
//! dialogue are written here as functions on plain values.

pub mod acceptance;
pub mod capability;
pub mod company_laws;
pub mod controller;
pub mod descriptor_laws;
pub mod devnode;
pub mod discovery;
pub mod discovery_laws;
pub mod family;
pub mod fingerprint;
pub mod function;
pub mod function_laws;
pub mod group_laws;
pub mod helper;
pub mod helper_laws;
pub mod hid_descriptor;
pub mod identity;
pub mod input;
pub mod interfaces;
pub mod inventory;
pub mod invariants;
pub mod item_laws;
pub mod journal;
pub mod keeping_laws;
pub mod link_collections;
pub mod link_tree;
pub mod linux;
pub mod linux_helper;
pub mod linux_laws;
pub mod linux_switch;
pub mod locate;
pub mod names;
pub mod note_laws;
pub mod ordered;
pub mod paths;
pub mod platform;
pub mod reading_laws;
pub mod record_laws;
pub mod recovery;
pub mod refusal_laws;
pub mod removal;
pub mod request_laws;
pub mod restore_laws;
pub mod root_laws;
pub mod row_laws;
pub mod scan_laws;
pub mod service;
pub mod service_laws;
pub mod shell;
pub mod shell_laws;
pub mod sorting;
pub mod switch_laws;
pub mod text;
pub mod text_laws;
pub mod updater;
pub mod updater_laws;
pub mod wide_text;
pub mod windows;
pub mod windows_laws;
pub mod windows_switch;
pub mod word_laws;
pub mod xusb;
