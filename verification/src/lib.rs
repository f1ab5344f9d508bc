//! Tracks which removable devices are attached to a host.
//!
//! The tracker polls an inventory of attached devices, turns the difference
//! between two snapshots into connect and disconnect events, merges them
//! into a durable ledger of every device ever seen, looks storage devices up
//! for their drive and volume details once they have had time to mount, and
//! folds renames and forgets that observers request back into its ledger.
//!
//! Nothing here touches the outside world. The inventory, the enrichment
//! source, the clocks and the disk belong to the caller; [`tracker`] decides
//! what is to be done next and what each answer changes.
//!
//! - [`device_map`]: the insertion-ordered map that snapshots and ledger use
//! - [`types`], [`device`]: the records and what is derived from one record
//! - [`inventory`]: snapshots and the events between two of them
//! - [`ledger`]: how observations change the ledger
//! - [`scheduler`]: the delay queue of enrichment lookups
//! - [`storage`]: which drive belongs to a device, and what is kept of it
//! - [`monitor`], [`tracker`]: one tick, and the loop around the ticks
//! - [`state`]: the shared state and the write API of observers
//! - [`listing`], [`known_list`], [`sorting`]: the lists shown to observers
//! - [`prefs`], [`choices`], [`update`], [`size`]: preferences, stored
//!   choices, the update check, sizes as text
//! - [`text`]: the operations on text that all of these rest on

pub mod choices;
pub mod device;
pub mod device_map;
pub mod inventory;
pub mod known_list;
pub mod ledger;
pub mod listing;
pub mod monitor;
pub mod prefs;
pub mod scheduler;
pub mod size;
pub mod sorting;
pub mod state;
pub mod storage;
pub mod text;
pub mod tracker;
pub mod types;
pub mod update;
