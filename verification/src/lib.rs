//! Heterogeneous-disk pooling: disks of mixed sizes are cut into slices of
//! common sizes, slices of one ordinal are grouped into conventional RAID
//! sub-arrays, and the sub-arrays are joined under one logical volume.
//!
//! The library plans; it touches no disk and runs no tool. Every operation
//! takes what was read from the disks and the manifest as plain values and
//! gives back the calls to make and the manifest entry to write.
//!
//! - `planner`, `planner_laws`: from capacities to slices, and what holds of
//!   every plan.
//! - `groups`, `group_laws`, `mapper`: from partitions to groups and
//!   sub-arrays, and what holds of every grouping.
//! - `controller`, `extend`, `membership`, `pool_laws`: creating a pool,
//!   adding disks, failing and removing members, and what every operation
//!   keeps true of the manifest.
//! - `mdadm`, `detail`, `lvm2`, `command`: the calls of the RAID engine and
//!   of the volume manager, and the reading of the engine's report.
//! - `partitioner`: paths, sizes and labels of partitions.
//! - `manifest`, `types`, `error`: the records kept, and the failures told.
//! - `names`, `name_laws`: fresh names of devices.
//! - `daemon`, `utils`: the frames of the socket, the privilege check.
//! - `text`, `decimal`, `pattern`: texts, numbers and regular expressions.

pub mod command;
pub mod controller;
pub mod daemon;
pub mod decimal;
pub mod detail;
pub mod error;
pub mod extend;
pub mod group_laws;
pub mod groups;
pub mod lvm2;
pub mod manifest;
pub mod mapper;
pub mod mdadm;
pub mod membership;
pub mod name_laws;
pub mod names;
pub mod partitioner;
pub mod pattern;
pub mod planner;
pub mod planner_laws;
pub mod pool_laws;
pub mod text;
pub mod types;
pub mod utils;
