//! Dreame W10 bridge: the robot's MCU and LDS protocols, and the rules by which it is driven.
//!
//! The serial link and its messages: `crc`, `frame`, `bytes`, `status`, `triggers`, `message`,
//! `command`. The lidar: `lds`, `sweep`. Driving: `binary32`, `dock`, `shared`, `driver`,
//! `receiver`, and the minimal driver `control`, `mcud`. Around them: `msg`, `publish`,
//! `camera`, `jpeg`, `timesync`.
pub mod binary32;
pub mod bytes;
pub mod camera;
pub mod command;
pub mod control;
pub mod crc;
pub mod dock;
pub mod driver;
pub mod frame;
pub mod jpeg;
pub mod lds;
pub mod mcud;
pub mod message;
pub mod msg;
pub mod publish;
pub mod receiver;
pub mod shared;
pub mod status;
pub mod sweep;
pub mod timesync;
pub mod triggers;
