//! Puts a node's passthrough devices into the state that a Kata GPU workload
//! expects: confidential computing mode set, bound to VFIO, and configured to
//! come back that way after a reboot.
//!
//! The crate decides and does not act: [`run::Run`] says what is to be done
//! next to a node, [`board::ModeRun`] what is to be done to the knobs of its
//! devices, and both take what came of it. The decisions themselves stand in
//! [`host`], [`device`], [`idle`], [`provision`], [`nvidia`] and [`modules`];
//! [`history`] holds what is true of every run from its beginning on,
//! [`ending`] that it ends, [`outcome`] and [`handback`] what a finished one has
//! done and let go of, and [`again`] that a second run changes nothing.
//! [`status`] reports on a node, and [`profiles`] indexes the profiles that it
//! can be deployed with.
use vstd::prelude::*;

pub mod again;
pub mod board;
pub mod device;
pub mod ending;
pub mod filter;
pub mod handback;
pub mod history;
pub mod host;
pub mod idle;
pub mod keyed;
pub mod mode;
pub mod modules;
pub mod numeral;
pub mod nvidia;
pub mod order;
pub mod outcome;
pub mod profiles;
pub mod provision;
pub mod refusal;
pub mod run;
pub mod sorting;
pub mod status;
pub mod text;

verus! {

} // verus!
