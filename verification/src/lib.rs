//! Electronics Agent Kit: the verified engineering kernel.

pub mod text;
pub mod units;
pub mod domain;
pub mod ports;
pub mod lookup;
pub mod state;
pub mod clock;
pub mod protocol;
pub mod runtime;
pub mod engines;
pub mod connectivity;
pub mod rules;
pub mod fsm;
pub mod orchestrator;
pub mod compiler;
pub mod lowering;
pub mod gates;
pub mod checks;
pub mod effects;
pub mod schematic;
pub mod procurement;
pub mod agents;
pub mod phases;
pub mod layout;
pub mod reasoning;
pub mod cli;
