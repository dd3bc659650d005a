//! The logic of a shoe-cover vending machine.

pub mod bounded;
pub mod buttons;
pub mod change;
pub mod coin_acceptor;
pub mod config;
pub mod cyrillic;
pub mod error;
pub mod event;
pub mod hopper;
pub mod ibutton;
pub mod lcd;
pub mod menu;
pub mod nvram;
pub mod report;
pub mod shared;
pub mod sim;
pub mod state;
pub mod text;
pub mod ui;
pub mod vending;
