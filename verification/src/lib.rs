//! The logic of a Windows taskbar strip that shows the battery of Bluetooth
//! and 2.4 GHz peripherals.

pub mod grouping;
pub mod text;
pub mod wide;
pub mod order;
pub mod model;
pub mod reports;
pub mod receiver;
pub mod hid;
pub mod links;
pub mod hidpp;
pub mod settings;
pub mod textmap;
pub mod btreader;
pub mod theme;
pub mod icon;
pub mod layout;
pub mod draw;
pub mod menu;
pub mod app;
pub mod commands;
pub mod window;
pub mod messages;
pub mod queries;
pub mod probe;
pub mod hidwatch;
pub mod experiments;
pub mod outputs;
pub mod cli;
