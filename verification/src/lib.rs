//! The verified logic of the Nitrox build-and-gate tool and of the two userspace
//! programs it is developed beside: what a line of guest output says, what a source
//! scan reports, what an archive holds, and what a request is answered.

pub mod abi;
pub mod aims;
pub mod archive;
pub mod auth;
pub mod bench;
pub mod child;
pub mod declarations;
pub mod deferrals;
pub mod display;
pub mod docs;
pub mod dump;
pub mod image;
pub mod input;
pub mod interactive;
pub mod irq;
pub mod lints;
pub mod login;
pub mod machine;
pub mod number;
pub mod paths;
pub mod picture;
pub mod placement;
pub mod pointer;
pub mod ppm;
pub mod qmp;
pub mod references;
pub mod script;
pub mod sessions;
pub mod shots;
pub mod store;
pub mod suites;
pub mod symbols;
pub mod table;
pub mod tables;
pub mod terminal;
pub mod text;
pub mod transcript;
pub mod turns;
pub mod watch;
pub mod wire;
