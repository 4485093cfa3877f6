pub mod canvas;
pub mod cli;
pub mod config;
pub mod jobs;
pub mod keys;
pub mod mounts;
pub mod output;
pub mod paths;
pub mod purge;
pub mod restore;
pub mod run;
pub mod screens;
pub mod session;
pub mod snapshots;
pub mod ssh;
pub mod text;
pub mod timestamp;
