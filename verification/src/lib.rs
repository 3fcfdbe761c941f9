//! `rshome` — verified core of the rshome device-configuration SDK.
pub mod text;
pub mod error;
pub mod json;
pub mod raw;
pub mod stages;
pub mod validated;
pub mod catalog;
pub mod sigrok;
pub mod codegen;
pub mod device_link;
pub mod export;
pub mod pipeline;
pub mod pipeline_run;
pub mod supervisor;
pub mod keyed;
pub mod link_manager;
pub mod session_fsm;
pub mod noise_frame;
pub mod board_yaml;
