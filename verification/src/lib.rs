//! The verified core of a desktop screen-memory application: the vector
//! sidecar format, the background scheduler and its resource policy, the
//! capture and indexing state machines, and the browser relay protocol.
#![allow(unused_imports)]

pub mod adaptive;
pub mod analysis;
pub mod anchors;
pub mod ann_format;
pub mod ann_protocol;
pub mod ann_sidecar;
pub mod ann_worker;
pub mod app_bound;
pub mod autostart;
pub mod background_activity;
pub mod background_policy;
pub mod background_resources;
pub mod background_scheduler;
pub mod blind_index_repair;
pub mod capture;
pub mod classification;
pub mod classification_runtime;
pub mod classifier;
pub mod classify;
pub mod clip_ann;
pub mod clip_contract;
pub mod clip_index;
pub mod clip_search;
pub mod codec;
pub mod derived;
pub mod digest;
pub mod ieee;
pub mod images;
pub mod json;
pub mod names;
pub mod nmh;
pub mod order;
pub mod paths;
pub mod prepared_pixels;
pub mod ranking;
pub mod resumable;
pub mod scheduler_state;
pub mod scoring;
pub mod text;
pub mod timestamps;
pub mod workers;

