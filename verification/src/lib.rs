//! Virtual Spatial Mic.
pub mod agenda;
pub mod bits;
pub mod capture;
pub mod clock;
pub mod codec;
pub mod device;
pub mod dns;
pub mod dsp;
pub mod engine;
pub mod json;
pub mod math;
pub mod meter;
pub mod monitor;
pub mod obs;
pub mod osc;
pub mod paths;
pub mod pipeline;
pub mod playback;
pub mod pose;
pub mod processor;
pub mod query;
pub mod queue;
pub mod reprocess;
pub mod ring;
pub mod session;
pub mod simple;
pub mod studio;
pub mod text;
pub mod wave;
