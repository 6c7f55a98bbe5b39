//! Crabsoup: the framing, protocol and scheduling logic of a small radio
//! streaming engine.

pub mod bytes;
mod seqs;
pub mod text;

pub mod ogg_mux;
pub mod mpegts;
pub mod flv;
pub mod ieee;
pub mod http;
pub mod order;
pub mod request;
pub mod json;
pub mod mixer;
pub mod control;
pub mod config;
pub mod auth;
pub mod live;
pub mod harbor;
pub mod icecast_client;
pub mod link;
pub mod icecast;
pub mod hls;
pub mod crossfade;
pub mod priority;
pub mod tap;
pub mod picture;
pub mod rtmp;
pub mod mp4;
pub mod encoder;
pub mod dsp;
pub mod report;
