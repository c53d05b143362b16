//! Core of an agent session control plane: a typed event-frame model with a
//! stable JSON projection, a hook engine that may veto frames, a session state
//! machine, an append-only event-log model with replay validation and snapshot
//! verification, a streaming decoder for the provider wire format, a frame
//! mapper, a schema catalogue for request payloads, and the compute cores of
//! the workspace tool sandbox.

pub mod frames;
pub mod catalogue;
pub mod codec;
pub mod commands;
pub mod decoder;
pub mod hooks;
pub mod json;
pub mod log;
pub mod mapper;
pub mod request;
pub mod runner;
pub mod session;
pub mod sys;
pub mod text;
pub mod tools;
pub mod transformers;
