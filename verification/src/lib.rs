//! Playback-queue core of a per-guild music bot.
//!
//! Each guild (chat server) has an ordered queue of requested tracks backed by
//! a relational store; actions against a guild's queue are applied one at a
//! time, in submission order, by a per-guild dispatcher. This crate holds the
//! verified logic: the relational store model, the queue projection, and the
//! play/skip/remove state machine. The asynchronous shell (gateway, audio
//! transport, persistence connection) lives outside and only hands plain
//! values in and out.

pub mod track;
pub mod database;
pub mod mem_store;
pub mod guild_store;
pub mod guild_action;
