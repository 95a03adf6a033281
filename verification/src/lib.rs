//! Core of a Unity package manager: a repository-index model with lossless
//! round-tripping, semantic-version selection with yanked-release fallback,
//! and cached, integrity-checked package fetching with zip-slip-safe
//! extraction planning.
#![allow(unused_imports)]

pub mod catalog;
pub mod commands;
pub mod fetcher;
pub mod hash;
pub mod hex;
pub mod json;
pub mod project;
pub mod remote;
pub mod repository;
pub mod version;

