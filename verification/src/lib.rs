//! Core logic of a small package manager: the package index, the database of
//! installed packages, dependency resolution, rollback points and the
//! helpers that turn package data into paths, URLs and messages.

pub mod api;
pub mod cli;
pub mod config;
pub mod database;
pub mod doctor;
pub mod error;
pub mod groq;
pub mod groq_key;
pub mod keyed;
pub mod laws;
pub mod package;
pub mod path;
pub mod registry;
pub mod rollback;
pub mod setup;
pub mod text;
pub mod verify;
