//! Minimal local repository-initialization library.
//!
//! The library decides whether a directory hosts a repository marker,
//! finds the nearest enclosing repository root, and computes the
//! creation of a fresh repository structure.  All of its logic runs
//! over an explicit filesystem model ([`fsmodel::FsModel`]), so that
//! every decision is verified; a thin unverified shell mirrors the
//! model's contents onto a real disk.

pub mod fsmodel;
pub mod path;
pub mod repository;
