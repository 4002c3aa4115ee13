//! Deciding what `pixi init` and `pixi remove` do.
//!
//! [`init`] sets up a project step by step, [`remove`] removes dependencies from one. The other
//! modules say what a new project starts with ([`plan`]), out of an environment file
//! ([`env_file`], [`channel`], [`match_spec`], [`pypi`]) or without one, and what is written
//! ([`manifest`], [`update`]). [`anchor`], [`spec_parts`], [`version_text`], [`bracket_items`] and
//! [`marker`] find out whether a text can be handed to a parser. [`run`] states what holds of every
//! run of [`init`].

pub mod anchor;
pub mod bracket_items;
pub mod channel;
pub mod char_class;
pub mod env_file;
pub mod init;
pub mod manifest;
pub mod marker;
pub mod match_spec;
pub mod plan;
pub mod pypi;
pub mod remove;
pub mod run;
pub mod spec_parts;
pub mod text;
pub mod update;
pub mod version_text;
