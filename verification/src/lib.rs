//! Verified core of a mod-script manager: version comparison, release-tag
//! handling, configuration rules and the decisions around running scripts.

pub mod archive;
pub mod config;
pub mod games;
pub mod launch;
pub mod numbers;
pub mod order;
pub mod paths;
pub mod release;
pub mod scripts;
pub mod search;
pub mod text;
pub mod unlock;
pub mod version;
