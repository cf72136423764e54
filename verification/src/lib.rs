//! Verified core of the `fledge standup` plugin: the rules that turn recent git
//! activity into a grouped commit log and a standup prompt.

pub mod dates;
pub mod error;
pub mod gitcmd;
pub mod order;
pub mod paths;
pub mod plan;
pub mod prompt;
pub mod scope;
pub mod since;
pub mod text;
