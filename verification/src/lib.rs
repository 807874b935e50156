pub mod cache;
pub mod command_effects;
pub mod config;
pub mod env;
pub mod evaluate;
pub mod execution;
pub mod files;
pub mod hook;
pub mod hook_context;
pub mod hook_options;
pub mod hook_run;
pub mod init;
pub mod install;
pub mod json;
pub mod mcp;
pub mod paths;
pub mod pkl;
pub mod plan;
pub mod pre_commit;
pub mod preflight;
pub mod project;
pub mod report;
pub mod runtime;
pub mod seqs;
pub mod settings;
pub mod step;
pub mod step_group;
pub mod table;
pub mod text;
pub mod version;
