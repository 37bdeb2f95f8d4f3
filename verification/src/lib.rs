pub mod ids;
pub mod ordering;
pub mod common;
pub mod arg_types;
pub mod auth;
pub mod client;
pub mod text;
pub mod calendar;
pub mod repeat;
pub mod wire;
pub mod cloud_writer;
pub mod dirs;
pub mod store;
pub mod mark;
pub mod reorder;
pub mod delete;
pub mod schedule;
pub mod find;
pub mod tag_names;
pub mod tag_plans;
pub mod edit_plans;
pub mod logbook;
pub mod new_task;
pub mod edit_task;
pub mod project_list;
pub mod show;
pub mod purge;
