pub mod date;
pub mod config;
pub mod daily;
pub mod daily_laws;
pub mod db_plan;
pub mod export;
pub mod json;
pub mod sections;
pub mod similarity;
pub mod sync;
pub mod sync_laws;
pub mod task;
pub mod text;
pub mod todo_file;
