pub mod db;
pub mod package;
