pub mod order;
pub mod blog_storage;
pub mod watch;
pub mod markdown;
pub mod file_server;
pub mod handlebars_support;
