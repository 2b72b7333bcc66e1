pub mod text;
pub mod frontmatter;
pub mod markdown;
pub mod date;
pub mod models;
pub mod index;
pub mod site;
pub mod posting;
pub mod views;
pub mod services;
pub mod watch;
pub mod json;
