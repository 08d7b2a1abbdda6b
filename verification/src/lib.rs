//! The rules of a small, concurrent, polite web crawler: which pages it
//! fetches, when it fetches them, what it takes from them, and when it is
//! done. Requests, files and the threads that do the work are left to the
//! program around it.
pub mod text;
pub mod number;
pub mod args;
pub mod args_laws;
pub mod web_url;
pub mod pairs;
pub mod normalize;
pub mod pattern;
pub mod directive;
pub mod robots;
pub mod robots_cache;
pub mod scope;
pub mod throttle;
pub mod page;
pub mod fetch;
pub mod crawl;
pub mod crawl_laws;
