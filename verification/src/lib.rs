//! A web crawler's verified core: URL normalisation and grouping, robots.txt
//! rules, per-domain priority queues with a weighted lottery, link
//! extraction and filtering, and the decisions of the crawling agents.

pub mod text;
pub mod web_url;
pub mod common;
pub mod queue_sort;
pub mod domain_crawler;
pub mod queue_laws;
pub mod robots;
pub mod priority;
pub mod pattern;
pub mod fetcher;
pub mod domain_agent;
pub mod orchestrator;
pub mod search;
pub mod database;
