pub mod api;
pub mod backup;
pub mod cli;
pub mod config;
pub mod control;
pub mod cron_expr;
pub mod db;
pub mod differ;
pub mod error;
pub mod fetcher;
pub mod images;
pub mod models;
pub mod net_guard;
pub mod notifier;
pub mod pipeline;
pub mod scheduler;
pub mod text;
pub mod tui;
pub mod web;
