//! Verified core of the LAN compute-sharing gateway.
pub mod text;
pub mod sort;
pub mod kvmap;
pub mod strset;
pub mod error;
pub mod rules;
pub mod quota;
pub mod usage;
pub mod health;
pub mod clock;
pub mod member;
pub mod auth;
pub mod policy;
pub mod backend;
pub mod backend_store;
pub mod strategy;
pub mod usage_view;
pub mod identity;
pub mod share_client;
pub mod data_dir;
pub mod link_crypto;
pub mod discovery;
pub mod boot;
pub mod broadcast;
pub mod coord;
pub mod account;
pub mod registry;
pub mod i18n;
pub mod roles;
pub mod punch;
pub mod p2p;
pub mod tray;
pub mod events;
pub mod config;
pub mod cli;
pub mod json;
pub mod protocol;
pub mod request;
pub mod stream;
pub mod admin;
pub mod settings;
pub mod link;
pub mod gateway;
pub mod launch;
pub mod api;
pub mod vault;
