//! Verified core of the tixcraft API-mode watcher: HTML scraping, keyword
//! matching, proxy rotation, configuration resolution and the decisions of the
//! watch / verify / ticket / order flows.

pub mod text;
pub mod keywords;
pub mod html;
pub mod fields;
pub mod parser;
pub mod config;
pub mod proxy;
pub mod tixcraft;
pub mod cookies;
pub mod http;
pub mod yaml;
pub mod bot;
pub mod captcha;
