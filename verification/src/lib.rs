pub mod text;
pub mod json;
pub mod routing;
pub mod routing_laws;
pub mod vless_url;
pub mod config;
pub mod rule_pack;
pub mod processes;
pub mod singbox;
pub mod platform;
pub mod icons;
pub mod config_laws;
