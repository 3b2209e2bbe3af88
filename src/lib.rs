pub mod base32;
pub mod config;
pub mod db;
pub mod presence_verification;
pub mod term;
pub mod text;
pub mod totp;
pub mod totp_store;
pub mod tpm_config;
