pub mod admission;
pub mod config;
pub mod health;
pub mod labels;
pub mod laws;
pub mod patch;
pub mod pod;
pub mod pointer;
pub mod service;
pub mod test_utils;
pub mod tls;
pub mod toleration;
