pub mod alias;
pub mod apply;
pub mod config;
pub mod container;
pub mod cp;
pub mod depgraph;
pub mod deployment;
pub mod describe;
pub mod ecs;
pub mod error;
pub mod exec;
pub mod export;
pub mod instant;
pub mod json;
pub mod jsonpath;
pub mod logs;
pub mod logsearch;
pub mod number;
pub mod order;
pub mod recreate;
pub mod restart;
pub mod roundtrip;
pub mod scheduler;
pub mod service;
pub mod shell;
pub mod strmap;
pub mod sync;
pub mod table;
pub mod task;
pub mod text;
pub mod textmap;
pub mod validate;
pub mod yaml;
