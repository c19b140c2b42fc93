//! Local KakaoTalk archive: chunking, search, transcripts, media and sending,
//! as verified logic over plain values.

pub mod adapters;
pub mod archive;
pub mod chunking;
pub mod commands;
pub mod config;
pub mod digest;
pub mod error;
pub mod json;
pub mod kakao;
pub mod search;
pub mod semantic;
pub mod text;
pub mod time;
pub mod transcript;
pub mod types;
