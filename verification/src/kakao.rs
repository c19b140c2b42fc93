//! What is specific to the KakaoTalk client: its media cache, its attachment
//! metadata, its binary property lists and the window it is driven through.

pub mod ax_send;
pub mod bplist;
pub mod filename;
pub mod media;
pub mod media_crypto;
pub mod media_reader;
pub mod media_resolver;
pub mod send_curtain;
