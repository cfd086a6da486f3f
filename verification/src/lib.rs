//! Verified core of the Lyrecs lyric service: lyric models, the KRC and LRC
//! parsers, metadata handling and the decisions around fetching lyrics.

pub mod text;
pub mod model;
pub mod kugou;
pub mod json;
pub mod song;
pub mod parse_lyric;
pub mod netease;
pub mod qq;
pub mod song_struct;
pub mod lyric_file;
pub mod search;
pub mod lyric_line;
pub mod laws;
pub mod connect;
pub mod decimal;
pub mod player;
