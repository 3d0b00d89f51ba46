//! Audio-to-subtitle building blocks: canonical PCM preparation and the
//! framing of the log-mel feature extractor, the timestamp-aware segmenter of
//! greedy decoding, subtitle time codes, SRT rendering and import, the ffmpeg
//! command lines of the media cutter, and the text side of a chat-completion
//! client.

pub mod ai;
pub mod audio;
pub mod cutter;
pub mod decoder;
pub mod srt_import;
pub mod subtitle;
pub mod text;
pub mod time_utils;
