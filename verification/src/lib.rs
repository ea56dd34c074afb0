//! Verified core of a local voice assistant: intent detection, sentence
//! splitting of streamed text, the capture ring buffer, voice activity
//! bookkeeping, request routing and the small text rules around them.

pub mod text;
pub mod intent;
pub mod sentence_splitter;
pub mod ring_buffer;
pub mod vad;
pub mod tts;
pub mod llm;
pub mod pipeline;
pub mod playback;
pub mod rag;
pub mod models;
pub mod settings;
pub mod web;
pub mod download;
