//! Pianorium: turns a MIDI file into falling-note geometry and video frames.
pub mod buffers;
pub mod cli;
pub mod encoder;
pub mod export;
pub mod geometry;
pub mod layout;
pub mod midi;
pub mod midi_laws;
pub mod notes;
pub mod smf_chunks;
pub mod text;
pub mod text_laws;
pub mod ui;
pub mod video_builder;
