//! Host-side core of a video vault companion: the channel list store, caption
//! frontmatter parsing, the worker output grammar, the job supervisor's
//! decisions, and the byte-range media endpoint's request handling.
pub mod text;
pub mod urlenc;
pub mod channels;
pub mod media;
pub mod grammar;
pub mod supervisor;
pub mod metadata;
pub mod scanner;
pub mod paths;
pub mod jobs;
pub mod rag;
pub mod prompts;
