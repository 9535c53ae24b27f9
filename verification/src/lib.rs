//! The plain-value core of the Audio8 text-to-speech runtime: prompt text,
//! token layout, sampling decisions, generation order, cache bookkeeping,
//! weight plans and tensor shapes, each with its contract.

pub mod chars;
pub mod digits;
pub mod text;
pub mod unassigned;

pub mod grid;
pub mod manifest;
pub mod charmap;
pub mod json;
pub mod normalizer;
pub mod post;
pub mod npy;
pub mod prompt;
pub mod request;
pub mod tokenizer;

pub mod cache;
pub mod generate;
pub mod runtime;
pub mod sampling;
pub mod session;

pub mod capture;
pub mod causality;
pub mod codec;
pub mod model;
pub mod timing;
pub mod weights;
