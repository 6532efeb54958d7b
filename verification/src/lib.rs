//! A document knowledge base: page splitting and indexing of uploaded
//! documents, the retrieval agent's tools and answers, admin authentication,
//! configuration and error answers, with their contracts proved by Verus.
use vstd::prelude::*;

pub mod text;
pub mod numbers;
pub mod ids;
pub mod indexer;
pub mod error;
pub mod auth;
pub mod config;
pub mod documents;
pub mod storage;
pub mod rag;
