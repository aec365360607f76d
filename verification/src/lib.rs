//! Document, spreadsheet, slide and model-gateway logic of the agent.
pub mod text;
pub mod entities;
pub mod archive;
pub mod ooxml;
pub mod pptx;
pub mod json;
pub mod slides;
pub mod deck_stream;
pub mod slides_tool;
pub mod glm;
pub mod models;
pub mod chat;
pub mod effort;
pub mod request;
pub mod events;
pub mod text_map;
pub mod provider;
pub mod image;
pub mod document;
pub mod cell_address;
pub mod spreadsheet_read;
pub mod spreadsheet_edit;
