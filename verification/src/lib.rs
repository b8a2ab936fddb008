//! SeeDraft: the rules of a local voice-to-text notebook.

pub mod audio;
pub mod caption;
pub mod capture;
pub mod catalog;
pub mod chat;
pub mod context;
pub mod desktop;
pub mod dictation;
pub mod draft;
pub mod graph;
pub mod ids;
pub mod live;
pub mod loading;
pub mod locales;
pub mod models;
pub mod normalize;
pub mod pipeline;
pub mod process;
pub mod promises;
pub mod records;
pub mod registry;
pub mod reply;
pub mod requests;
pub mod requirements;
pub mod schema;
pub mod script;
pub mod server;
pub mod session;
pub mod settings;
pub mod shortcuts;
pub mod storage;
pub mod tables;
pub mod text;
pub mod transcription;
pub mod trial;
pub mod upkeep;
