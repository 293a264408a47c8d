//! The decision logic of the Tessera bridge: image identifiers, culling
//! sessions and the people in a queue, selections, saved-search rules and
//! faceted search, develop history and settings merge patches, viewports,
//! interactive drag levels, render requests and histograms, agent runs,
//! export settings, presets and batch naming, document records, blend
//! modes, smart filter masks and bakes, and the small codecs the document
//! tools use.
pub mod text;
pub mod base64;
pub mod ids;
pub mod selection;
pub mod lexical;
pub mod rules;
pub mod search;
pub mod order;
pub mod collections;
pub mod history;
pub mod viewport;
pub mod changes;
pub mod agent;
pub mod assist;
pub mod people;
pub mod export;
pub mod presets;
pub mod document;
pub mod histogram;
pub mod blend;
pub mod masks;
pub mod drag;
pub mod merge;
pub mod bakes;
