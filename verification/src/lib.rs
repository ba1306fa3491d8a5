//! Copying text out of a rendered chat message.
//!
//! A message is drawn into a grid of terminal cells. When part of it is selected, the text that
//! goes to the clipboard is the markdown that the selected cells came from, not the cells
//! themselves. The modules below find, for each drawn row, the stretch of markdown it shows, and
//! put the selected stretches together again.
pub mod document;
pub mod extract;
pub mod gap;
pub mod laws;
pub mod laws_conversation;
pub mod laws_copying;
pub mod laws_markdown;
pub mod laws_reading;
pub mod lines;
pub mod matching;
pub mod pattern;
pub mod scrape;
pub mod screen;
pub mod selection;
pub mod source_map;
pub mod syntax;
