//! Glyph rendering, glyph-mask caching and span tables for a small text editor.
pub mod compositor;
pub mod text_renderer;
pub mod glyph_cache;
pub mod span_table;
pub mod piece_table;
