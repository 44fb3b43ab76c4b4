//! Renderers which come with the library.

mod ascii_renderer;
pub use ascii_renderer::AsciiRenderer;
