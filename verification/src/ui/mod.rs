//! What stands on the screen: styled lines, where they go, and where the cursor is.

pub mod area;
pub mod drawing;
pub mod laws;
pub mod menu;
pub mod pane;
pub mod prompt;
pub mod row;
pub mod screen;
pub mod span;
pub mod status;
pub mod wrapped;

pub use self::area::Area;
pub use self::span::Span;
