pub mod backend;
pub mod component;
pub mod cursor;
pub mod error;
pub mod flex;
pub mod frame;
pub mod geometry;
pub mod layout;
pub mod paint;
pub mod render;
pub mod screen;
pub mod staged;
pub mod style;
pub mod terminal;
pub mod text;

pub use backend::{BackendMemory, Cell, RowOrColumnNumber};
pub use component::{Component, ComponentInterface, DynComponent, UserComponent, FLEX_GROW_ONE};
pub use cursor::{Cursor, CursorRelativeBuilderEmpty, CursorRelativeBuilderHasX, CursorRelativeBuilderHasY, Offset};
pub use error::Error;
pub use flex::{FlexColumn, FlexColumnBuilder};
pub use frame::{plan_redraw, DrawCommand, Renderer};
pub use geometry::{Grid, Position, Size};
pub use layout::{Absolute, Overflow, Relative};
pub use render::{render_requested, Interrupt, RenderingContext, Violation};
pub use staged::{Staged, StagedRow, StyledChunk};
pub use style::{Color, Style, StyleBuilder};
pub use terminal::size;
pub use text::{Text, TextBuilder, TextChild, TextChildren};
