//! Keyboard-driven terminal menus: the item and menu model, the interaction
//! state machine that key events drive, and the terminal operations that keep
//! the screen in step with the model.

pub mod decimal;
pub mod item;
pub mod menu;
pub mod render;
pub mod session;
pub mod laws;
mod text;

pub use decimal::{Decimal, float_printing_precision, number_range_indicator, parse_decimal, step_valid, value_valid};
pub use item::{ItemKind, TerminalMenuItem, back_button, button, inc_or_dec_selection_item, label, list, numeric, scroll, string, submenu};
pub use menu::{MenuError, RenderMode, TerminalMenuStruct, item_is_well_formed, menu, menu_is_well_formed};
pub use render::{TermOp, cursor_at_bottom_row, flush, move_cursor_to_row, term_mode};
pub use session::{Event, Key, Session};
