//! Enumerates the windows that the i3 window manager shows and words the
//! command that gives one of them the focus.

pub mod decimal;
pub mod tree;
pub mod walk;
pub mod window;
pub mod wm_i3;
