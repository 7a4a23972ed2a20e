//! The flat description of one window on screen.

use vstd::prelude::*;

verus! {

/// The mathematical value of a [`DesktopWindow`].
pub struct WindowView {
    /// Identifier of the container that holds the window.
    pub id: int,
    /// Title, empty for a window without one.
    pub title: Seq<char>,
    /// Left and top edge, decoration included.
    pub pos: (int, int),
    /// Width and height, decoration included.
    pub size: (int, int),
}

/// One window on screen: what it is called and where it is.
#[derive(Debug, PartialEq, Eq)]
pub struct DesktopWindow {
    pub id: i64,
    pub title: String,
    pub pos: (i32, i32),
    pub size: (i32, i32),
}

impl View for DesktopWindow {
    type V = WindowView;

    open spec fn view(&self) -> WindowView {
        WindowView {
            id: self.id as int,
            title: self.title@,
            pos: (self.pos.0 as int, self.pos.1 as int),
            size: (self.size.0 as int, self.size.1 as int),
        }
    }
}

impl DeepView for DesktopWindow {
    type V = WindowView;

    open spec fn deep_view(&self) -> WindowView {
        self@
    }
}

} // verus!
