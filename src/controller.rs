//! Decisions of the interactive viewport: which input events pan, zoom or
//! only move the drag latch. The caller applies the update to the viewport:
//! a pan moves the centre by `(6 / scale) * (dx / width, dy / height)`, a zoom
//! multiplies the scale by 1.1 (in) or 0.9 (out).
use vstd::prelude::*;

verus! {

/// An input event, reduced to what the viewport decisions read.
#[derive(Debug, Clone, Copy, PartialEq, Eq, Structural)]
pub enum InputEvent {
    /// The primary button went down.
    PrimaryPressed,
    /// The primary button went up.
    PrimaryReleased,
    /// The pointer moved.
    PointerMoved,
    /// The wheel turned; `non_negative` is whether its signed amount is `>= 0`.
    Scrolled { non_negative: bool },
    /// Anything else.
    Other,
}

/// What an event does to the viewport.
#[derive(Debug, Clone, Copy, PartialEq, Eq, Structural)]
pub enum ViewUpdate {
    /// Nothing changed.
    Unchanged,
    /// Only the drag latch changed.
    Latch,
    /// Move the centre by the pointer's displacement.
    Pan,
    /// Multiply the scale by 1.1.
    ZoomIn,
    /// Multiply the scale by 0.9.
    ZoomOut,
}

/// The update that `event` causes while the latch is `dragging`.
pub open spec fn update_for(dragging: bool, event: InputEvent) -> ViewUpdate {
    match event {
        InputEvent::PrimaryPressed => ViewUpdate::Latch,
        InputEvent::PrimaryReleased => ViewUpdate::Latch,
        InputEvent::PointerMoved => if dragging {
            ViewUpdate::Pan
        } else {
            ViewUpdate::Unchanged
        },
        InputEvent::Scrolled { non_negative } => if non_negative {
            ViewUpdate::ZoomIn
        } else {
            ViewUpdate::ZoomOut
        },
        InputEvent::Other => ViewUpdate::Unchanged,
    }
}

/// The latch after `event`.
pub open spec fn dragging_after(dragging: bool, event: InputEvent) -> bool {
    match event {
        InputEvent::PrimaryPressed => true,
        InputEvent::PrimaryReleased => false,
        _ => dragging,
    }
}

/// The drag latch of the interactive viewport: idle or dragging.
pub struct ViewportController {
    dragging: bool,
}

impl ViewportController {
    pub closed spec fn spec_dragging(&self) -> bool {
        self.dragging
    }

    /// An idle controller.
    pub fn new() -> (c: ViewportController)
        ensures
            !c.spec_dragging(),
    {
        ViewportController { dragging: false }
    }

    /// Whether the primary button is held.
    pub fn is_dragging(&self) -> (b: bool)
        ensures
            b == self.spec_dragging(),
    {
        self.dragging
    }

    /// Takes one event: moves the latch and says what the viewport is to do.
    pub fn handle(&mut self, event: InputEvent) -> (u: ViewUpdate)
        ensures
            u == update_for(old(self).spec_dragging(), event),
            final(self).spec_dragging() == dragging_after(old(self).spec_dragging(), event),
    {
        match event {
            InputEvent::PrimaryPressed => {
                self.dragging = true;
                ViewUpdate::Latch
            },
            InputEvent::PrimaryReleased => {
                self.dragging = false;
                ViewUpdate::Latch
            },
            InputEvent::PointerMoved => if self.dragging {
                ViewUpdate::Pan
            } else {
                ViewUpdate::Unchanged
            },
            InputEvent::Scrolled { non_negative } => if non_negative {
                ViewUpdate::ZoomIn
            } else {
                ViewUpdate::ZoomOut
            },
            InputEvent::Other => ViewUpdate::Unchanged,
        }
    }
}

/// Whether the update asks for a new frame.
pub fn view_changed(u: ViewUpdate) -> (b: bool)
    ensures
        b == (u != ViewUpdate::Unchanged),
{
    match u {
        ViewUpdate::Unchanged => false,
        _ => true,
    }
}

} // verus!
