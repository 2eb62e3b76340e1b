//! Which frames reach the renderer.

use vstd::prelude::*;

verus! {

/// What becomes of a frame.
#[derive(Clone, Copy, Debug, PartialEq, Eq, Structural)]
pub enum FrameStep {
    Ignore,
    /// The terminal is asked for a full frame instead.
    RequestFull,
    Apply,
}

/// Keeps partial frames from the renderer while it has no full one to draw them
/// over.
#[derive(Clone, Copy, Debug, PartialEq, Eq, Structural)]
pub struct FrameGate {
    pub awaiting_full_frame: bool,
}

/// What becomes of a frame.
pub open spec fn step_for(
    gate: FrameGate,
    is_active: bool,
    metadata_only: bool,
    full_redraw: bool,
    has_renderer: bool,
) -> FrameStep {
    if !is_active || metadata_only || !has_renderer {
        FrameStep::Ignore
    } else if gate.awaiting_full_frame && !full_redraw {
        FrameStep::RequestFull
    } else {
        FrameStep::Apply
    }
}

/// What is awaited once a frame came; a frame for which there is no renderer is lost.
pub open spec fn after_arrival(
    gate: FrameGate,
    is_active: bool,
    metadata_only: bool,
    has_renderer: bool,
) -> FrameGate {
    FrameGate {
        awaiting_full_frame: gate.awaiting_full_frame || (is_active && !metadata_only
            && !has_renderer),
    }
}

/// What is awaited once the renderer got a frame.
pub open spec fn after_drawing(gate: FrameGate, accepted: bool, full_redraw: bool) -> FrameGate {
    FrameGate {
        awaiting_full_frame: !accepted || (gate.awaiting_full_frame && !full_redraw),
    }
}

impl FrameGate {
    /// At first there is nothing to draw over.
    pub fn new() -> (gate: FrameGate)
        ensures
            gate == (FrameGate { awaiting_full_frame: true }),
    {
        FrameGate { awaiting_full_frame: true }
    }

    /// From now on a full frame is needed: another terminal is shown, or the
    /// renderer is new.
    pub fn wait_for_full_frame(&mut self)
        ensures
            *final(self) == (FrameGate { awaiting_full_frame: true }),
    {
        self.awaiting_full_frame = true;
    }

    /// Decides what becomes of a frame.
    pub fn arrive(
        &mut self,
        is_active: bool,
        metadata_only: bool,
        full_redraw: bool,
        has_renderer: bool,
    ) -> (step: FrameStep)
        ensures
            step == step_for(*old(self), is_active, metadata_only, full_redraw, has_renderer),
            *final(self) == after_arrival(*old(self), is_active, metadata_only, has_renderer),
    {
        if !is_active || metadata_only {
            return FrameStep::Ignore;
        }
        if !has_renderer {
            self.awaiting_full_frame = true;
            return FrameStep::Ignore;
        }
        if self.awaiting_full_frame && !full_redraw {
            return FrameStep::RequestFull;
        }
        FrameStep::Apply
    }

    /// Takes in whether the renderer accepted a frame; tells whether a full
    /// frame has to be asked for.
    pub fn drawn(&mut self, accepted: bool, full_redraw: bool) -> (request_full: bool)
        ensures
            request_full == !accepted,
            *final(self) == after_drawing(*old(self), accepted, full_redraw),
    {
        if !accepted {
            self.awaiting_full_frame = true;
            return true;
        }
        if full_redraw {
            self.awaiting_full_frame = false;
        }
        false
    }
}

/// While a full frame is awaited, no partial frame reaches the renderer, and
/// only an accepted full frame ends the wait.
pub proof fn partial_frames_wait_for_a_full_one(
    gate: FrameGate,
    is_active: bool,
    metadata_only: bool,
    full_redraw: bool,
    has_renderer: bool,
    accepted: bool,
)
    requires
        gate.awaiting_full_frame,
    ensures
        step_for(gate, is_active, metadata_only, full_redraw, has_renderer) is Apply
            ==> full_redraw,
        after_arrival(gate, is_active, metadata_only, has_renderer).awaiting_full_frame,
        !after_drawing(gate, accepted, full_redraw).awaiting_full_frame ==> accepted
            && full_redraw,
{
}

/// A frame is drawn if and only if it is a view of the terminal that is shown, there
/// is a renderer, and a full frame is not awaited or this is one. A view that is
/// not drawn for want of a full one has one asked for. A frame that is lost, and
/// one that the renderer refuses, has a full one awaited; nothing else does.
pub proof fn views_are_drawn_when_they_can_be(
    gate: FrameGate,
    is_active: bool,
    metadata_only: bool,
    full_redraw: bool,
    has_renderer: bool,
    accepted: bool,
)
    ensures
        ({
            let step = step_for(gate, is_active, metadata_only, full_redraw, has_renderer);
            let view = is_active && !metadata_only;
            &&& step is Apply <==> view && has_renderer && (full_redraw
                || !gate.awaiting_full_frame)
            &&& step is RequestFull <==> view && has_renderer && !full_redraw
                && gate.awaiting_full_frame
            &&& step is Ignore <==> !view || !has_renderer
        }),
        after_arrival(gate, is_active, metadata_only, has_renderer).awaiting_full_frame
            <==> gate.awaiting_full_frame || (is_active && !metadata_only && !has_renderer),
        after_drawing(gate, accepted, full_redraw).awaiting_full_frame <==> !accepted || (
        gate.awaiting_full_frame && !full_redraw),
{
}

} // verus!
