//! The render worker's protocol. The worker waits for a command, renders
//! the batch it carries, reports it, and waits again; an exit command or a
//! closed channel stops it for good. The caller performs each action and
//! hands back what happened.

use vstd::prelude::*;

verus! {

/// Commands sent to the render worker; `B` is a batch of shapes.
pub enum RendererCommand<B> {
    RenderShapes(String, B),
    Exit,
}

#[derive(Clone, Copy, Debug, PartialEq, Eq, Structural)]
pub enum RendererState {
    /// Waiting for a command.
    Idle,
    /// Rendering a batch.
    Busy,
    /// Finished; no command is read any more.
    Stopped,
}

/// What happened since the last step.
pub enum RendererEvent<B> {
    /// A command arrived.
    Received(RendererCommand<B>),
    /// The batch being rendered is done.
    Rendered(String, B),
    /// The command channel was closed.
    Disconnected,
}

/// What the worker does next.
pub enum RendererAction<B> {
    /// Render this batch, then report `Rendered`.
    Render(String, B),
    /// Send the rendered batch back, then wait for a command.
    SendResult(String, B),
    /// Leave the loop: an exit was asked for.
    Stop,
    /// Leave the loop: nobody can send commands any more.
    Fail,
}

/// An event the worker can meet in `state`: commands and closure while
/// idle, the end of the batch while busy.
pub open spec fn expected<B>(state: RendererState, event: RendererEvent<B>) -> bool {
    match state {
        RendererState::Idle => !(event is Rendered),
        RendererState::Busy => event is Rendered,
        RendererState::Stopped => false,
    }
}

/// The next state and action of the worker.
pub fn renderer_step<B>(state: RendererState, event: RendererEvent<B>) -> (r: (RendererState, RendererAction<B>))
    requires
        expected(state, event),
    ensures
        match event {
            RendererEvent::Received(RendererCommand::RenderShapes(name, batch)) => r.0 == RendererState::Busy && r.1 == RendererAction::Render(name, batch),
            RendererEvent::Received(RendererCommand::Exit) => r.0 == RendererState::Stopped && r.1 == RendererAction::<B>::Stop,
            RendererEvent::Rendered(name, batch) => r.0 == RendererState::Idle && r.1 == RendererAction::SendResult(name, batch),
            RendererEvent::Disconnected => r.0 == RendererState::Stopped && r.1 == RendererAction::<B>::Fail,
        },
{
    match event {
        RendererEvent::Received(RendererCommand::RenderShapes(name, batch)) => (RendererState::Busy, RendererAction::Render(name, batch)),
        RendererEvent::Received(RendererCommand::Exit) => (RendererState::Stopped, RendererAction::Stop),
        RendererEvent::Rendered(name, batch) => (RendererState::Idle, RendererAction::SendResult(name, batch)),
        RendererEvent::Disconnected => (RendererState::Stopped, RendererAction::Fail),
    }
}

/// An idle worker accepts a render command; a stopped worker accepts no
/// event at all; a busy worker accepts only the end of its batch.
pub proof fn lemma_protocol<B>(name: String, batch: B)
    ensures
        expected(RendererState::Idle, RendererEvent::Received(RendererCommand::RenderShapes(name, batch))),
        forall|e: RendererEvent<B>| !expected(RendererState::Stopped, e),
        forall|e: RendererEvent<B>| expected(RendererState::Busy, e) ==> e is Rendered,
{
}

} // verus!
