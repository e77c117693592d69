use vstd::prelude::*;

verus! {

/// What one attempt to write to the transport reported.
#[derive(Clone, Copy, Debug, PartialEq, Eq, Structural)]
pub enum WriteEvent {
    /// This many bytes were taken.
    Written(usize),
    /// The transport's buffer is full for now.
    WouldBlock,
    /// Any other failure.
    Failed,
}

/// What the writer does next.
#[derive(Clone, Copy, Debug, PartialEq, Eq, Structural)]
pub enum WriteStep {
    /// Write again, from this position of the text.
    Continue(usize),
    /// Drop what is left unwritten.
    Stop,
}

/// Decides the next step of writing `text[pos..end]`: advance past what was
/// taken, retry a full buffer only in blocking mode, stop on failure.
pub fn next_write(pos: usize, end: usize, event: WriteEvent, block: bool) -> (r: WriteStep)
    requires
        pos < end,
        event matches WriteEvent::Written(n) ==> n <= end - pos,
    ensures
        match event {
            WriteEvent::Written(n) => r == WriteStep::Continue((pos + n) as usize),
            WriteEvent::WouldBlock => r == if block {
                WriteStep::Continue(pos)
            } else {
                WriteStep::Stop
            },
            WriteEvent::Failed => r == WriteStep::Stop,
        },
{
    match event {
        WriteEvent::Written(n) => WriteStep::Continue(pos + n),
        WriteEvent::WouldBlock => if block {
            WriteStep::Continue(pos)
        } else {
            WriteStep::Stop
        },
        WriteEvent::Failed => WriteStep::Stop,
    }
}

} // verus!
