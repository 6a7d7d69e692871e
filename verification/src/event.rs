//! What the engine reports for each patch descriptor it goes through.

use vstd::prelude::*;

verus! {

/// The two ways of changing the buffer.
#[derive(Clone, Copy, Debug, PartialEq, Eq, Structural)]
pub enum Action {
    /// Bytes were overwritten in place.
    Replaced,
    /// Bytes were spliced in, moving the rest up.
    Inserted,
}

/// Why a descriptor was passed over without touching the buffer.
#[derive(Clone, Copy, Debug, PartialEq, Eq, Structural)]
pub enum SkipReason {
    /// No line of the symbol dump mentions the name.
    SymbolNotFound,
    /// The name is mentioned, but the line before it carries no usable
    /// offset annotation.
    SymbolUnannotated,
    /// The descriptor names a symbol and the job has no symbol dump.
    DumpRequired,
    /// The wildcard pattern matches nowhere in the buffer.
    PatternNotFound,
    /// The descriptor selects no target at all.
    NoSelector,
}

/// Why a descriptor failed.
#[derive(Clone, Copy, Debug, PartialEq, Eq, Structural)]
pub enum PatchError {
    /// The literal offset is no hexadecimal number that fits the machine.
    OffsetSyntax,
    /// `position` asks for more bytes than the wildcard pattern matched.
    PositionExceedsMatch,
    /// The payload is no hex byte string.
    HexSyntax,
    /// The replacement would run past the end of the buffer.
    ReplaceOutOfRange { offset: usize },
    /// The insertion point lies past the end of the buffer.
    InsertOutOfRange { offset: usize },
    /// The descriptor carries neither a replacement nor an insertion.
    MissingPayload,
}

/// One entry of the engine's report.
#[derive(Debug, PartialEq, Eq)]
pub enum PatchEvent {
    /// The buffer was changed: `bytes` were written or inserted at `offset`.
    Applied { offset: usize, action: Action, bytes: Vec<u8> },
    /// The target could not be resolved; the buffer is as before.
    Skipped { reason: SkipReason, target: String },
    /// The descriptor failed; the buffer is as before.
    Error { target: String, detail: PatchError },
}

/// Mathematical content of a [`PatchEvent`].
pub ghost enum PatchEventView {
    Applied { offset: usize, action: Action, bytes: Seq<u8> },
    Skipped { reason: SkipReason, target: Seq<char> },
    Error { target: Seq<char>, detail: PatchError },
}

impl View for PatchEvent {
    type V = PatchEventView;

    open spec fn view(&self) -> PatchEventView {
        match *self {
            PatchEvent::Applied { offset, action, bytes } => PatchEventView::Applied {
                offset,
                action,
                bytes: bytes@,
            },
            PatchEvent::Skipped { reason, target } => PatchEventView::Skipped {
                reason,
                target: target@,
            },
            PatchEvent::Error { target, detail } => PatchEventView::Error {
                target: target@,
                detail,
            },
        }
    }
}

/// The contents of a list of events.
pub open spec fn event_views(events: Seq<PatchEvent>) -> Seq<PatchEventView> {
    events.map_values(|e: PatchEvent| e@)
}

} // verus!
