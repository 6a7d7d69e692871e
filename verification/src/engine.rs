//! The patch engine: resolve a descriptor's target, apply its payload, and
//! run a whole list of descriptors over one buffer.
//!
//! Descriptors run strictly in list order, each against the buffer as the
//! earlier ones left it. A descriptor that cannot be resolved or applied is
//! reported and passed over; a malformed one stops the job.

use crate::descriptor::{
    descriptor_views,
    validate_patch_structure,
    well_formed,
    PatchDescriptor,
    PatchDescriptorView,
};
use crate::event::{event_views, Action, PatchError, PatchEvent, PatchEventView, SkipReason};
use crate::hex::{
    hex_bytes,
    hex_text,
    lemma_hex_text_prepends,
    literal_offset,
    parse_hex_bytes,
    parse_offset,
};
use crate::mutate::{insert_at, insert_bytes, replace_at, replace_bytes};
use crate::pattern::{first_match, pattern_of, wildcard_pattern_scan};
use crate::symbols::{find_offset_by_method_name, symbol_lookup, SymbolLookup};
use crate::text::line_views;
use vstd::prelude::*;
use vstd::slice::{slice_subrange, slice_to_vec};

verus! {

/// The target text reported for a descriptor that selects no target.
pub const UNKNOWN_TARGET: &'static str = "unknown";

/// What resolving a descriptor's target gave.
#[derive(Debug, PartialEq, Eq)]
pub enum Resolution {
    /// The target is at `offset`. For a wildcard target, `matched` holds
    /// the bytes that the pattern fell on.
    Resolved { offset: usize, matched: Option<Vec<u8>> },
    /// The target was not found; the descriptor is to be passed over.
    Skipped { reason: SkipReason },
    /// The target is ill-written; the descriptor is to be passed over.
    Error { detail: PatchError },
}

/// Mathematical content of a [`Resolution`].
pub ghost enum ResolutionView {
    Resolved { offset: usize, matched: Option<Seq<u8>> },
    Skipped { reason: SkipReason },
    Error { detail: PatchError },
}

impl View for Resolution {
    type V = ResolutionView;

    open spec fn view(&self) -> ResolutionView {
        match *self {
            Resolution::Resolved { offset, matched } => ResolutionView::Resolved {
                offset,
                matched: match matched {
                    Some(bytes) => Some(bytes@),
                    None => None,
                },
            },
            Resolution::Skipped { reason } => ResolutionView::Skipped { reason },
            Resolution::Error { detail } => ResolutionView::Error { detail },
        }
    }
}

/// Why a job ended without a buffer to write.
#[derive(Clone, Copy, Debug, PartialEq, Eq, Structural)]
pub enum JobError {
    /// The descriptor at `index` is malformed. The descriptors before it
    /// have run; it and those after it have not.
    MalformedDescriptor { index: usize },
    /// Every descriptor has run and the buffer is empty.
    EmptyBuffer,
}

/// What a job gave: one event for each descriptor that ran, in list order,
/// and whether the buffer is to be written.
#[derive(Debug, PartialEq, Eq)]
pub struct JobReport {
    pub events: Vec<PatchEvent>,
    pub result: Result<(), JobError>,
}

/// The state of a job after some of its descriptors.
pub ghost struct JobState {
    /// The buffer as the descriptors so far left it.
    pub buffer: Seq<u8>,
    /// One event for each descriptor that ran.
    pub events: Seq<PatchEventView>,
    /// The index of the malformed descriptor that stopped the job.
    pub rejected: Option<int>,
}

/// What applying a payload gave.
pub ghost struct Applied {
    pub buffer: Seq<u8>,
    pub action: Action,
    pub bytes: Seq<u8>,
}

/// The lines of an optional symbol dump.
pub open spec fn dump_view(dump: Option<&Vec<String>>) -> Option<Seq<Seq<char>>> {
    match dump {
        Some(lines) => Some(line_views(lines@)),
        None => None,
    }
}

/// The bytes of an optional slice.
pub open spec fn matched_view(matched: Option<&[u8]>) -> Option<Seq<u8>> {
    match matched {
        Some(bytes) => Some(bytes@),
        None => None,
    }
}

/// The text by which a descriptor's target is reported: the symbol, else
/// the literal offset, else the wildcard pattern.
pub open spec fn target_text(patch: PatchDescriptorView) -> Seq<char> {
    match patch.method_name {
        Some(name) => name,
        None => match patch.offset {
            Some(text) => text,
            None => match patch.wildcard {
                Some(pattern) => pattern,
                None => UNKNOWN_TARGET@,
            },
        },
    }
}

/// Where a wildcard pattern leads in `data`.
pub open spec fn resolve_wildcard(pattern: Seq<char>, data: Seq<u8>) -> ResolutionView {
    match first_match(data, pattern_of(pattern)) {
        Some(i) => ResolutionView::Resolved {
            offset: i as usize,
            matched: Some(data.subrange(i, i + pattern_of(pattern).len())),
        },
        None => ResolutionView::Skipped { reason: SkipReason::PatternNotFound },
    }
}

/// Where a symbol leads, given the job's symbol dump.
pub open spec fn resolve_symbol(name: Seq<char>, dump: Option<Seq<Seq<char>>>) -> ResolutionView {
    match dump {
        Some(lines) => match symbol_lookup(lines, name) {
            SymbolLookup::Found(offset) => ResolutionView::Resolved { offset, matched: None },
            SymbolLookup::Unannotated => ResolutionView::Skipped {
                reason: SkipReason::SymbolUnannotated,
            },
            SymbolLookup::NotFound => ResolutionView::Skipped {
                reason: SkipReason::SymbolNotFound,
            },
        },
        None => ResolutionView::Skipped { reason: SkipReason::DumpRequired },
    }
}

/// Where a literal offset leads.
pub open spec fn resolve_literal(text: Seq<char>) -> ResolutionView {
    match literal_offset(text) {
        Some(offset) => ResolutionView::Resolved { offset, matched: None },
        None => ResolutionView::Error { detail: PatchError::OffsetSyntax },
    }
}

/// Where a descriptor's target lies in `data`. A symbol is looked at
/// first, then a literal offset, then a wildcard pattern; a well-formed
/// descriptor carries one of them only.
pub open spec fn resolve(
    patch: PatchDescriptorView,
    data: Seq<u8>,
    dump: Option<Seq<Seq<char>>>,
) -> ResolutionView {
    match patch.method_name {
        Some(name) => resolve_symbol(name, dump),
        None => match patch.offset {
            Some(text) => resolve_literal(text),
            None => match patch.wildcard {
                Some(pattern) => resolve_wildcard(pattern, data),
                None => ResolutionView::Skipped { reason: SkipReason::NoSelector },
            },
        },
    }
}

/// The matched bytes that a descriptor keeps in front of its payload: the
/// first `position` of them when both are there, none otherwise.
pub open spec fn kept_prefix(position: Option<u64>, matched: Option<Seq<u8>>) -> Result<
    Seq<u8>,
    PatchError,
> {
    match (position, matched) {
        (Some(p), Some(m)) => if p <= m.len() {
            Ok(m.take(p as int))
        } else {
            Err(PatchError::PositionExceedsMatch)
        },
        _ => Ok(Seq::empty()),
    }
}

/// The bytes that a payload stands for: the kept prefix of the match, then
/// the bytes that the hex byte string spells.
pub open spec fn effective_bytes(
    text: Seq<char>,
    position: Option<u64>,
    matched: Option<Seq<u8>>,
) -> Result<Seq<u8>, PatchError> {
    match kept_prefix(position, matched) {
        Ok(prefix) => match hex_bytes(text) {
            Some(bytes) => Ok(prefix + bytes),
            None => Err(PatchError::HexSyntax),
        },
        Err(e) => Err(e),
    }
}

/// What replacing at `offset` with the payload `text` gives.
pub open spec fn apply_replace(
    data: Seq<u8>,
    offset: usize,
    text: Seq<char>,
    position: Option<u64>,
    matched: Option<Seq<u8>>,
) -> Result<Applied, PatchError> {
    match effective_bytes(text, position, matched) {
        Ok(bytes) => match replace_bytes(data, offset, bytes) {
            Ok(buffer) => Ok(Applied { buffer, action: Action::Replaced, bytes }),
            Err(e) => Err(e),
        },
        Err(e) => Err(e),
    }
}

/// What inserting at `offset` the payload `text` gives.
pub open spec fn apply_insert(
    data: Seq<u8>,
    offset: usize,
    text: Seq<char>,
    position: Option<u64>,
    matched: Option<Seq<u8>>,
) -> Result<Applied, PatchError> {
    match effective_bytes(text, position, matched) {
        Ok(bytes) => match insert_bytes(data, offset, bytes) {
            Ok(buffer) => Ok(Applied { buffer, action: Action::Inserted, bytes }),
            Err(e) => Err(e),
        },
        Err(e) => Err(e),
    }
}

/// What applying a descriptor's payload at `offset` gives. A replacement
/// goes before an insertion; a well-formed descriptor carries one only.
pub open spec fn apply(
    data: Seq<u8>,
    offset: usize,
    patch: PatchDescriptorView,
    matched: Option<Seq<u8>>,
) -> Result<Applied, PatchError> {
    match patch.hex_replace {
        Some(text) => apply_replace(data, offset, text, patch.position, matched),
        None => match patch.hex_insert {
            Some(text) => apply_insert(data, offset, text, patch.position, matched),
            None => Err(PatchError::MissingPayload),
        },
    }
}

/// What one descriptor does to the buffer, and the event it leaves.
pub open spec fn process(
    data: Seq<u8>,
    patch: PatchDescriptorView,
    dump: Option<Seq<Seq<char>>>,
) -> (Seq<u8>, PatchEventView) {
    match resolve(patch, data, dump) {
        ResolutionView::Resolved { offset, matched } => match apply(data, offset, patch, matched) {
            Ok(done) => (
                done.buffer,
                PatchEventView::Applied { offset, action: done.action, bytes: done.bytes },
            ),
            Err(detail) => (data, PatchEventView::Error { target: target_text(patch), detail }),
        },
        ResolutionView::Skipped { reason } => (
            data,
            PatchEventView::Skipped { reason, target: target_text(patch) },
        ),
        ResolutionView::Error { detail } => (
            data,
            PatchEventView::Error { target: target_text(patch), detail },
        ),
    }
}

/// The state of a job once `patches` have been gone through in order,
/// starting from the buffer `data`.
pub open spec fn run_job(
    data: Seq<u8>,
    patches: Seq<PatchDescriptorView>,
    dump: Option<Seq<Seq<char>>>,
) -> JobState
    decreases patches.len(),
{
    if patches.len() == 0 {
        JobState { buffer: data, events: Seq::empty(), rejected: None }
    } else {
        let before = run_job(data, patches.drop_last(), dump);
        if before.rejected is Some {
            before
        } else if !well_formed(patches.last()) {
            JobState { rejected: Some(patches.len() - 1), ..before }
        } else {
            let step = process(before.buffer, patches.last(), dump);
            JobState { buffer: step.0, events: before.events.push(step.1), rejected: None }
        }
    }
}

/// How a job that reached `state` ends.
pub open spec fn job_result(state: JobState) -> Result<(), JobError> {
    match state.rejected {
        Some(index) => Err(JobError::MalformedDescriptor { index: index as usize }),
        None => if state.buffer.len() == 0 {
            Err(JobError::EmptyBuffer)
        } else {
            Ok(())
        },
    }
}

/// Whether going through `patches` looks a symbol up: some descriptor
/// names a symbol, and it and all before it are well formed, so that the
/// job gets to it.
pub open spec fn consults_dump(patches: Seq<PatchDescriptorView>) -> bool {
    exists|i: int|
        {
            &&& 0 <= i < patches.len()
            &&& (#[trigger] patches[i]).method_name is Some
            &&& forall|k: int| 0 <= k <= i ==> well_formed(#[trigger] patches[k])
        }
}

/// The text by which a descriptor's target is reported.
pub fn target_of(patch: &PatchDescriptor) -> (r: String)
    ensures
        r@ == target_text(patch@),
{
    match &patch.method_name {
        Some(name) => name.clone(),
        None => match &patch.offset {
            Some(text) => text.clone(),
            None => match &patch.wildcard {
                Some(pattern) => pattern.clone(),
                None => UNKNOWN_TARGET.to_owned(),
            },
        },
    }
}

/// Resolves a descriptor's target against the buffer as it is now.
///
/// A literal offset is read as hexadecimal, a wildcard pattern is scanned
/// for from the left, a symbol is looked up in `dump`.
pub fn resolve_target(patch: &PatchDescriptor, data: &[u8], dump: Option<&Vec<String>>) -> (r:
    Resolution)
    ensures
        r@ == resolve(patch@, data@, dump_view(dump)),
{
    match &patch.method_name {
        Some(name) => match dump {
            Some(lines) => match find_offset_by_method_name(name.as_str(), lines) {
                SymbolLookup::Found(offset) => Resolution::Resolved { offset, matched: None },
                SymbolLookup::Unannotated => Resolution::Skipped {
                    reason: SkipReason::SymbolUnannotated,
                },
                SymbolLookup::NotFound => Resolution::Skipped {
                    reason: SkipReason::SymbolNotFound,
                },
            },
            None => Resolution::Skipped { reason: SkipReason::DumpRequired },
        },
        None => match &patch.offset {
            Some(text) => match parse_offset(text.as_str()) {
                Some(offset) => Resolution::Resolved { offset, matched: None },
                None => Resolution::Error { detail: PatchError::OffsetSyntax },
            },
            None => match &patch.wildcard {
                Some(pattern) => match wildcard_pattern_scan(data, pattern.as_str()) {
                    Some((offset, bytes)) => Resolution::Resolved { offset, matched: Some(bytes) },
                    None => Resolution::Skipped { reason: SkipReason::PatternNotFound },
                },
                None => Resolution::Skipped { reason: SkipReason::NoSelector },
            },
        },
    }
}

/// Reads a payload and puts the kept prefix of the wildcard match in front
/// of it.
pub fn payload_bytes(text: &str, position: Option<u64>, matched: Option<&[u8]>) -> (r: Result<
    Vec<u8>,
    PatchError,
>)
    ensures
        match effective_bytes(text@, position, matched_view(matched)) {
            Ok(bytes) => r is Ok && r->Ok_0@ == bytes,
            Err(e) => r == Err::<Vec<u8>, PatchError>(e),
        },
{
    let mut bytes: Vec<u8> = Vec::new();
    match (position, matched) {
        (Some(p), Some(m)) => {
            if p > m.len() as u64 {
                return Err(PatchError::PositionExceedsMatch);
            }
            bytes = slice_to_vec(slice_subrange(m, 0, p as usize));
        },
        _ => {},
    }
    match parse_hex_bytes(text) {
        Some(mut payload) => {
            bytes.append(&mut payload);
            Ok(bytes)
        },
        None => Err(PatchError::HexSyntax),
    }
}

/// Applies a descriptor's payload to `data` at `offset`.
///
/// `wildcard_bytes` are the bytes that a wildcard pattern matched, when the
/// target was one; with `position` in the descriptor, that many of them are
/// kept in front of the payload. On success the action taken and the bytes
/// written are returned. On failure the buffer is as it was.
pub fn apply_patch(
    data: &mut Vec<u8>,
    offset: usize,
    patch: &PatchDescriptor,
    wildcard_bytes: Option<&[u8]>,
) -> (r: Result<(Action, Vec<u8>), PatchError>)
    ensures
        match apply(old(data)@, offset, patch@, matched_view(wildcard_bytes)) {
            Ok(done) => {
                &&& r is Ok
                &&& r->Ok_0.0 == done.action
                &&& r->Ok_0.1@ == done.bytes
                &&& final(data)@ == done.buffer
            },
            Err(e) => r == Err::<(Action, Vec<u8>), PatchError>(e) && final(data)@ == old(data)@,
        },
{
    match &patch.hex_replace {
        Some(text) => {
            let bytes = payload_bytes(text.as_str(), patch.position, wildcard_bytes)?;
            replace_at(data.as_mut_slice(), offset, bytes.as_slice())?;
            Ok((Action::Replaced, bytes))
        },
        None => match &patch.hex_insert {
            Some(text) => {
                let bytes = payload_bytes(text.as_str(), patch.position, wildcard_bytes)?;
                insert_at(data, offset, bytes.as_slice())?;
                Ok((Action::Inserted, bytes))
            },
            None => Err(PatchError::MissingPayload),
        },
    }
}

/// Runs one descriptor against the buffer and reports what happened.
pub fn process_patch(data: &mut Vec<u8>, patch: &PatchDescriptor, dump: Option<&Vec<String>>) -> (r:
    PatchEvent)
    ensures
        final(data)@ == process(old(data)@, patch@, dump_view(dump)).0,
        r@ == process(old(data)@, patch@, dump_view(dump)).1,
{
    match resolve_target(patch, data.as_slice(), dump) {
        Resolution::Resolved { offset, matched } => {
            let kept = match &matched {
                Some(bytes) => Some(bytes.as_slice()),
                None => None,
            };
            match apply_patch(data, offset, patch, kept) {
                Ok((action, bytes)) => PatchEvent::Applied { offset, action, bytes },
                Err(detail) => PatchEvent::Error { target: target_of(patch), detail },
            }
        },
        Resolution::Skipped { reason } => PatchEvent::Skipped { reason, target: target_of(patch) },
        Resolution::Error { detail } => PatchEvent::Error { target: target_of(patch), detail },
    }
}

/// Runs a job: goes through `patch_list` in order against `data`.
///
/// Each descriptor is checked for its shape, resolved against the buffer
/// as it then is, and applied. One that cannot be resolved or applied
/// leaves an event and the buffer untouched, and the job goes on. A
/// malformed descriptor stops the job at once. When all have run, the
/// buffer is to be written unless it is empty.
pub fn patch_code(
    data: &mut Vec<u8>,
    patch_list: &Vec<PatchDescriptor>,
    dump: Option<&Vec<String>>,
) -> (report: JobReport)
    ensures
        final(data)@ == run_job(
            old(data)@,
            descriptor_views(patch_list@),
            dump_view(dump),
        ).buffer,
        event_views(report.events@) == run_job(
            old(data)@,
            descriptor_views(patch_list@),
            dump_view(dump),
        ).events,
        report.result == job_result(
            run_job(old(data)@, descriptor_views(patch_list@), dump_view(dump)),
        ),
{
    let ghost patches = descriptor_views(patch_list@);
    let ghost lines = dump_view(dump);
    let mut events: Vec<PatchEvent> = Vec::new();
    let mut i: usize = 0;
    proof {
        assert(patches.take(0) =~= Seq::<PatchDescriptorView>::empty());
        assert(event_views(events@) =~= Seq::<PatchEventView>::empty());
    }
    while i < patch_list.len()
        invariant
            i <= patch_list.len(),
            patches == descriptor_views(patch_list@),
            lines == dump_view(dump),
            run_job(old(data)@, patches.take(i as int), lines) == (JobState {
                buffer: data@,
                events: event_views(events@),
                rejected: None,
            }),
        decreases patch_list.len() - i,
    {
        let ghost upto = patches.take(i + 1);
        proof {
            assert(upto.drop_last() =~= patches.take(i as int));
            assert(upto.last() == patch_list@[i as int]@);
        }
        if !validate_patch_structure(&patch_list[i]) {
            proof {
                lemma_rejection_is_final(old(data)@, patches, lines, i + 1);
            }
            return JobReport {
                events,
                result: Err(JobError::MalformedDescriptor { index: i }),
            };
        }
        let ghost before = event_views(events@);
        let event = process_patch(data, &patch_list[i], dump);
        events.push(event);
        proof {
            assert(event_views(events@) =~= before.push(event@));
        }
        i += 1;
    }
    proof {
        assert(patches.take(i as int) =~= patches);
    }
    let result = if data.is_empty() {
        Err(JobError::EmptyBuffer)
    } else {
        Ok(())
    };
    JobReport { events, result }
}

/// Keeping the first `position` matched bytes in front of a payload gives
/// the bytes of the text that has those bytes, written as a hex byte
/// string, and a space in front of the payload.
pub proof fn lemma_position_combines(text: Seq<char>, position: u64, matched: Seq<u8>)
    requires
        position <= matched.len(),
    ensures
        effective_bytes(text, Some(position), Some(matched)) == match hex_bytes(
            hex_text(matched.take(position as int)) + seq![' '] + text,
        ) {
            Some(bytes) => Ok::<Seq<u8>, PatchError>(bytes),
            None => Err(PatchError::HexSyntax),
        },
{
    lemma_hex_text_prepends(matched.take(position as int), text);
}

/// A position beyond the matched bytes is an error, whatever the payload.
pub proof fn lemma_position_beyond_match(text: Seq<char>, position: u64, matched: Seq<u8>)
    requires
        position > matched.len(),
    ensures
        effective_bytes(text, Some(position), Some(matched)) == Err::<Seq<u8>, PatchError>(
            PatchError::PositionExceedsMatch,
        ),
{
}

/// Tells whether a job will look a symbol up, so that the symbol dump need
/// be read only for jobs that use it.
pub fn needs_dump(patch_list: &Vec<PatchDescriptor>) -> (r: bool)
    ensures
        r == consults_dump(descriptor_views(patch_list@)),
{
    let ghost patches = descriptor_views(patch_list@);
    let mut i: usize = 0;
    while i < patch_list.len()
        invariant
            i <= patch_list.len(),
            patches == descriptor_views(patch_list@),
            forall|k: int| 0 <= k < i ==> well_formed(#[trigger] patches[k]),
            forall|k: int| 0 <= k < i ==> (#[trigger] patches[k]).method_name is None,
        decreases patch_list.len() - i,
    {
        assert(patches[i as int] == patch_list@[i as int]@);
        if !validate_patch_structure(&patch_list[i]) {
            return false;
        }
        if patch_list[i].method_name.is_some() {
            return true;
        }
        i += 1;
    }
    false
}

/// One descriptor never makes the buffer shorter.
pub proof fn lemma_process_never_shrinks(
    data: Seq<u8>,
    patch: PatchDescriptorView,
    dump: Option<Seq<Seq<char>>>,
)
    ensures
        process(data, patch, dump).0.len() >= data.len(),
{
}

/// A job never makes the buffer shorter: replacing keeps its length and
/// inserting adds to it.
pub proof fn lemma_job_never_shrinks(
    data: Seq<u8>,
    patches: Seq<PatchDescriptorView>,
    dump: Option<Seq<Seq<char>>>,
)
    ensures
        run_job(data, patches, dump).buffer.len() >= data.len(),
    decreases patches.len(),
{
    if patches.len() > 0 {
        lemma_job_never_shrinks(data, patches.drop_last(), dump);
        lemma_process_never_shrinks(
            run_job(data, patches.drop_last(), dump).buffer,
            patches.last(),
            dump,
        );
    }
}

/// A job leaves one event for each descriptor that ran: for all of them
/// when none was rejected, else for those before the rejected one.
pub proof fn lemma_job_event_count(
    data: Seq<u8>,
    patches: Seq<PatchDescriptorView>,
    dump: Option<Seq<Seq<char>>>,
)
    ensures
        match run_job(data, patches, dump).rejected {
            Some(index) => {
                &&& 0 <= index < patches.len()
                &&& !well_formed(patches[index])
                &&& run_job(data, patches, dump).events.len() == index
            },
            None => run_job(data, patches, dump).events.len() == patches.len(),
        },
    decreases patches.len(),
{
    if patches.len() > 0 {
        lemma_job_event_count(data, patches.drop_last(), dump);
    }
}

/// A job whose descriptors are all well formed rejects none, and a job
/// that rejected none had only well-formed descriptors.
pub proof fn lemma_rejects_only_malformed(
    data: Seq<u8>,
    patches: Seq<PatchDescriptorView>,
    dump: Option<Seq<Seq<char>>>,
)
    ensures
        run_job(data, patches, dump).rejected is None <==> forall|k: int|
            0 <= k < patches.len() ==> well_formed(#[trigger] patches[k]),
    decreases patches.len(),
{
    if patches.len() > 0 {
        let front = patches.drop_last();
        lemma_rejects_only_malformed(data, front, dump);
        assert forall|k: int| 0 <= k < front.len() implies front[k] == patches[k] by {}
        if run_job(data, patches, dump).rejected is None {
            assert forall|k: int| 0 <= k < patches.len() implies well_formed(
                #[trigger] patches[k],
            ) by {
                if k < front.len() {
                    assert(well_formed(front[k]));
                }
            }
        } else if run_job(data, front, dump).rejected is Some {
            let k = choose|k: int| 0 <= k < front.len() && !well_formed(#[trigger] front[k]);
            assert(!well_formed(patches[k]));
        }
    }
}

/// The first malformed descriptor stops the job before it is resolved:
/// buffer and events are those that the descriptors before it left.
pub proof fn lemma_malformed_stops_job(
    data: Seq<u8>,
    patches: Seq<PatchDescriptorView>,
    dump: Option<Seq<Seq<char>>>,
    index: int,
)
    requires
        0 <= index < patches.len(),
        !well_formed(patches[index]),
        forall|k: int| 0 <= k < index ==> well_formed(#[trigger] patches[k]),
    ensures
        run_job(data, patches, dump).rejected == Some(index),
        run_job(data, patches, dump).buffer == run_job(data, patches.take(index), dump).buffer,
        run_job(data, patches, dump).events == run_job(data, patches.take(index), dump).events,
{
    let front = patches.take(index);
    let upto = patches.take(index + 1);
    assert forall|k: int| 0 <= k < front.len() implies well_formed(#[trigger] front[k]) by {
        assert(front[k] == patches[k]);
    }
    lemma_rejects_only_malformed(data, front, dump);
    assert(upto.drop_last() =~= front);
    assert(upto.last() == patches[index]);
    lemma_rejection_is_final(data, patches, dump, index + 1);
}

/// A job that looks no symbol up runs the same with any symbol dump and
/// with none.
pub proof fn lemma_dump_unused(
    data: Seq<u8>,
    patches: Seq<PatchDescriptorView>,
    dump: Option<Seq<Seq<char>>>,
)
    requires
        !consults_dump(patches),
    ensures
        run_job(data, patches, dump) == run_job(data, patches, None),
    decreases patches.len(),
{
    if patches.len() > 0 {
        let front = patches.drop_last();
        assert forall|k: int| 0 <= k < front.len() implies front[k] == patches[k] by {}
        if consults_dump(front) {
            let i = choose|i: int|
                {
                    &&& 0 <= i < front.len()
                    &&& (#[trigger] front[i]).method_name is Some
                    &&& forall|k: int| 0 <= k <= i ==> well_formed(#[trigger] front[k])
                };
            assert(patches[i].method_name is Some);
            assert forall|k: int| 0 <= k <= i implies well_formed(#[trigger] patches[k]) by {
                assert(well_formed(front[k]));
            }
            assert(false);
        }
        lemma_dump_unused(data, front, dump);
        let before = run_job(data, front, dump);
        if before.rejected is None && well_formed(patches.last()) {
            lemma_rejects_only_malformed(data, front, dump);
            if patches.last().method_name is Some {
                let i = patches.len() - 1;
                assert(patches[i].method_name is Some);
                assert forall|k: int| 0 <= k <= i implies well_formed(#[trigger] patches[k]) by {
                    if k < i {
                        assert(well_formed(front[k]));
                    }
                }
                assert(false);
            }
        }
    }
}

/// Once a descriptor has been rejected, the job's state no longer
/// changes, whatever follows in the list.
pub proof fn lemma_rejection_is_final(
    data: Seq<u8>,
    patches: Seq<PatchDescriptorView>,
    dump: Option<Seq<Seq<char>>>,
    n: int,
)
    requires
        0 <= n <= patches.len(),
        run_job(data, patches.take(n), dump).rejected is Some,
    ensures
        run_job(data, patches, dump) == run_job(data, patches.take(n), dump),
    decreases patches.len() - n,
{
    if n == patches.len() {
        assert(patches.take(n) =~= patches);
    } else {
        assert(patches.take(n + 1).drop_last() =~= patches.take(n));
        lemma_rejection_is_final(data, patches, dump, n + 1);
    }
}

} // verus!
