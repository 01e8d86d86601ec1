//! The latest frame, shared between one producer and many consumers.
//!
//! The producer publishes frames on the bus. Each consumer takes the latest
//! one whenever its own clock says so; neither waits for the other.

use arc_swap::ArcSwap;
use std::sync::Arc;
use vstd::prelude::*;

use crate::binary32::Double;
use crate::types::{ResolvedFrame, ZonePayload};

verus! {

/// A shared `arc_swap::ArcSwap` of a frame: a cell whose value is replaced and
/// read as a whole.
#[verifier::external_body]
#[derive(Debug)]
pub struct FrameCell {
    cell: Arc<ArcSwap<ResolvedFrame>>,
}

/// The frames that a cell holds over its whole life, by number: the first one
/// is number 0, and every one that is stored has the next number. Which frames
/// are still to come is not known before they are stored.
pub uninterp spec fn cell_frames(cell: FrameCell) -> Map<nat, ResolvedFrame>;

/// The number of the frame that a cell holds now.
pub uninterp spec fn cell_number(cell: FrameCell) -> nat;

/// Which cell this is. It is the same one for all shares of a cell, and no two
/// cells have the same.
pub uninterp spec fn cell_identity(cell: FrameCell) -> int;

/// Which cell this is a share of.
pub uninterp spec fn share_identity(cell: SharedCell) -> int;

/// The frames that the shared cell holds over its whole life, by number.
pub uninterp spec fn share_frames(cell: SharedCell) -> Map<nat, ResolvedFrame>;

/// The number of the frame that was read last through a share; before the first
/// read, of the one that the cell held when the share was taken.
pub uninterp spec fn share_number(cell: SharedCell) -> nat;

/// `ArcSwap::from_pointee`: a cell that holds a frame, its first.
#[verifier::external_body]
fn from_pointee(frame: ResolvedFrame) -> (result: FrameCell)
    ensures
        cell_number(result) == 0,
        cell_frames(result).contains_key(0),
        cell_frames(result)[0] == frame,
{
    FrameCell { cell: Arc::new(ArcSwap::from_pointee(frame)) }
}

/// `ArcSwap::store`: the cell, which stays the same one, holds the new frame,
/// and this is its next. Whoever has the cell can store; here it is the one who
/// has it mutably.
#[verifier::external_body]
fn store(cell: &mut FrameCell, frame: Arc<ResolvedFrame>)
    ensures
        cell_identity(*final(cell)) == cell_identity(*old(cell)),
        cell_frames(*final(cell)) == cell_frames(*old(cell)),
        cell_number(*final(cell)) == cell_number(*old(cell)) + 1,
        cell_frames(*final(cell)).contains_key(cell_number(*final(cell))),
        cell_frames(*final(cell))[cell_number(*final(cell))] == *frame,
{
    cell.cell.store(frame)
}

/// `ArcSwap::load_full`: the frame that the cell holds.
#[verifier::external_body]
fn load_full(cell: &FrameCell) -> (result: Arc<ResolvedFrame>)
    ensures
        *result == cell_frames(*cell)[cell_number(*cell)],
{
    cell.cell.load_full()
}

/// A share of the cell, for a consumer that reads it while the producer stores.
#[verifier::external_body]
#[derive(Debug)]
pub struct SharedCell {
    cell: Arc<ArcSwap<ResolvedFrame>>,
}

/// `Arc::clone` of the cell: a share of the same cell, taken now.
#[verifier::external_body]
fn share(cell: &FrameCell) -> (result: SharedCell)
    ensures
        share_identity(result) == cell_identity(*cell),
        share_frames(result) == cell_frames(*cell),
        share_number(result) == cell_number(*cell),
{
    SharedCell { cell: Arc::clone(&cell.cell) }
}

/// `ArcSwap::load_full` through a share: the frame that the cell holds at that
/// moment. The loads of one share follow the order of the stores, so this is
/// the frame that was read last or one that was stored after it. Where another
/// share of the same cell is at hand, what was read through it, or held when it
/// was taken, was stored before this load begins, so it is not older than that
/// either. Which frame it is depends on when the producer stores.
#[verifier::external_body]
fn load_shared(cell: &mut SharedCell, seen: Option<&SharedCell>) -> (result: Arc<ResolvedFrame>)
    ensures
        share_identity(*final(cell)) == share_identity(*old(cell)),
        share_frames(*final(cell)) == share_frames(*old(cell)),
        share_number(*final(cell)) >= share_number(*old(cell)),
        share_frames(*final(cell)).contains_key(share_number(*final(cell))),
        *result == share_frames(*final(cell))[share_number(*final(cell))],
        match seen {
            Some(other) => share_identity(*other) == share_identity(*old(cell)) ==> share_number(
                *final(cell),
            ) >= share_number(*other),
            None => true,
        },
{
    let _ = seen;
    cell.cell.load_full()
}

/// The producer's end of the bus.
#[derive(Debug)]
pub struct Bus {
    current: FrameCell,
}

impl Bus {
    /// The frames of this bus over its whole life, by number: the initial one,
    /// then every one that is published.
    pub closed spec fn frames(&self) -> Map<nat, ResolvedFrame> {
        cell_frames(self.current)
    }

    /// Which bus this is.
    pub closed spec fn identity(&self) -> int {
        cell_identity(self.current)
    }

    /// How many frames have been published.
    pub closed spec fn published(&self) -> nat {
        cell_number(self.current)
    }

    /// The frame that was published last.
    pub open spec fn latest(&self) -> ResolvedFrame {
        self.frames()[self.published()]
    }

    /// A bus that starts with a frame.
    pub fn new(initial: ResolvedFrame) -> (result: Bus)
        ensures
            result.published() == 0,
            result.latest() == initial,
    {
        Bus { current: from_pointee(initial) }
    }

    /// A bus that starts with the frame of tick zero at time zero, with no
    /// payload.
    pub fn empty() -> (result: Bus)
        ensures
            result.published() == 0,
            result.latest().tick == 0,
            result.latest().t == (Double { bits: 0 }),
            result.latest().zones.entries() == Seq::<(Seq<char>, ZonePayload)>::empty(),
            result.latest().zones.well_formed(),
    {
        Bus::new(ResolvedFrame::default())
    }

    /// Publishes a frame: snapshots are of this frame until the next one.
    pub fn publish(&mut self, frame: ResolvedFrame)
        ensures
            final(self).identity() == old(self).identity(),
            final(self).frames() == old(self).frames(),
            final(self).published() == old(self).published() + 1,
            final(self).latest() == frame,
    {
        store(&mut self.current, Arc::new(frame));
    }

    /// Publishes a frame that the caller keeps a share of.
    pub fn publish_arc(&mut self, frame: Arc<ResolvedFrame>)
        ensures
            final(self).identity() == old(self).identity(),
            final(self).frames() == old(self).frames(),
            final(self).published() == old(self).published() + 1,
            final(self).latest() == *frame,
    {
        store(&mut self.current, frame);
    }

    /// The frame that was published last. It stays what it is when others are
    /// published.
    pub fn snapshot(&self) -> (result: Arc<ResolvedFrame>)
        ensures
            *result == self.latest(),
    {
        load_full(&self.current)
    }

    /// A consumer's end of this bus. It starts at the latest frame.
    pub fn reader(&self) -> (result: BusReader)
        ensures
            result.identity() == self.identity(),
            result.frames() == self.frames(),
            result.position() == self.published(),
    {
        BusReader { current: share(&self.current) }
    }

    /// A receipt for what has been published on this bus so far.
    pub fn receipt(&self) -> (result: Receipt)
        ensures
            result.identity() == self.identity(),
            result.number() == self.published(),
    {
        Receipt { published: share(&self.current) }
    }
}

/// Shows that so many frames have been published on a bus. Whoever has it can
/// ask a consumer's end for nothing older.
#[derive(Debug)]
pub struct Receipt {
    published: SharedCell,
}

impl Receipt {
    /// Which bus this is from.
    pub closed spec fn identity(&self) -> int {
        share_identity(self.published)
    }

    /// How many frames had been published.
    pub closed spec fn number(&self) -> nat {
        share_number(self.published)
    }
}

/// A consumer's end of the bus.
#[derive(Debug)]
pub struct BusReader {
    current: SharedCell,
}

impl BusReader {
    /// Which bus this is an end of.
    pub closed spec fn identity(&self) -> int {
        share_identity(self.current)
    }

    /// The frames of the bus over its whole life, by number.
    pub closed spec fn frames(&self) -> Map<nat, ResolvedFrame> {
        share_frames(self.current)
    }

    /// The number of the frame that was read last; before the first read, of the
    /// one that was the latest when this end was made.
    pub closed spec fn position(&self) -> nat {
        share_number(self.current)
    }

    /// The frame that is the latest at the moment of the call: the one that was
    /// read last, or one published after it, never an older one. The producer
    /// may publish at any time, so which of them is left open.
    pub fn snapshot(&mut self) -> (result: Arc<ResolvedFrame>)
        ensures
            final(self).identity() == old(self).identity(),
            final(self).frames() == old(self).frames(),
            final(self).position() >= old(self).position(),
            final(self).frames().contains_key(final(self).position()),
            *result == final(self).frames()[final(self).position()],
    {
        load_shared(&mut self.current, None)
    }

    /// The frame that is the latest at the moment of the call, as with
    /// [`BusReader::snapshot`]. If the receipt is from the same bus, this is the
    /// last frame that it is for, or a later one.
    pub fn snapshot_after(&mut self, receipt: &Receipt) -> (result: Arc<ResolvedFrame>)
        ensures
            final(self).identity() == old(self).identity(),
            final(self).frames() == old(self).frames(),
            final(self).position() >= old(self).position(),
            final(self).frames().contains_key(final(self).position()),
            *result == final(self).frames()[final(self).position()],
            receipt.identity() == old(self).identity() ==> final(self).position()
                >= receipt.number(),
    {
        load_shared(&mut self.current, Some(&receipt.published))
    }
}

impl Default for Bus {
    /// A bus that starts with the frame of tick zero at time zero, with no
    /// payload.
    fn default() -> (result: Bus)
        ensures
            result.published() == 0,
            result.latest().tick == 0,
            result.latest().t == (Double { bits: 0 }),
            result.latest().zones.entries() == Seq::<(Seq<char>, ZonePayload)>::empty(),
            result.latest().zones.well_formed(),
    {
        Bus::empty()
    }
}

} // verus!
