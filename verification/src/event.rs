//! What the engine sends to a connection.

use vstd::prelude::*;
use crate::error::EventError;
use crate::keys::key_clone;
use crate::seqs::views;
use crate::timestamp::TimeStamp;

verus! {

/// The step of a transaction that a row records.
#[derive(Clone, Copy, Debug, PartialEq, Eq, Structural)]
pub enum RowKind {
    /// The transaction locked the key.
    Prewrite,
    /// The transaction committed its write to the key.
    Commit,
    /// The transaction gave up the key.
    Rollback,
}

/// One change of one key.
#[derive(Clone, Debug, PartialEq, Eq)]
pub struct Row {
    pub kind: RowKind,
    pub key: Vec<u8>,
    pub value: Vec<u8>,
    pub start_ts: TimeStamp,
    pub commit_ts: TimeStamp,
}

pub struct RowView {
    pub kind: RowKind,
    pub key: Seq<u8>,
    pub value: Seq<u8>,
    pub start_ts: TimeStamp,
    pub commit_ts: TimeStamp,
}

impl View for Row {
    type V = RowView;

    open spec fn view(&self) -> RowView {
        RowView {
            kind: self.kind,
            key: self.key@,
            value: self.value@,
            start_ts: self.start_ts,
            commit_ts: self.commit_ts,
        }
    }
}

impl Row {
    pub fn duplicate(&self) -> (r: Row)
        ensures
            r@ == self@,
    {
        Row {
            kind: self.kind,
            key: key_clone(&self.key),
            value: key_clone(&self.value),
            start_ts: self.start_ts,
            commit_ts: self.commit_ts,
        }
    }
}

/// What an event tells about its region.
#[derive(Clone, Debug, PartialEq, Eq)]
pub enum EventKind {
    /// The subscription has ended, and why.
    Error(EventError),
    /// The region's resolved timestamp, for clients that do not take
    /// batched ones.
    ResolvedTs(u64),
    /// Changes of the region's keys.
    Entries(Vec<Row>),
}

pub enum EventKindView {
    Error(EventError),
    ResolvedTs(u64),
    Entries(Seq<RowView>),
}

impl View for EventKind {
    type V = EventKindView;

    open spec fn view(&self) -> EventKindView {
        match *self {
            EventKind::Error(e) => EventKindView::Error(e),
            EventKind::ResolvedTs(ts) => EventKindView::ResolvedTs(ts),
            EventKind::Entries(rows) => EventKindView::Entries(views(rows@)),
        }
    }
}

/// A message about one region, for one request.
#[derive(Clone, Debug, PartialEq, Eq)]
pub struct Event {
    pub region_id: u64,
    pub request_id: u64,
    pub event: EventKind,
}

pub struct EventView {
    pub region_id: u64,
    pub request_id: u64,
    pub event: EventKindView,
}

impl View for Event {
    type V = EventView;

    open spec fn view(&self) -> EventView {
        EventView { region_id: self.region_id, request_id: self.request_id, event: self.event@ }
    }
}

/// One resolved timestamp for many regions of one request.
#[derive(Clone, Debug, PartialEq, Eq)]
pub struct ResolvedTs {
    pub ts: u64,
    pub request_id: u64,
    pub regions: Vec<u64>,
}

pub struct ResolvedTsView {
    pub ts: u64,
    pub request_id: u64,
    pub regions: Seq<u64>,
}

impl View for ResolvedTs {
    type V = ResolvedTsView;

    open spec fn view(&self) -> ResolvedTsView {
        ResolvedTsView { ts: self.ts, request_id: self.request_id, regions: self.regions@ }
    }
}

/// A message to a connection.
#[derive(Clone, Debug, PartialEq, Eq)]
pub enum CdcEvent {
    ResolvedTs(ResolvedTs),
    Event(Event),
    /// Everything sent before the barrier reaches the client before
    /// anything sent after it.
    Barrier,
}

pub enum CdcEventView {
    ResolvedTs(ResolvedTsView),
    Event(EventView),
    Barrier,
}

impl View for CdcEvent {
    type V = CdcEventView;

    open spec fn view(&self) -> CdcEventView {
        match *self {
            CdcEvent::ResolvedTs(r) => CdcEventView::ResolvedTs(r@),
            CdcEvent::Event(e) => CdcEventView::Event(e@),
            CdcEvent::Barrier => CdcEventView::Barrier,
        }
    }
}

impl EventView {
    /// The event that ends a subscription with an error.
    pub open spec fn error(region_id: u64, request_id: u64, err: EventError) -> EventView {
        EventView { region_id, request_id, event: EventKindView::Error(err) }
    }
}

impl Event {
    /// The event that ends a subscription with an error.
    pub fn error(region_id: u64, request_id: u64, err: EventError) -> (r: Event)
        ensures
            r@ == EventView::error(region_id, request_id, err),
    {
        Event { region_id, request_id, event: EventKind::Error(err) }
    }
}

} // verus!
