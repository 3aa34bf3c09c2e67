//! Global messages related to data frame sync, not app-specific.
//!
//! Each type has a mathematical view (the `...View` types) over which the
//! command codec is specified.

use vstd::prelude::*;

use crate::network::Network;
use crate::station::{Station, StationView};

verus! {

/// Entire Chatteroo message sent or received on a radio channel.
#[derive(Clone, Debug, PartialEq, Eq)]
pub struct Transmission {
    pub version: ChatterooVersion,
    pub network: Network,
    pub sender: Station,
    pub command: Command,
}

/// Chatteroo protocol version, carried as the SSID of the destination address.
///
/// Nodes on different versions do not interoperate.
#[derive(Clone, Copy, Debug, PartialEq, Eq, Structural)]
pub enum ChatterooVersion {
    /// Development, experimentation, etc.
    Test,
    /// Protocol version 1.
    V1,
}

/// Payload variant inside `Transmission`.
///
/// Some payloads are identical but have different meanings by command.
#[derive(Clone, Debug, PartialEq, Eq)]
pub enum Command {
    Status(Status),
    Range(Range),
    InsertFrame(InsertFrame),
    RepeatFrame(FrameDefinition),
    QuickSyncFrameRequest(FrameRequest),
    QuickSyncFrameResponse(FrameDefinition),
    BackfillFrameRequest(FrameRequest),
    BackfillFrameResponse(FrameDefinition),
    EpochRequest(EpochRequest),
    QuickEpochResponse(QuickEpochResponse),
    EpochResponse(EpochResponse),
    BucketContentRequest(BucketContentRequest),
    BucketContentResponse(BucketContentResponse),
    StationDataRequest(StationDataRequest),
    StationDataResponse(StationDataResponse),
    PingRequest(PingRequest),
    PingResponse(PingResponse),
}

/// Station announces what data it has and recently-added frames.
#[derive(Clone, Debug, PartialEq, Eq)]
pub struct Status {
    /// Current epoch from the point of view of the transmitting station (0-7).
    pub epoch_now_mod8: u8,
    /// Checksum of the epoch 4 weeks before the current epoch.
    pub epoch_4_ago_crc: u32,
    /// Checksum of the epoch 3 weeks before the current epoch.
    pub epoch_3_ago_crc: u32,
    /// Checksum of the epoch 2 weeks before the current epoch.
    pub epoch_2_ago_crc: u32,
    /// Checksum of the previous epoch.
    pub epoch_1_ago_crc: u32,
    /// Checksum of the epoch currently underway.
    pub epoch_now_crc: u32,
    /// Checksum of the epoch after the current one (data from stations whose
    /// clocks run slightly ahead).
    pub epoch_next_crc: u32,
    /// Up to 4 stations whose data frames were received last.
    pub recently_added: Vec<StationSparse>,
}

/// A station paired with the highest contiguous block of its frames that is
/// known, in an epoch given elsewhere. `bottom` is 0 when all are known.
#[derive(Clone, Debug, PartialEq, Eq)]
pub struct StationSparse {
    pub station: Station,
    /// End index (inclusive) of the highest contiguous block of frames.
    pub top: u16,
    /// Start index (inclusive) of the highest contiguous block of frames.
    pub bottom: u16,
}

/// Station is indicating which stations are in radio range.
#[derive(Clone, Debug, PartialEq, Eq)]
pub struct Range {
    /// Index of the last page (page count - 1), 0-15.
    pub final_page: u8,
    /// Which page this is, 0 to `final_page`.
    pub page: u8,
    /// Stations heard recently, and whether they hear us.
    pub stations: Vec<StationHeard>,
}

/// A station that we can hear, and whether we think they hear us.
#[derive(Clone, Debug, PartialEq, Eq)]
pub struct StationHeard {
    pub station: Station,
    /// Whether it is confirmed that they have heard us recently.
    pub is_mutual: bool,
}

/// Station is inserting a data frame of its own.
#[derive(Clone, Debug, PartialEq, Eq)]
pub struct InsertFrame {
    pub frame: FrameWithMetadata,
}

/// Full information about a frame except who inserted it.
#[derive(Clone, Debug, PartialEq, Eq)]
pub struct FrameWithMetadata {
    /// Epoch of the frame (0-7).
    pub epoch_mod8: u8,
    /// Index of this frame within the epoch (0-8191).
    pub index: u16,
    /// Is this frame the first in a higher-level message?
    pub start_of_message: bool,
    /// Is this frame the last in a higher-level message?
    pub end_of_message: bool,
    /// Which application will parse this message (0-15).
    pub application: u8,
    /// Frame content, at most 80 bytes.
    pub data: Vec<u8>,
}

/// Station is sharing a data frame from someone else.
#[derive(Clone, Debug, PartialEq, Eq)]
pub struct FrameDefinition {
    /// Station which originally inserted this frame.
    pub station: Station,
    /// Frame which was inserted by `station`.
    pub frame: FrameWithMetadata,
}

/// Station requests another station to repeat a frame that they have.
#[derive(Clone, Debug, PartialEq, Eq)]
pub struct FrameRequest {
    /// Station asked to transmit the frame; only it may reply.
    pub target: Station,
    /// Station who originally inserted the frame.
    pub inserter: Station,
    /// Epoch the frame is in (0-7).
    pub epoch_mod8: u8,
    /// Insertion index of the frame within that epoch (0-8191).
    pub index: u16,
}

/// Station requests more detail about a given epoch.
#[derive(Clone, Debug, PartialEq, Eq)]
pub struct EpochRequest {
    /// Station asked; only it may reply.
    pub target: Station,
    /// Requested epoch (0-7).
    pub epoch_mod8: u8,
}

/// Station summarises an epoch by the checksum of each station's data.
#[derive(Clone, Debug, PartialEq, Eq)]
pub struct QuickEpochResponse {
    /// Epoch described (0-7).
    pub epoch_mod8: u8,
    /// Stations within this epoch.
    pub stations: Vec<StationSummary>,
}

/// Station summarises an epoch by the checksums of 16 buckets of stations.
#[derive(Clone, Debug, PartialEq, Eq)]
pub struct EpochResponse {
    /// Epoch described (0-7).
    pub epoch_mod8: u8,
    /// For each bucket of stations, CRC of its data frames in this epoch.
    pub checksums: [u32; 16],
}

/// Station requests detail about a bucket within a given epoch.
#[derive(Clone, Debug, PartialEq, Eq)]
pub struct BucketContentRequest {
    /// Station asked; only it may reply.
    pub target: Station,
    /// Requested epoch (0-7).
    pub epoch_mod8: u8,
    /// Requested bucket (0-15).
    pub bucket: u8,
    /// Requested page within the bucket (0-15).
    pub page: u8,
}

/// Station reports the stations in a bucket and the checksum of each one's data.
#[derive(Clone, Debug, PartialEq, Eq)]
pub struct BucketContentResponse {
    /// Epoch described (0-7).
    pub epoch_mod8: u8,
    /// Index of the final page for stations in this bucket (0-15).
    pub final_page: u8,
    /// Page number of this message (0-15).
    pub page: u8,
    /// Stations within this page.
    pub stations: Vec<StationSummary>,
}

/// Detail about the frames inserted by one station in an epoch given elsewhere.
#[derive(Clone, Debug, PartialEq, Eq)]
pub struct StationSummary {
    pub station: Station,
    /// Highest index (inclusive) of the highest contiguous block of frames.
    pub top: u16,
    /// Lowest index (inclusive) of the highest contiguous block of frames.
    pub bottom: u16,
    /// CRC of all data frames known for this station in this epoch.
    pub epoch_crc: u32,
}

/// Station requests the list of frames inserted by a station in an epoch.
#[derive(Clone, Debug, PartialEq, Eq)]
pub struct StationDataRequest {
    /// Station asked; only it may reply.
    pub target: Station,
    /// Station who inserted the data being requested.
    pub station: Station,
    /// Requested epoch (0-7).
    pub epoch_mod8: u8,
    /// Start listing from the range that contains this index (0-8191).
    pub from_index: u16,
}

/// Station reports which frames exist for a given station.
#[derive(Clone, Debug, PartialEq, Eq)]
pub struct StationDataResponse {
    /// Station who inserted these frames.
    pub station: Station,
    /// Epoch described (0-7).
    pub epoch_mod8: u8,
    /// Does this include the highest known index for this station?
    pub end_of_data: bool,
    /// Ordered list of known blocks of indices.
    pub ranges: Vec<ContiguousRange>,
}

/// Range of frame indices known for a station.
#[derive(Clone, Copy, Debug, PartialEq, Eq, Structural)]
pub struct ContiguousRange {
    /// Top index (inclusive).
    pub top: u16,
    /// Bottom index (inclusive).
    pub bottom: u16,
}

/// Station requests a single diagnostic response from a target station.
#[derive(Clone, Debug, PartialEq, Eq)]
pub struct PingRequest {
    /// Station requested to respond.
    pub target: Station,
}

/// Station responds to a `PingRequest`.
#[derive(Clone, Debug, PartialEq, Eq)]
pub struct PingResponse {
    /// The station whose ping is answered.
    pub target: Station,
    /// A short description of the software, e.g. its version.
    pub diagnostic: String,
}

// ---------------------------------------------------------------------------
// Views
/// View of a `StationSparse`.
pub struct StationSparseView {
    pub station: StationView,
    pub top: u16,
    pub bottom: u16,
}

/// View of a `StationHeard`.
pub struct StationHeardView {
    pub station: StationView,
    pub is_mutual: bool,
}

/// View of a `StationSummary`.
pub struct StationSummaryView {
    pub station: StationView,
    pub top: u16,
    pub bottom: u16,
    pub epoch_crc: u32,
}

/// View of a `FrameWithMetadata`.
pub struct FrameView {
    pub epoch_mod8: u8,
    pub index: u16,
    pub start_of_message: bool,
    pub end_of_message: bool,
    pub application: u8,
    pub data: Seq<u8>,
}

/// View of a `FrameDefinition`.
pub struct FrameDefinitionView {
    pub station: StationView,
    pub frame: FrameView,
}

/// View of a `FrameRequest`.
pub struct FrameRequestView {
    pub target: StationView,
    pub inserter: StationView,
    pub epoch_mod8: u8,
    pub index: u16,
}

/// View of a `Status`.
pub struct StatusView {
    pub epoch_now_mod8: u8,
    pub crcs: Seq<u32>,
    pub recently_added: Seq<StationSparseView>,
}

/// View of a `Command`.
pub enum CommandView {
    Status(StatusView),
    Range { final_page: u8, page: u8, stations: Seq<StationHeardView> },
    InsertFrame(FrameView),
    RepeatFrame(FrameDefinitionView),
    QuickSyncFrameRequest(FrameRequestView),
    QuickSyncFrameResponse(FrameDefinitionView),
    BackfillFrameRequest(FrameRequestView),
    BackfillFrameResponse(FrameDefinitionView),
    EpochRequest { target: StationView, epoch_mod8: u8 },
    QuickEpochResponse { epoch_mod8: u8, stations: Seq<StationSummaryView> },
    EpochResponse { epoch_mod8: u8, checksums: Seq<u32> },
    BucketContentRequest { target: StationView, epoch_mod8: u8, bucket: u8, page: u8 },
    BucketContentResponse {
        epoch_mod8: u8,
        final_page: u8,
        page: u8,
        stations: Seq<StationSummaryView>,
    },
    StationDataRequest { target: StationView, station: StationView, epoch_mod8: u8, from_index: u16 },
    StationDataResponse {
        station: StationView,
        epoch_mod8: u8,
        end_of_data: bool,
        ranges: Seq<ContiguousRange>,
    },
    PingRequest { target: StationView },
    PingResponse { target: StationView, diagnostic: Seq<char> },
}

/// View of a `Transmission`.
pub struct TransmissionView {
    pub version: ChatterooVersion,
    pub network: Seq<char>,
    pub sender: StationView,
    pub command: CommandView,
}

impl View for StationSparse {
    type V = StationSparseView;

    open spec fn view(&self) -> StationSparseView {
        StationSparseView { station: self.station@, top: self.top, bottom: self.bottom }
    }
}

impl View for StationHeard {
    type V = StationHeardView;

    open spec fn view(&self) -> StationHeardView {
        StationHeardView { station: self.station@, is_mutual: self.is_mutual }
    }
}

impl View for StationSummary {
    type V = StationSummaryView;

    open spec fn view(&self) -> StationSummaryView {
        StationSummaryView {
            station: self.station@,
            top: self.top,
            bottom: self.bottom,
            epoch_crc: self.epoch_crc,
        }
    }
}

impl View for FrameWithMetadata {
    type V = FrameView;

    open spec fn view(&self) -> FrameView {
        FrameView {
            epoch_mod8: self.epoch_mod8,
            index: self.index,
            start_of_message: self.start_of_message,
            end_of_message: self.end_of_message,
            application: self.application,
            data: self.data@,
        }
    }
}

impl View for FrameDefinition {
    type V = FrameDefinitionView;

    open spec fn view(&self) -> FrameDefinitionView {
        FrameDefinitionView { station: self.station@, frame: self.frame@ }
    }
}

impl View for FrameRequest {
    type V = FrameRequestView;

    open spec fn view(&self) -> FrameRequestView {
        FrameRequestView {
            target: self.target@,
            inserter: self.inserter@,
            epoch_mod8: self.epoch_mod8,
            index: self.index,
        }
    }
}

impl View for Status {
    type V = StatusView;

    open spec fn view(&self) -> StatusView {
        StatusView {
            epoch_now_mod8: self.epoch_now_mod8,
            crcs: seq![
                self.epoch_4_ago_crc,
                self.epoch_3_ago_crc,
                self.epoch_2_ago_crc,
                self.epoch_1_ago_crc,
                self.epoch_now_crc,
                self.epoch_next_crc,
            ],
            recently_added: self.recently_added@.map_values(|s: StationSparse| s@),
        }
    }
}

impl View for Command {
    type V = CommandView;

    open spec fn view(&self) -> CommandView {
        match self {
            Command::Status(s) => CommandView::Status(s@),
            Command::Range(r) => CommandView::Range {
                final_page: r.final_page,
                page: r.page,
                stations: r.stations@.map_values(|s: StationHeard| s@),
            },
            Command::InsertFrame(i) => CommandView::InsertFrame(i.frame@),
            Command::RepeatFrame(f) => CommandView::RepeatFrame(f@),
            Command::QuickSyncFrameRequest(f) => CommandView::QuickSyncFrameRequest(f@),
            Command::QuickSyncFrameResponse(f) => CommandView::QuickSyncFrameResponse(f@),
            Command::BackfillFrameRequest(f) => CommandView::BackfillFrameRequest(f@),
            Command::BackfillFrameResponse(f) => CommandView::BackfillFrameResponse(f@),
            Command::EpochRequest(e) => CommandView::EpochRequest {
                target: e.target@,
                epoch_mod8: e.epoch_mod8,
            },
            Command::QuickEpochResponse(q) => CommandView::QuickEpochResponse {
                epoch_mod8: q.epoch_mod8,
                stations: q.stations@.map_values(|s: StationSummary| s@),
            },
            Command::EpochResponse(e) => CommandView::EpochResponse {
                epoch_mod8: e.epoch_mod8,
                checksums: e.checksums@,
            },
            Command::BucketContentRequest(b) => CommandView::BucketContentRequest {
                target: b.target@,
                epoch_mod8: b.epoch_mod8,
                bucket: b.bucket,
                page: b.page,
            },
            Command::BucketContentResponse(b) => CommandView::BucketContentResponse {
                epoch_mod8: b.epoch_mod8,
                final_page: b.final_page,
                page: b.page,
                stations: b.stations@.map_values(|s: StationSummary| s@),
            },
            Command::StationDataRequest(d) => CommandView::StationDataRequest {
                target: d.target@,
                station: d.station@,
                epoch_mod8: d.epoch_mod8,
                from_index: d.from_index,
            },
            Command::StationDataResponse(d) => CommandView::StationDataResponse {
                station: d.station@,
                epoch_mod8: d.epoch_mod8,
                end_of_data: d.end_of_data,
                ranges: d.ranges@,
            },
            Command::PingRequest(p) => CommandView::PingRequest { target: p.target@ },
            Command::PingResponse(p) => CommandView::PingResponse {
                target: p.target@,
                diagnostic: p.diagnostic@,
            },
        }
    }
}

impl View for Transmission {
    type V = TransmissionView;

    open spec fn view(&self) -> TransmissionView {
        TransmissionView {
            version: self.version,
            network: self.network@,
            sender: self.sender@,
            command: self.command@,
        }
    }
}

} // verus!
