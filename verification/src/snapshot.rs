//! The view of a table at one version.

use crate::actions::{Metadata, MetadataView, Protocol, ProtocolView};
use crate::log_segment::{end_version_of, LogSegment, LogSegmentView};
use crate::scan::{metadata_view, protocol_view};
use vstd::prelude::*;

verus! {

/// The state of a table at the version that a log segment leads to: the
/// metadata and the protocol in force, and the segment itself. A snapshot is
/// made once and never changed; another version takes another snapshot.
#[derive(Debug, PartialEq, Eq)]
pub struct Snapshot {
    version: u64,
    metadata: Metadata,
    protocol: Protocol,
    log_segment: LogSegment,
}

/// What a [`Snapshot`] holds, as mathematics.
pub struct SnapshotView {
    pub version: u64,
    pub metadata: MetadataView,
    pub protocol: ProtocolView,
    pub log_segment: LogSegmentView,
}

impl View for Snapshot {
    type V = SnapshotView;

    closed spec fn view(&self) -> SnapshotView {
        SnapshotView {
            version: self.version,
            metadata: self.metadata@,
            protocol: self.protocol@,
            log_segment: self.log_segment@,
        }
    }
}

impl Snapshot {
    #[verifier::type_invariant]
    spec fn at_segment_end(&self) -> bool {
        end_version_of(self.log_segment@) == Some(self.version)
    }

    /// The snapshot at the end of `log_segment`, with the metadata and the
    /// protocol that its replay found. `None` where the segment holds no
    /// file, or the replay found no metadata or no protocol.
    pub fn try_new(
        log_segment: LogSegment,
        metadata: Option<Metadata>,
        protocol: Option<Protocol>,
    ) -> (snapshot: Option<Snapshot>)
        ensures
            match snapshot {
                Some(s) => {
                    &&& end_version_of(log_segment@) == Some(s@.version)
                    &&& metadata_view(metadata) == Some(s@.metadata)
                    &&& protocol_view(protocol) == Some(s@.protocol)
                    &&& s@.log_segment == log_segment@
                },
                None => end_version_of(log_segment@) is None || metadata is None
                    || protocol is None,
            },
    {
        let version = match log_segment.end_version() {
            Some(v) => v,
            None => {
                return None;
            },
        };
        match (metadata, protocol) {
            (Some(metadata), Some(protocol)) => Some(
                Snapshot { version, metadata, protocol, log_segment },
            ),
            _ => None,
        }
    }

    /// The version of the table that the snapshot shows.
    pub fn version(&self) -> (version: u64)
        ensures
            version == self@.version,
            end_version_of(self@.log_segment) == Some(version),
    {
        proof {
            use_type_invariant(self);
        }
        self.version
    }

    /// The table's metadata at this version.
    pub fn metadata(&self) -> (metadata: &Metadata)
        ensures
            metadata@ == self@.metadata,
    {
        &self.metadata
    }

    /// The table's protocol at this version.
    pub fn protocol(&self) -> (protocol: &Protocol)
        ensures
            protocol@ == self@.protocol,
    {
        &self.protocol
    }

    /// The segment that leads to this version.
    pub fn log_segment(&self) -> (segment: &LogSegment)
        ensures
            segment@ == self@.log_segment,
    {
        &self.log_segment
    }
}

} // verus!
