//! The bookkeeping of one chunk's transfer: where each block that is read
//! goes, what the progress bar is told, and what the transfer gives back.

use vstd::prelude::*;

verus! {

/// What reading the response body gave.
pub enum ReadEvent {
    /// `count` bytes were read (none at the end of the body);
    /// `progress_due` tells whether the progress refresh interval has passed.
    Read { count: u64, progress_due: bool },
    /// Reading failed.
    Failed,
}

/// What to do after a read.
#[derive(Debug, PartialEq, Eq, Structural)]
pub enum ChunkAction {
    /// Write the bytes just read at `offset` of the chunk, then advance the
    /// progress bar by `progress`, if any.
    Store { offset: u64, progress: Option<u64> },
    /// The body has ended: the transfer gives back `bytes`.
    Finish { bytes: u64 },
    /// Reading failed: advance the progress bar by `progress`; the transfer
    /// gives back 0 bytes.
    Abort { progress: u64 },
}

/// The contents of a `ChunkTransfer`.
pub struct ChunkTransferView {
    /// Bytes read so far.
    pub received: int,
    /// Bytes reported to the progress bar so far.
    pub reported: int,
}

/// The state of one chunk's transfer.
pub struct ChunkTransfer {
    received: u64,
    reported: u64,
}

impl View for ChunkTransfer {
    type V = ChunkTransferView;

    closed spec fn view(&self) -> ChunkTransferView {
        ChunkTransferView { received: self.received as int, reported: self.reported as int }
    }
}

impl ChunkTransfer {
    /// The progress bar is never told of more bytes than were read.
    #[verifier::type_invariant]
    spec fn reported_within_received(self) -> bool {
        self.reported <= self.received
    }

    /// A transfer that has read nothing yet.
    pub fn new() -> (transfer: ChunkTransfer)
        ensures
            transfer@ == (ChunkTransferView { received: 0, reported: 0 }),
    {
        ChunkTransfer { received: 0, reported: 0 }
    }

    /// Bytes read so far.
    pub fn received(&self) -> (received: u64)
        ensures
            received == self@.received,
            self@.reported <= self@.received,
    {
        proof {
            use_type_invariant(self);
        }
        self.received
    }

    /// Bytes reported to the progress bar so far.
    pub fn reported(&self) -> (reported: u64)
        ensures
            reported == self@.reported,
            self@.reported <= self@.received,
    {
        proof {
            use_type_invariant(self);
        }
        self.reported
    }

    /// Takes the outcome of one read and says what to do with it.
    pub fn step(&mut self, event: ReadEvent) -> (action: ChunkAction)
        requires
            event matches ReadEvent::Read { count, .. } ==> old(self)@.received + count <= u64::MAX,
        ensures
            final(self)@.reported <= final(self)@.received,
            match event {
                ReadEvent::Read { count, progress_due } => if count == 0 {
                    &&& action == ChunkAction::Finish { bytes: old(self)@.received as u64 }
                    &&& final(self)@ == old(self)@
                } else {
                    &&& final(self)@.received == old(self)@.received + count
                    &&& if progress_due {
                        &&& action == ChunkAction::Store {
                            offset: old(self)@.received as u64,
                            progress: Some((final(self)@.received - old(self)@.reported) as u64),
                        }
                        &&& final(self)@.reported == final(self)@.received
                    } else {
                        &&& action == ChunkAction::Store {
                            offset: old(self)@.received as u64,
                            progress: None,
                        }
                        &&& final(self)@.reported == old(self)@.reported
                    }
                },
                ReadEvent::Failed => {
                    &&& action == ChunkAction::Abort {
                        progress: (old(self)@.received - old(self)@.reported) as u64,
                    }
                    &&& final(self)@.received == old(self)@.received
                    &&& final(self)@.reported == old(self)@.received
                },
            },
    {
        proof {
            use_type_invariant(&*self);
        }
        match event {
            ReadEvent::Read { count, progress_due } => {
                if count == 0 {
                    return ChunkAction::Finish { bytes: self.received };
                }
                let offset = self.received;
                self.received = self.received + count;
                if progress_due {
                    let progress = self.received - self.reported;
                    self.reported = self.received;
                    ChunkAction::Store { offset, progress: Some(progress) }
                } else {
                    ChunkAction::Store { offset, progress: None }
                }
            },
            ReadEvent::Failed => {
                let progress = self.received - self.reported;
                self.reported = self.received;
                ChunkAction::Abort { progress }
            },
        }
    }
}

} // verus!
