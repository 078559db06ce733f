use vstd::prelude::*;

verus! {

/// The failures that the engine reports to its caller. None is retried here.
#[derive(Debug)]
pub enum Erreur {
    /// The clip holds fewer samples than the minimum duration asks for.
    ClipTooShort { echantillons: usize },
    /// A decoded frame has a channel count other than one or two.
    UnsupportedChannelLayout { canaux: usize },
    /// The audio could not be read.
    IOFailure,
    /// An insertion was asked for without the name of a song.
    MissingSongIdentifier,
    /// The index could not be written or read; the cause is the storage engine's.
    StorageFailure(rusqlite::Error),
    /// A buffer has a size or a value that no earlier stage produces.
    InvalidInput,
}

} // verus!
