//! Metadata of the audio files of the library.
use vstd::prelude::*;

use crate::text::{file_name_of, file_name_spec, or_empty, trim, trim_ws};

verus! {

/// The book id that a file carries before it is assigned to a book.
pub const UNASSIGNED_BOOK_ID: i64 = -99;

/// What is recorded of one audio file.
#[derive(Debug, Clone, PartialEq, Eq)]
pub struct BaseFileMetadata {
    pub book_id: i64,
    pub file_id: Option<i64>,
    pub file_name: String,
    pub file_path: String,
    pub duration: Option<i64>,
    pub channels: Option<i64>,
    pub sample_rate: Option<i64>,
    pub bitrate: Option<i64>,
}

/// The metadata of a stored file, with its row id.
#[derive(Debug, Clone, PartialEq, Eq)]
pub struct FileMetadata {
    pub id: i64,
    pub data: BaseFileMetadata,
}

/// The metadata of a file that is about to be stored.
pub type CreateFileMetadata = BaseFileMetadata;

impl CreateFileMetadata {
    /// Metadata of a file not yet assigned to a book.
    pub fn new(
        file_path: String,
        file_id: Option<i64>,
        file_name: String,
        duration: Option<i64>,
        channels: Option<i64>,
        sample_rate: Option<i64>,
        bitrate: Option<i64>,
    ) -> (m: CreateFileMetadata)
        ensures
            m.book_id == UNASSIGNED_BOOK_ID,
            m.file_id == file_id,
            m.file_name == file_name,
            m.file_path == file_path,
            m.duration == duration,
            m.channels == channels,
            m.sample_rate == sample_rate,
            m.bitrate == bitrate,
    {
        CreateFileMetadata {
            book_id: UNASSIGNED_BOOK_ID,
            file_id: file_id,
            file_name: file_name,
            file_path: file_path,
            duration: duration,
            channels: channels,
            sample_rate: sample_rate,
            bitrate: bitrate,
        }
    }

    /// The metadata known of a file from its path alone: the path without
    /// surrounding whitespace, and the final component of that path as the
    /// file name (empty when it has none).
    pub fn for_path(path: &str) -> (m: CreateFileMetadata)
        ensures
            m.book_id == UNASSIGNED_BOOK_ID,
            m.file_path@ == trim_ws(path@),
            m.file_name@ == or_empty(file_name_spec(trim_ws(path@))),
            m.file_id is None,
            m.duration is None,
            m.channels is None,
            m.sample_rate is None,
            m.bitrate is None,
    {
        let path_owned = trim(path);
        let file_name = file_name_of(path_owned.as_str());
        CreateFileMetadata::new(path_owned, None, file_name, None, None, None, None)
    }

    /// Records what the audio properties of the file give: its duration in
    /// milliseconds, converted with `as i64` (so wrapped when above
    /// `i64::MAX`), and its audio bitrate when known.
    pub fn set_audio_properties(&mut self, duration_millis: u128, audio_bitrate: Option<u32>)
        ensures
            final(self).duration == Some(duration_millis as i64),
            duration_millis <= i64::MAX ==> final(self).duration == Some(duration_millis as i64)
                && (duration_millis as i64) as int == duration_millis as int,
            final(self).bitrate == match audio_bitrate {
                Some(b) => Some(b as i64),
                None => None::<i64>,
            },
            final(self).book_id == old(self).book_id,
            final(self).file_id == old(self).file_id,
            final(self).file_name == old(self).file_name,
            final(self).file_path == old(self).file_path,
            final(self).channels == old(self).channels,
            final(self).sample_rate == old(self).sample_rate,
    {
        self.duration = Some(duration_millis as i64);
        self.bitrate = match audio_bitrate {
            Some(b) => Some(b as i64),
            None => None,
        };
    }
}

} // verus!
