//! The audio formats that a query can ask for.

use vstd::prelude::*;
use crate::text::{all_alphanumeric, chars_of, spells};

verus! {

/// An audio container or codec.
#[derive(Debug, Clone, Copy, PartialEq, Eq)]
pub enum TrackFileType {
    Flac,
    Alac,
    Mp3,
    Aac,
    Vorbis,
    Opus,
    Wavpack,
}

impl TrackFileType {
    /// The short text by which a query names this format.
    pub open spec fn text(self) -> Seq<char> {
        match self {
            TrackFileType::Flac => "flac"@,
            TrackFileType::Alac => "alac"@,
            TrackFileType::Mp3 => "mp3"@,
            TrackFileType::Aac => "aac"@,
            TrackFileType::Vorbis => "vorbis"@,
            TrackFileType::Opus => "opus"@,
            TrackFileType::Wavpack => "wavpack"@,
        }
    }

    /// The format that `text` names, if any.
    pub open spec fn named(text: Seq<char>) -> Option<TrackFileType> {
        if text == "flac"@ {
            Some(TrackFileType::Flac)
        } else if text == "alac"@ {
            Some(TrackFileType::Alac)
        } else if text == "mp3"@ {
            Some(TrackFileType::Mp3)
        } else if text == "aac"@ {
            Some(TrackFileType::Aac)
        } else if text == "vorbis"@ {
            Some(TrackFileType::Vorbis)
        } else if text == "opus"@ {
            Some(TrackFileType::Opus)
        } else if text == "wavpack"@ {
            Some(TrackFileType::Wavpack)
        } else {
            None
        }
    }

    /// Reads a format from its short text.
    pub fn from_text(text: &str) -> (format: Option<TrackFileType>)
        ensures
            format == TrackFileType::named(text@),
    {
        let chars = chars_of(text);
        let chars = chars.as_slice();
        if spells(chars, "flac") {
            Some(TrackFileType::Flac)
        } else if spells(chars, "alac") {
            Some(TrackFileType::Alac)
        } else if spells(chars, "mp3") {
            Some(TrackFileType::Mp3)
        } else if spells(chars, "aac") {
            Some(TrackFileType::Aac)
        } else if spells(chars, "vorbis") {
            Some(TrackFileType::Vorbis)
        } else if spells(chars, "opus") {
            Some(TrackFileType::Opus)
        } else if spells(chars, "wavpack") {
            Some(TrackFileType::Wavpack)
        } else {
            None
        }
    }

    /// Every format is named by its own text, and by no other format's.
    pub proof fn lemma_named_text(self)
        ensures
            TrackFileType::named(self.text()) == Some(self),
    {
        reveal_strlit("flac");
        reveal_strlit("alac");
        reveal_strlit("mp3");
        reveal_strlit("aac");
        reveal_strlit("vorbis");
        reveal_strlit("opus");
        reveal_strlit("wavpack");
        // Length and first character tell the seven names apart.
        assert("flac"@.len() == 4 && "flac"@[0] == 'f');
        assert("alac"@.len() == 4 && "alac"@[0] == 'a');
        assert("mp3"@.len() == 3 && "mp3"@[0] == 'm');
        assert("aac"@.len() == 3 && "aac"@[0] == 'a');
        assert("vorbis"@.len() == 6);
        assert("opus"@.len() == 4 && "opus"@[0] == 'o');
        assert("wavpack"@.len() == 7);
    }

    /// The name of a format is written in ASCII letters and digits.
    pub proof fn lemma_text_alphanumeric(self)
        ensures
            all_alphanumeric(self.text()),
    {
        reveal_strlit("flac");
        reveal_strlit("alac");
        reveal_strlit("mp3");
        reveal_strlit("aac");
        reveal_strlit("vorbis");
        reveal_strlit("opus");
        reveal_strlit("wavpack");
        assert("flac"@.len() == 4 && "flac"@[0] == 'f' && "flac"@[1] == 'l' && "flac"@[2] == 'a' && "flac"@[3] == 'c');
        assert("alac"@.len() == 4 && "alac"@[0] == 'a' && "alac"@[1] == 'l' && "alac"@[2] == 'a' && "alac"@[3] == 'c');
        assert("mp3"@.len() == 3 && "mp3"@[0] == 'm' && "mp3"@[1] == 'p' && "mp3"@[2] == '3');
        assert("aac"@.len() == 3 && "aac"@[0] == 'a' && "aac"@[1] == 'a' && "aac"@[2] == 'c');
        assert("vorbis"@.len() == 6 && "vorbis"@[0] == 'v' && "vorbis"@[1] == 'o' && "vorbis"@[2] == 'r' && "vorbis"@[3] == 'b' && "vorbis"@[4] == 'i' && "vorbis"@[5] == 's');
        assert("opus"@.len() == 4 && "opus"@[0] == 'o' && "opus"@[1] == 'p' && "opus"@[2] == 'u' && "opus"@[3] == 's');
        assert("wavpack"@.len() == 7 && "wavpack"@[0] == 'w' && "wavpack"@[1] == 'a' && "wavpack"@[2] == 'v' && "wavpack"@[3] == 'p' && "wavpack"@[4] == 'a' && "wavpack"@[5] == 'c' && "wavpack"@[6] == 'k');
    }
}

} // verus!
