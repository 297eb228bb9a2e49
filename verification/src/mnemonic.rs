//! From the short identifier behind a prefix to the predicate that it selects.

use vstd::prelude::*;
use crate::text::{all_alphanumeric, chars_of, spells};

verus! {

/// The predicate or combinator that a mnemonic selects.
#[derive(Debug, PartialEq, Eq)]
pub enum BangType {
    TitleSearch,
    TitleSearchExact,
    FullTextSearch,
    FullTextSearchExact,
    AlbumTitle,
    AlbumTitleExact,
    AlbumArtists,
    AlbumArtistsExact,
    Artist,
    ArtistExact,
    Format,
    BitrateLessThan,
    BitrateGreaterThan,
    CoverArtWidthLessThan,
    CoverArtWidthGreaterThan,
    CoverArtHeightLessThan,
    CoverArtHeightGreaterThan,
    HasCoverArt,
    HasMusicbrainzId,
    Duplicates,
    Grouping,
    /// No predicate: the text is kept for the diagnostic.
    Unknown(String),
}

/// What a [`BangType`] is, with text as a sequence of characters.
pub ghost enum BangTypeView {
    TitleSearch,
    TitleSearchExact,
    FullTextSearch,
    FullTextSearchExact,
    AlbumTitle,
    AlbumTitleExact,
    AlbumArtists,
    AlbumArtistsExact,
    Artist,
    ArtistExact,
    Format,
    BitrateLessThan,
    BitrateGreaterThan,
    CoverArtWidthLessThan,
    CoverArtWidthGreaterThan,
    CoverArtHeightLessThan,
    CoverArtHeightGreaterThan,
    HasCoverArt,
    HasMusicbrainzId,
    Duplicates,
    Grouping,
    Unknown(Seq<char>),
}

impl View for BangType {
    type V = BangTypeView;

    open spec fn view(&self) -> BangTypeView {
        match self {
            BangType::TitleSearch => BangTypeView::TitleSearch,
            BangType::TitleSearchExact => BangTypeView::TitleSearchExact,
            BangType::FullTextSearch => BangTypeView::FullTextSearch,
            BangType::FullTextSearchExact => BangTypeView::FullTextSearchExact,
            BangType::AlbumTitle => BangTypeView::AlbumTitle,
            BangType::AlbumTitleExact => BangTypeView::AlbumTitleExact,
            BangType::AlbumArtists => BangTypeView::AlbumArtists,
            BangType::AlbumArtistsExact => BangTypeView::AlbumArtistsExact,
            BangType::Artist => BangTypeView::Artist,
            BangType::ArtistExact => BangTypeView::ArtistExact,
            BangType::Format => BangTypeView::Format,
            BangType::BitrateLessThan => BangTypeView::BitrateLessThan,
            BangType::BitrateGreaterThan => BangTypeView::BitrateGreaterThan,
            BangType::CoverArtWidthLessThan => BangTypeView::CoverArtWidthLessThan,
            BangType::CoverArtWidthGreaterThan => BangTypeView::CoverArtWidthGreaterThan,
            BangType::CoverArtHeightLessThan => BangTypeView::CoverArtHeightLessThan,
            BangType::CoverArtHeightGreaterThan => BangTypeView::CoverArtHeightGreaterThan,
            BangType::HasCoverArt => BangTypeView::HasCoverArt,
            BangType::HasMusicbrainzId => BangTypeView::HasMusicbrainzId,
            BangType::Duplicates => BangTypeView::Duplicates,
            BangType::Grouping => BangTypeView::Grouping,
            BangType::Unknown(text) => BangTypeView::Unknown(text@),
        }
    }
}

/// The table of mnemonics: what each identifier selects.
#[verifier::opaque]
pub open spec fn resolve(mnemonic: Seq<char>) -> BangTypeView {
    if mnemonic == "t"@ {
        BangTypeView::TitleSearch
    } else if mnemonic == "T"@ {
        BangTypeView::TitleSearchExact
    } else if mnemonic == "q"@ {
        BangTypeView::FullTextSearch
    } else if mnemonic == "Q"@ {
        BangTypeView::FullTextSearchExact
    } else if mnemonic == "al"@ {
        BangTypeView::AlbumTitle
    } else if mnemonic == "AL"@ {
        BangTypeView::AlbumTitleExact
    } else if mnemonic == "alar"@ {
        BangTypeView::AlbumArtists
    } else if mnemonic == "ALAR"@ {
        BangTypeView::AlbumArtistsExact
    } else if mnemonic == "ar"@ {
        BangTypeView::Artist
    } else if mnemonic == "AR"@ {
        BangTypeView::ArtistExact
    } else if mnemonic == "f"@ {
        BangTypeView::Format
    } else if mnemonic == "brlt"@ {
        BangTypeView::BitrateLessThan
    } else if mnemonic == "brgt"@ {
        BangTypeView::BitrateGreaterThan
    } else if mnemonic == "cwlt"@ {
        BangTypeView::CoverArtWidthLessThan
    } else if mnemonic == "cwgt"@ {
        BangTypeView::CoverArtWidthGreaterThan
    } else if mnemonic == "chlt"@ {
        BangTypeView::CoverArtHeightLessThan
    } else if mnemonic == "chgt"@ {
        BangTypeView::CoverArtHeightGreaterThan
    } else if mnemonic == "c"@ {
        BangTypeView::HasCoverArt
    } else if mnemonic == "mb"@ {
        BangTypeView::HasMusicbrainzId
    } else if mnemonic == "dup"@ {
        BangTypeView::Duplicates
    } else if mnemonic == "!"@ {
        BangTypeView::Grouping
    } else {
        BangTypeView::Unknown(mnemonic)
    }
}

/// The mnemonic that selects `kind`; for an unknown kind, the text that it
/// holds.
pub open spec fn mnemonic(kind: BangTypeView) -> Seq<char> {
    match kind {
        BangTypeView::TitleSearch => "t"@,
        BangTypeView::TitleSearchExact => "T"@,
        BangTypeView::FullTextSearch => "q"@,
        BangTypeView::FullTextSearchExact => "Q"@,
        BangTypeView::AlbumTitle => "al"@,
        BangTypeView::AlbumTitleExact => "AL"@,
        BangTypeView::AlbumArtists => "alar"@,
        BangTypeView::AlbumArtistsExact => "ALAR"@,
        BangTypeView::Artist => "ar"@,
        BangTypeView::ArtistExact => "AR"@,
        BangTypeView::Format => "f"@,
        BangTypeView::BitrateLessThan => "brlt"@,
        BangTypeView::BitrateGreaterThan => "brgt"@,
        BangTypeView::CoverArtWidthLessThan => "cwlt"@,
        BangTypeView::CoverArtWidthGreaterThan => "cwgt"@,
        BangTypeView::CoverArtHeightLessThan => "chlt"@,
        BangTypeView::CoverArtHeightGreaterThan => "chgt"@,
        BangTypeView::HasCoverArt => "c"@,
        BangTypeView::HasMusicbrainzId => "mb"@,
        BangTypeView::Duplicates => "dup"@,
        BangTypeView::Grouping => "!"@,
        BangTypeView::Unknown(text) => text,
    }
}

/// The mnemonics are distinct: each selects its own kind.
pub proof fn lemma_resolve_mnemonic(kind: BangTypeView)
    requires
        !(kind is Unknown),
    ensures
        resolve(mnemonic(kind)) == kind,
{
    reveal(resolve);
    reveal_strlit("t");
    reveal_strlit("T");
    reveal_strlit("q");
    reveal_strlit("Q");
    reveal_strlit("al");
    reveal_strlit("AL");
    reveal_strlit("alar");
    reveal_strlit("ALAR");
    reveal_strlit("ar");
    reveal_strlit("AR");
    reveal_strlit("f");
    reveal_strlit("brlt");
    reveal_strlit("brgt");
    reveal_strlit("cwlt");
    reveal_strlit("cwgt");
    reveal_strlit("chlt");
    reveal_strlit("chgt");
    reveal_strlit("c");
    reveal_strlit("mb");
    reveal_strlit("dup");
    reveal_strlit("!");
    assert("t"@.len() == 1 && "t"@[0] == 't');
    assert("T"@.len() == 1 && "T"@[0] == 'T');
    assert("q"@.len() == 1 && "q"@[0] == 'q');
    assert("Q"@.len() == 1 && "Q"@[0] == 'Q');
    assert("al"@.len() == 2 && "al"@[0] == 'a' && "al"@[1] == 'l');
    assert("AL"@.len() == 2 && "AL"@[0] == 'A' && "AL"@[1] == 'L');
    assert("alar"@.len() == 4 && "alar"@[0] == 'a' && "alar"@[1] == 'l' && "alar"@[2] == 'a' && "alar"@[3] == 'r');
    assert("ALAR"@.len() == 4 && "ALAR"@[0] == 'A' && "ALAR"@[1] == 'L' && "ALAR"@[2] == 'A' && "ALAR"@[3] == 'R');
    assert("ar"@.len() == 2 && "ar"@[0] == 'a' && "ar"@[1] == 'r');
    assert("AR"@.len() == 2 && "AR"@[0] == 'A' && "AR"@[1] == 'R');
    assert("f"@.len() == 1 && "f"@[0] == 'f');
    assert("brlt"@.len() == 4 && "brlt"@[0] == 'b' && "brlt"@[1] == 'r' && "brlt"@[2] == 'l' && "brlt"@[3] == 't');
    assert("brgt"@.len() == 4 && "brgt"@[0] == 'b' && "brgt"@[1] == 'r' && "brgt"@[2] == 'g' && "brgt"@[3] == 't');
    assert("cwlt"@.len() == 4 && "cwlt"@[0] == 'c' && "cwlt"@[1] == 'w' && "cwlt"@[2] == 'l' && "cwlt"@[3] == 't');
    assert("cwgt"@.len() == 4 && "cwgt"@[0] == 'c' && "cwgt"@[1] == 'w' && "cwgt"@[2] == 'g' && "cwgt"@[3] == 't');
    assert("chlt"@.len() == 4 && "chlt"@[0] == 'c' && "chlt"@[1] == 'h' && "chlt"@[2] == 'l' && "chlt"@[3] == 't');
    assert("chgt"@.len() == 4 && "chgt"@[0] == 'c' && "chgt"@[1] == 'h' && "chgt"@[2] == 'g' && "chgt"@[3] == 't');
    assert("c"@.len() == 1 && "c"@[0] == 'c');
    assert("mb"@.len() == 2 && "mb"@[0] == 'm' && "mb"@[1] == 'b');
    assert("dup"@.len() == 3 && "dup"@[0] == 'd' && "dup"@[1] == 'u' && "dup"@[2] == 'p');
    assert("!"@.len() == 1 && "!"@[0] == '!');
}

/// But for the grouping's, every mnemonic is a word of ASCII letters.
pub proof fn lemma_mnemonic_alphanumeric(kind: BangTypeView)
    requires
        !(kind is Unknown),
        !(kind is Grouping),
    ensures
        mnemonic(kind).len() > 0,
        all_alphanumeric(mnemonic(kind)),
{
    reveal_strlit("t");
    reveal_strlit("T");
    reveal_strlit("q");
    reveal_strlit("Q");
    reveal_strlit("al");
    reveal_strlit("AL");
    reveal_strlit("alar");
    reveal_strlit("ALAR");
    reveal_strlit("ar");
    reveal_strlit("AR");
    reveal_strlit("f");
    reveal_strlit("brlt");
    reveal_strlit("brgt");
    reveal_strlit("cwlt");
    reveal_strlit("cwgt");
    reveal_strlit("chlt");
    reveal_strlit("chgt");
    reveal_strlit("c");
    reveal_strlit("mb");
    reveal_strlit("dup");
    assert("t"@.len() == 1 && "t"@[0] == 't');
    assert("T"@.len() == 1 && "T"@[0] == 'T');
    assert("q"@.len() == 1 && "q"@[0] == 'q');
    assert("Q"@.len() == 1 && "Q"@[0] == 'Q');
    assert("al"@.len() == 2 && "al"@[0] == 'a' && "al"@[1] == 'l');
    assert("AL"@.len() == 2 && "AL"@[0] == 'A' && "AL"@[1] == 'L');
    assert("alar"@.len() == 4 && "alar"@[0] == 'a' && "alar"@[1] == 'l' && "alar"@[2] == 'a' && "alar"@[3] == 'r');
    assert("ALAR"@.len() == 4 && "ALAR"@[0] == 'A' && "ALAR"@[1] == 'L' && "ALAR"@[2] == 'A' && "ALAR"@[3] == 'R');
    assert("ar"@.len() == 2 && "ar"@[0] == 'a' && "ar"@[1] == 'r');
    assert("AR"@.len() == 2 && "AR"@[0] == 'A' && "AR"@[1] == 'R');
    assert("f"@.len() == 1 && "f"@[0] == 'f');
    assert("brlt"@.len() == 4 && "brlt"@[0] == 'b' && "brlt"@[1] == 'r' && "brlt"@[2] == 'l' && "brlt"@[3] == 't');
    assert("brgt"@.len() == 4 && "brgt"@[0] == 'b' && "brgt"@[1] == 'r' && "brgt"@[2] == 'g' && "brgt"@[3] == 't');
    assert("cwlt"@.len() == 4 && "cwlt"@[0] == 'c' && "cwlt"@[1] == 'w' && "cwlt"@[2] == 'l' && "cwlt"@[3] == 't');
    assert("cwgt"@.len() == 4 && "cwgt"@[0] == 'c' && "cwgt"@[1] == 'w' && "cwgt"@[2] == 'g' && "cwgt"@[3] == 't');
    assert("chlt"@.len() == 4 && "chlt"@[0] == 'c' && "chlt"@[1] == 'h' && "chlt"@[2] == 'l' && "chlt"@[3] == 't');
    assert("chgt"@.len() == 4 && "chgt"@[0] == 'c' && "chgt"@[1] == 'h' && "chgt"@[2] == 'g' && "chgt"@[3] == 't');
    assert("c"@.len() == 1 && "c"@[0] == 'c');
    assert("mb"@.len() == 2 && "mb"@[0] == 'm' && "mb"@[1] == 'b');
    assert("dup"@.len() == 3 && "dup"@[0] == 'd' && "dup"@[1] == 'u' && "dup"@[2] == 'p');
}

/// Text that the table does not hold is handed back as it is.
pub proof fn lemma_resolve_unknown(text: Seq<char>)
    ensures
        resolve(text) is Unknown ==> resolve(text) == BangTypeView::Unknown(text),
{
    reveal(resolve);
}

/// Text that can stand behind a prefix as a mnemonic.
pub trait BangIdentifier {
    /// The predicate that this text selects; unknown text is handed back in `Unknown`.
    fn as_bang_type(&self) -> (kind: BangType);
}

impl BangIdentifier for str {
    fn as_bang_type(&self) -> (kind: BangType)
        ensures
            kind@ == resolve(self@),
    {
        reveal(resolve);
        let chars = chars_of(self);
        let chars = chars.as_slice();
        if spells(chars, "t") {
            BangType::TitleSearch
        } else if spells(chars, "T") {
            BangType::TitleSearchExact
        } else if spells(chars, "q") {
            BangType::FullTextSearch
        } else if spells(chars, "Q") {
            BangType::FullTextSearchExact
        } else if spells(chars, "al") {
            BangType::AlbumTitle
        } else if spells(chars, "AL") {
            BangType::AlbumTitleExact
        } else if spells(chars, "alar") {
            BangType::AlbumArtists
        } else if spells(chars, "ALAR") {
            BangType::AlbumArtistsExact
        } else if spells(chars, "ar") {
            BangType::Artist
        } else if spells(chars, "AR") {
            BangType::ArtistExact
        } else if spells(chars, "f") {
            BangType::Format
        } else if spells(chars, "brlt") {
            BangType::BitrateLessThan
        } else if spells(chars, "brgt") {
            BangType::BitrateGreaterThan
        } else if spells(chars, "cwlt") {
            BangType::CoverArtWidthLessThan
        } else if spells(chars, "cwgt") {
            BangType::CoverArtWidthGreaterThan
        } else if spells(chars, "chlt") {
            BangType::CoverArtHeightLessThan
        } else if spells(chars, "chgt") {
            BangType::CoverArtHeightGreaterThan
        } else if spells(chars, "c") {
            BangType::HasCoverArt
        } else if spells(chars, "mb") {
            BangType::HasMusicbrainzId
        } else if spells(chars, "dup") {
            BangType::Duplicates
        } else if spells(chars, "!") {
            BangType::Grouping
        } else {
            BangType::Unknown(self.to_owned())
        }
    }
}

} // verus!
