//! The tree that a query parses into.

use vstd::prelude::*;
use crate::track::TrackFileType;

verus! {

/// One filter predicate or combinator of a query.
#[derive(Debug, PartialEq, Eq)]
pub enum Bang {
    /// Matches every track.
    All,
    /// The title holds the text.
    TitleSearch(String),
    /// The title is the text.
    TitleSearchExact(String),
    /// Some tag holds the text.
    FullTextSearch(String),
    /// Some tag is the text.
    FullTextSearchExact(String),
    /// The album's title holds the text.
    AlbumTitle(String),
    /// The album's title is the text.
    AlbumTitleExact(String),
    /// The album's artists hold the text.
    AlbumArtists(String),
    /// The album's artists are the text.
    AlbumArtistsExact(String),
    /// The artist holds the text.
    Artist(String),
    /// The artist is the text.
    ArtistExact(String),
    /// The file has the format.
    Format(TrackFileType),
    /// The bitrate is below the bound.
    BitrateLessThan(i64),
    /// The bitrate is above the bound.
    BitrateGreaterThan(i64),
    /// The cover art is less wide than the bound.
    CoverArtWidthLessThan(i64),
    /// The cover art is wider than the bound.
    CoverArtWidthGreaterThan(i64),
    /// The cover art is less high than the bound.
    CoverArtHeightLessThan(i64),
    /// The cover art is higher than the bound.
    CoverArtHeightGreaterThan(i64),
    /// The track has cover art.
    HasCoverArt,
    /// The track has a MusicBrainz id.
    HasMusicbrainzId,
    /// The track is in the library more than once.
    Duplicates,
    /// A sub-query in delimiters.
    Grouping(Box<Bang>),
    /// Both sides match.
    LogicalAnd(Box<Bang>, Box<Bang>),
    /// One of the sides matches.
    LogicalOr(Box<Bang>, Box<Bang>),
}

/// What a [`Bang`] is, with text as a sequence of characters.
pub ghost enum BangView {
    All,
    TitleSearch(Seq<char>),
    TitleSearchExact(Seq<char>),
    FullTextSearch(Seq<char>),
    FullTextSearchExact(Seq<char>),
    AlbumTitle(Seq<char>),
    AlbumTitleExact(Seq<char>),
    AlbumArtists(Seq<char>),
    AlbumArtistsExact(Seq<char>),
    Artist(Seq<char>),
    ArtistExact(Seq<char>),
    Format(TrackFileType),
    BitrateLessThan(i64),
    BitrateGreaterThan(i64),
    CoverArtWidthLessThan(i64),
    CoverArtWidthGreaterThan(i64),
    CoverArtHeightLessThan(i64),
    CoverArtHeightGreaterThan(i64),
    HasCoverArt,
    HasMusicbrainzId,
    Duplicates,
    Grouping(Box<BangView>),
    LogicalAnd(Box<BangView>, Box<BangView>),
    LogicalOr(Box<BangView>, Box<BangView>),
}

impl Bang {
    /// The tree with each text as a sequence of characters.
    pub open spec fn model(self) -> BangView
        decreases self,
    {
        match self {
            Bang::All => BangView::All,
            Bang::TitleSearch(text) => BangView::TitleSearch(text@),
            Bang::TitleSearchExact(text) => BangView::TitleSearchExact(text@),
            Bang::FullTextSearch(text) => BangView::FullTextSearch(text@),
            Bang::FullTextSearchExact(text) => BangView::FullTextSearchExact(text@),
            Bang::AlbumTitle(text) => BangView::AlbumTitle(text@),
            Bang::AlbumTitleExact(text) => BangView::AlbumTitleExact(text@),
            Bang::AlbumArtists(text) => BangView::AlbumArtists(text@),
            Bang::AlbumArtistsExact(text) => BangView::AlbumArtistsExact(text@),
            Bang::Artist(text) => BangView::Artist(text@),
            Bang::ArtistExact(text) => BangView::ArtistExact(text@),
            Bang::Format(format) => BangView::Format(format),
            Bang::BitrateLessThan(bound) => BangView::BitrateLessThan(bound),
            Bang::BitrateGreaterThan(bound) => BangView::BitrateGreaterThan(bound),
            Bang::CoverArtWidthLessThan(bound) => BangView::CoverArtWidthLessThan(bound),
            Bang::CoverArtWidthGreaterThan(bound) => BangView::CoverArtWidthGreaterThan(bound),
            Bang::CoverArtHeightLessThan(bound) => BangView::CoverArtHeightLessThan(bound),
            Bang::CoverArtHeightGreaterThan(bound) => BangView::CoverArtHeightGreaterThan(bound),
            Bang::HasCoverArt => BangView::HasCoverArt,
            Bang::HasMusicbrainzId => BangView::HasMusicbrainzId,
            Bang::Duplicates => BangView::Duplicates,
            Bang::Grouping(inner) => BangView::Grouping(Box::new((*inner).model())),
            Bang::LogicalAnd(lhs, rhs) => BangView::LogicalAnd(
                Box::new((*lhs).model()),
                Box::new((*rhs).model()),
            ),
            Bang::LogicalOr(lhs, rhs) => BangView::LogicalOr(
                Box::new((*lhs).model()),
                Box::new((*rhs).model()),
            ),
        }
    }
}

impl View for Bang {
    type V = BangView;

    open spec fn view(&self) -> BangView {
        self.model()
    }
}

impl Clone for Bang {
    fn clone(&self) -> (copy: Bang)
        ensures
            copy@ == self@,
        decreases self,
    {
        match self {
            Bang::All => Bang::All,
            Bang::TitleSearch(text) => Bang::TitleSearch(text.clone()),
            Bang::TitleSearchExact(text) => Bang::TitleSearchExact(text.clone()),
            Bang::FullTextSearch(text) => Bang::FullTextSearch(text.clone()),
            Bang::FullTextSearchExact(text) => Bang::FullTextSearchExact(text.clone()),
            Bang::AlbumTitle(text) => Bang::AlbumTitle(text.clone()),
            Bang::AlbumTitleExact(text) => Bang::AlbumTitleExact(text.clone()),
            Bang::AlbumArtists(text) => Bang::AlbumArtists(text.clone()),
            Bang::AlbumArtistsExact(text) => Bang::AlbumArtistsExact(text.clone()),
            Bang::Artist(text) => Bang::Artist(text.clone()),
            Bang::ArtistExact(text) => Bang::ArtistExact(text.clone()),
            Bang::Format(format) => Bang::Format(*format),
            Bang::BitrateLessThan(bound) => Bang::BitrateLessThan(*bound),
            Bang::BitrateGreaterThan(bound) => Bang::BitrateGreaterThan(*bound),
            Bang::CoverArtWidthLessThan(bound) => Bang::CoverArtWidthLessThan(*bound),
            Bang::CoverArtWidthGreaterThan(bound) => Bang::CoverArtWidthGreaterThan(*bound),
            Bang::CoverArtHeightLessThan(bound) => Bang::CoverArtHeightLessThan(*bound),
            Bang::CoverArtHeightGreaterThan(bound) => Bang::CoverArtHeightGreaterThan(*bound),
            Bang::HasCoverArt => Bang::HasCoverArt,
            Bang::HasMusicbrainzId => Bang::HasMusicbrainzId,
            Bang::Duplicates => Bang::Duplicates,
            Bang::Grouping(inner) => Bang::Grouping(Box::new((**inner).clone())),
            Bang::LogicalAnd(lhs, rhs) => Bang::LogicalAnd(
                Box::new((**lhs).clone()),
                Box::new((**rhs).clone()),
            ),
            Bang::LogicalOr(lhs, rhs) => Bang::LogicalOr(
                Box::new((**lhs).clone()),
                Box::new((**rhs).clone()),
            ),
        }
    }
}

} // verus!
