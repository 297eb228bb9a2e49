use bangs::argument::FromArgument;
use bangs::bang::Bang;
use bangs::error::Error;
use bangs::mnemonic::{BangIdentifier, BangType};
use bangs::number::parse_decimal;
use bangs::text::{chars_of, same_text, text_between};
use bangs::token::Token;
use bangs::track::TrackFileType;

#[test]
fn decimal_reads_plain_numbers() {
    assert_eq!(parse_decimal("0"), Some(0));
    assert_eq!(parse_decimal("42"), Some(42));
    assert_eq!(parse_decimal("007"), Some(7));
    assert_eq!(parse_decimal("1234567890"), Some(1234567890));
}

#[test]
fn decimal_reads_a_sign() {
    assert_eq!(parse_decimal("-7"), Some(-7));
    assert_eq!(parse_decimal("+5"), Some(5));
    assert_eq!(parse_decimal("-0"), Some(0));
}

#[test]
fn decimal_reads_the_limits() {
    assert_eq!(parse_decimal("9223372036854775807"), Some(i64::MAX));
    assert_eq!(parse_decimal("-9223372036854775808"), Some(i64::MIN));
    assert_eq!(parse_decimal("9223372036854775808"), None);
    assert_eq!(parse_decimal("-9223372036854775809"), None);
    assert_eq!(parse_decimal("99999999999999999999999"), None);
}

#[test]
fn decimal_rejects_what_is_no_number() {
    for text in ["", "-", "+", "--1", "+-1", "1-", "12a", "a12", " 1", "1 ", "1.5", "0x10", "\u{0661}"] {
        assert_eq!(parse_decimal(text), None);
    }
}

#[test]
fn decimal_agrees_with_the_standard_reading() {
    for text in ["0", "-1", "+1", "", "-", "18446744073709551616", "١٢", "1_000", "-00012"] {
        assert_eq!(parse_decimal(text), text.parse::<i64>().ok());
    }
}

#[test]
fn formats_are_read_from_their_names() {
    assert_eq!(TrackFileType::from_text("flac"), Some(TrackFileType::Flac));
    assert_eq!(TrackFileType::from_text("alac"), Some(TrackFileType::Alac));
    assert_eq!(TrackFileType::from_text("mp3"), Some(TrackFileType::Mp3));
    assert_eq!(TrackFileType::from_text("aac"), Some(TrackFileType::Aac));
    assert_eq!(TrackFileType::from_text("vorbis"), Some(TrackFileType::Vorbis));
    assert_eq!(TrackFileType::from_text("opus"), Some(TrackFileType::Opus));
    assert_eq!(TrackFileType::from_text("wavpack"), Some(TrackFileType::Wavpack));
}

#[test]
fn other_names_are_no_format() {
    for text in ["", "Flac", "flac ", "fla", "wav", "mp4"] {
        assert_eq!(TrackFileType::from_text(text), None);
    }
}

#[test]
fn every_mnemonic_selects_its_predicate() {
    assert_eq!("t".as_bang_type(), BangType::TitleSearch);
    assert_eq!("T".as_bang_type(), BangType::TitleSearchExact);
    assert_eq!("q".as_bang_type(), BangType::FullTextSearch);
    assert_eq!("Q".as_bang_type(), BangType::FullTextSearchExact);
    assert_eq!("al".as_bang_type(), BangType::AlbumTitle);
    assert_eq!("AL".as_bang_type(), BangType::AlbumTitleExact);
    assert_eq!("alar".as_bang_type(), BangType::AlbumArtists);
    assert_eq!("ALAR".as_bang_type(), BangType::AlbumArtistsExact);
    assert_eq!("ar".as_bang_type(), BangType::Artist);
    assert_eq!("AR".as_bang_type(), BangType::ArtistExact);
    assert_eq!("f".as_bang_type(), BangType::Format);
    assert_eq!("brlt".as_bang_type(), BangType::BitrateLessThan);
    assert_eq!("brgt".as_bang_type(), BangType::BitrateGreaterThan);
    assert_eq!("cwlt".as_bang_type(), BangType::CoverArtWidthLessThan);
    assert_eq!("cwgt".as_bang_type(), BangType::CoverArtWidthGreaterThan);
    assert_eq!("chlt".as_bang_type(), BangType::CoverArtHeightLessThan);
    assert_eq!("chgt".as_bang_type(), BangType::CoverArtHeightGreaterThan);
    assert_eq!("c".as_bang_type(), BangType::HasCoverArt);
    assert_eq!("mb".as_bang_type(), BangType::HasMusicbrainzId);
    assert_eq!("dup".as_bang_type(), BangType::Duplicates);
    assert_eq!("!".as_bang_type(), BangType::Grouping);
}

#[test]
fn other_text_is_an_unknown_mnemonic() {
    for text in ["", "zz", "tt", "Al", "aL", "alar ", "F", "!!", "brl"] {
        assert_eq!(text.as_bang_type(), BangType::Unknown(text.to_owned()));
    }
}

#[test]
fn values_are_read_from_argument_text() {
    assert_eq!(String::from_argument("any {text}"), Some("any {text}".to_owned()));
    assert_eq!(String::from_argument(""), Some(String::new()));
    assert_eq!(i64::from_argument("-3"), Some(-3));
    assert_eq!(i64::from_argument("three"), None);
    assert_eq!(TrackFileType::from_argument("mp3"), Some(TrackFileType::Mp3));
    assert_eq!(TrackFileType::from_argument("mp"), None);
}

#[test]
fn same_text_compares_character_by_character() {
    assert!(same_text("", ""));
    assert!(same_text("alar", "alar"));
    assert!(same_text("\u{e9}t\u{e9}", "\u{e9}t\u{e9}"));
    assert!(!same_text("alar", "alaR"));
    assert!(!same_text("al", "alar"));
    assert!(!same_text("alar", "al"));
    assert!(!same_text("e\u{301}", "\u{e9}"));
}

#[test]
fn text_is_cut_by_characters() {
    assert_eq!(chars_of("a\u{e9}\u{1F3B5}"), vec!['a', '\u{e9}', '\u{1F3B5}']);
    assert_eq!(chars_of(""), Vec::<char>::new());
    assert_eq!(text_between("a\u{e9}\u{1F3B5}b", 1, 3), "\u{e9}\u{1F3B5}");
    assert_eq!(text_between("abc", 0, 3), "abc");
    assert_eq!(text_between("abc", 2, 2), "");
}

#[test]
fn clones_are_equal() {
    let tree = Bang::LogicalAnd(
        Box::new(Bang::Grouping(Box::new(Bang::Format(TrackFileType::Alac)))),
        Box::new(Bang::LogicalOr(
            Box::new(Bang::AlbumTitle("x".to_owned())),
            Box::new(Bang::CoverArtWidthLessThan(600)),
        )),
    );
    assert_eq!(tree.clone(), tree);
    for error in [
        Error::LexerUnexpectedEndOfInput,
        Error::ParserUnexpectedToken(Token::Argument("a".to_owned())),
        Error::ParserUnknownBang("zz".to_owned()),
        Error::ParserInvalidInput("x".to_owned()),
    ] {
        assert_eq!(error.clone(), error);
    }
}
