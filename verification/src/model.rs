//! The in-memory dictionary model, and the ghost view of each record.

use vstd::prelude::*;

verus! {

/// A whole loaded dictionary: header metadata and the character entries in
/// document order.
#[derive(Debug)]
pub struct Kanjidic {
    pub file_version: u32,
    pub database_version: String,
    pub creation_date: String,
    pub entries: Vec<Entry>,
}

/// One character record.
#[derive(Debug)]
pub struct Entry {
    pub literal: String,
    pub codepoints: Vec<Codepoint>,
    pub reading_meanings: Vec<ReadingMeaning>,
    pub nanori_readings: Vec<String>,
    pub radicals: Vec<Radical>,
    pub stroke_count: u32,
    pub stroke_miscounts: Vec<u32>,
    pub grade: Option<Grade>,
    pub freq: Option<u32>,
    pub old_jlpt: Option<u32>,
    pub dic_refs: Vec<DicRef>,
}

/// The character's identifier under one encoding standard.
#[derive(Debug)]
pub struct Codepoint {
    pub standard: String,
    pub value: String,
}

/// A group of readings and meanings that share one sense grouping.
#[derive(Debug)]
pub struct ReadingMeaning {
    pub readings: Vec<Reading>,
    pub meanings: Vec<Meaning>,
}

/// A phonetic value tagged with its kind.
#[derive(Debug)]
pub struct Reading {
    pub value: String,
    pub typ: ReadingType,
}

/// The kind of a reading. The `bool` on the two Japanese forms says whether
/// the reading carries an approval-status attribute at all.
#[derive(Debug, Clone, Copy, PartialEq, Eq, Structural)]
pub enum ReadingType {
    Pinyin,
    KoreanR,
    KoreanH,
    Vietnam,
    Onyomi(bool, OnyomiType),
    Kunyomi(bool),
}

/// The borrowing origin of a Sino-Japanese reading.
#[derive(Debug, Clone, Copy, PartialEq, Eq, Structural)]
pub enum OnyomiType {
    Kan,
    Go,
    Tou,
    Kanyou,
    Unspecified,
}

/// Free-text meaning with its language tag.
#[derive(Debug)]
pub struct Meaning {
    pub content: String,
    pub language: String,
}

/// A classificatory component of the character.
#[derive(Debug)]
pub struct Radical {
    pub classification: RadicalType,
    pub value: String,
}

/// The classification scheme a radical belongs to.
#[derive(Debug, Clone, Copy, PartialEq, Eq, Structural)]
pub enum RadicalType {
    Classical,
    NelsonC,
}

/// When the character is taught or standardized.
#[derive(Debug, Clone, Copy, PartialEq, Eq, Structural)]
pub enum Grade {
    Kyouiku(u32),
    Jouyou,
    Jinmeiyou,
    JouyouVariant,
}

/// A cross-reference into one external dictionary, carrying its reference
/// string. `Moro` additionally carries optional volume and page numbers.
#[derive(Debug)]
pub enum DicRef {
    NelsonC(String),
    NelsonN(String),
    HalpernNJECD(String),
    HalpernKKD(String),
    HalpernKKLD(String),
    HalpernKKLD2(String),
    Heisig(String),
    Heisig6(String),
    Gakken(String),
    OneillNames(String),
    OneillKK(String),
    NeillKK(String),
    Moro(String, Option<u32>, Option<u32>),
    Henshall(String),
    SHKK(String),
    SHKK2(String),
    Sakade(String),
    JFCards(String),
    Henshall3(String),
    TuttCards(String),
    Crowley(String),
    InContext(String),
    BusyPeople(String),
    KodanshaCompact(String),
    Maniette(String),
}

/// One load failure, identifying what was wrong and where.
#[derive(Debug)]
pub enum ParseError {
    /// The text is not a well-formed document; carries the markup error's
    /// message.
    Markup(String),
    /// A mandatory element, or its text content, is absent; names the tag.
    MissingTag(String),
    /// A mandatory attribute is absent; names the attribute.
    MissingAttribute(String),
    /// A value is outside its closed set; carries the offending value and
    /// every accepted value.
    InvalidEnum(String, Vec<String>),
    /// Text expected to be an unsigned integer is not parseable as one,
    /// or names no valid value (a stroke count of zero).
    BadNumber(String),
    /// A radical index with no corresponding value in the lookup table.
    RadicalOutOfRange(u32),
}

pub ghost struct KanjidicV {
    pub file_version: u32,
    pub database_version: Seq<char>,
    pub creation_date: Seq<char>,
    pub entries: Seq<EntryV>,
}

pub ghost struct EntryV {
    pub literal: Seq<char>,
    pub codepoints: Seq<CodepointV>,
    pub reading_meanings: Seq<ReadingMeaningV>,
    pub nanori_readings: Seq<Seq<char>>,
    pub radicals: Seq<RadicalV>,
    pub stroke_count: u32,
    pub stroke_miscounts: Seq<u32>,
    pub grade: Option<Grade>,
    pub freq: Option<u32>,
    pub old_jlpt: Option<u32>,
    pub dic_refs: Seq<DicRefV>,
}

pub ghost struct CodepointV {
    pub standard: Seq<char>,
    pub value: Seq<char>,
}

pub ghost struct ReadingMeaningV {
    pub readings: Seq<ReadingV>,
    pub meanings: Seq<MeaningV>,
}

pub ghost struct ReadingV {
    pub value: Seq<char>,
    pub typ: ReadingType,
}

pub ghost struct MeaningV {
    pub content: Seq<char>,
    pub language: Seq<char>,
}

pub ghost struct RadicalV {
    pub classification: RadicalType,
    pub value: Seq<char>,
}

pub ghost enum DicRefV {
    NelsonC(Seq<char>),
    NelsonN(Seq<char>),
    HalpernNJECD(Seq<char>),
    HalpernKKD(Seq<char>),
    HalpernKKLD(Seq<char>),
    HalpernKKLD2(Seq<char>),
    Heisig(Seq<char>),
    Heisig6(Seq<char>),
    Gakken(Seq<char>),
    OneillNames(Seq<char>),
    OneillKK(Seq<char>),
    NeillKK(Seq<char>),
    Moro(Seq<char>, Option<u32>, Option<u32>),
    Henshall(Seq<char>),
    SHKK(Seq<char>),
    SHKK2(Seq<char>),
    Sakade(Seq<char>),
    JFCards(Seq<char>),
    Henshall3(Seq<char>),
    TuttCards(Seq<char>),
    Crowley(Seq<char>),
    InContext(Seq<char>),
    BusyPeople(Seq<char>),
    KodanshaCompact(Seq<char>),
    Maniette(Seq<char>),
}

pub ghost enum ParseErrorV {
    Markup(Seq<char>),
    MissingTag(Seq<char>),
    MissingAttribute(Seq<char>),
    InvalidEnum(Seq<char>, Seq<Seq<char>>),
    BadNumber(Seq<char>),
    RadicalOutOfRange(u32),
}

impl View for Codepoint {
    type V = CodepointV;

    open spec fn view(&self) -> CodepointV {
        CodepointV { standard: self.standard@, value: self.value@ }
    }
}

impl View for Meaning {
    type V = MeaningV;

    open spec fn view(&self) -> MeaningV {
        MeaningV { content: self.content@, language: self.language@ }
    }
}

impl View for Reading {
    type V = ReadingV;

    open spec fn view(&self) -> ReadingV {
        ReadingV { value: self.value@, typ: self.typ }
    }
}

impl View for ReadingMeaning {
    type V = ReadingMeaningV;

    open spec fn view(&self) -> ReadingMeaningV {
        ReadingMeaningV {
            readings: self.readings@.map_values(|r: Reading| r@),
            meanings: self.meanings@.map_values(|m: Meaning| m@),
        }
    }
}

impl View for Radical {
    type V = RadicalV;

    open spec fn view(&self) -> RadicalV {
        RadicalV { classification: self.classification, value: self.value@ }
    }
}

impl View for DicRef {
    type V = DicRefV;

    open spec fn view(&self) -> DicRefV {
        match self {
            DicRef::NelsonC(s) => DicRefV::NelsonC(s@),
            DicRef::NelsonN(s) => DicRefV::NelsonN(s@),
            DicRef::HalpernNJECD(s) => DicRefV::HalpernNJECD(s@),
            DicRef::HalpernKKD(s) => DicRefV::HalpernKKD(s@),
            DicRef::HalpernKKLD(s) => DicRefV::HalpernKKLD(s@),
            DicRef::HalpernKKLD2(s) => DicRefV::HalpernKKLD2(s@),
            DicRef::Heisig(s) => DicRefV::Heisig(s@),
            DicRef::Heisig6(s) => DicRefV::Heisig6(s@),
            DicRef::Gakken(s) => DicRefV::Gakken(s@),
            DicRef::OneillNames(s) => DicRefV::OneillNames(s@),
            DicRef::OneillKK(s) => DicRefV::OneillKK(s@),
            DicRef::NeillKK(s) => DicRefV::NeillKK(s@),
            DicRef::Moro(s, v, p) => DicRefV::Moro(s@, *v, *p),
            DicRef::Henshall(s) => DicRefV::Henshall(s@),
            DicRef::SHKK(s) => DicRefV::SHKK(s@),
            DicRef::SHKK2(s) => DicRefV::SHKK2(s@),
            DicRef::Sakade(s) => DicRefV::Sakade(s@),
            DicRef::JFCards(s) => DicRefV::JFCards(s@),
            DicRef::Henshall3(s) => DicRefV::Henshall3(s@),
            DicRef::TuttCards(s) => DicRefV::TuttCards(s@),
            DicRef::Crowley(s) => DicRefV::Crowley(s@),
            DicRef::InContext(s) => DicRefV::InContext(s@),
            DicRef::BusyPeople(s) => DicRefV::BusyPeople(s@),
            DicRef::KodanshaCompact(s) => DicRefV::KodanshaCompact(s@),
            DicRef::Maniette(s) => DicRefV::Maniette(s@),
        }
    }
}

impl View for Entry {
    type V = EntryV;

    open spec fn view(&self) -> EntryV {
        EntryV {
            literal: self.literal@,
            codepoints: self.codepoints@.map_values(|c: Codepoint| c@),
            reading_meanings: self.reading_meanings@.map_values(|r: ReadingMeaning| r@),
            nanori_readings: self.nanori_readings@.map_values(|s: String| s@),
            radicals: self.radicals@.map_values(|r: Radical| r@),
            stroke_count: self.stroke_count,
            stroke_miscounts: self.stroke_miscounts@,
            grade: self.grade,
            freq: self.freq,
            old_jlpt: self.old_jlpt,
            dic_refs: self.dic_refs@.map_values(|d: DicRef| d@),
        }
    }
}

impl View for Kanjidic {
    type V = KanjidicV;

    open spec fn view(&self) -> KanjidicV {
        KanjidicV {
            file_version: self.file_version,
            database_version: self.database_version@,
            creation_date: self.creation_date@,
            entries: self.entries@.map_values(|e: Entry| e@),
        }
    }
}

impl View for ParseError {
    type V = ParseErrorV;

    open spec fn view(&self) -> ParseErrorV {
        match self {
            ParseError::Markup(s) => ParseErrorV::Markup(s@),
            ParseError::MissingTag(s) => ParseErrorV::MissingTag(s@),
            ParseError::MissingAttribute(s) => ParseErrorV::MissingAttribute(s@),
            ParseError::InvalidEnum(s, vs) => ParseErrorV::InvalidEnum(
                s@,
                vs@.map_values(|v: String| v@),
            ),
            ParseError::BadNumber(s) => ParseErrorV::BadNumber(s@),
            ParseError::RadicalOutOfRange(i) => ParseErrorV::RadicalOutOfRange(*i),
        }
    }
}

/// The view of a parse result: the view of whichever side it holds.
pub open spec fn result_view<T: View, E: View>(r: Result<T, E>) -> Result<T::V, E::V> {
    match r {
        Ok(t) => Ok(t@),
        Err(e) => Err(e@),
    }
}

} // verus!
