//! The decode pipeline: from the document tree to the typed model.
//!
//! Each spec function here says exactly what the matching executable parser
//! returns — the decoded record for the inputs the format allows, and which
//! failure comes first otherwise. The executable parsers walk the parsed
//! tree through the trusted navigation wrappers and are proved equal to
//! these functions.

use crate::model::{
    Codepoint, CodepointV, DicRef, DicRefV, Entry, EntryV, Grade, Kanjidic, KanjidicV, Meaning,
    MeaningV, OnyomiType, ParseError, ParseErrorV, Radical, RadicalType, RadicalV, Reading,
    ReadingMeaning, ReadingMeaningV, ReadingType, ReadingV, result_view,
};
use crate::num::{dec_str, parse_u32, parse_u32_spec};
use crate::num::u32_to_string;
use crate::radicals::{RadicalTable, lookup_spec};
use crate::xml::{
    NodeV, doc_root, node_attr, node_child, node_child_count, node_tag, node_text, node_view,
    xml_doc_of, xml_parse,
};
use vstd::prelude::*;
use vstd::string::StrSliceExecFns;

verus! {

/// Character-by-character string equality, proved equivalent to equality
/// of the views.
pub fn str_eq(a: &str, b: &str) -> (r: bool)
    ensures
        r == (a@ == b@),
{
    let n: usize = a.unicode_len();
    if n != b.unicode_len() {
        return false;
    }
    let mut i: usize = 0;
    while i < n
        invariant
            n == a@.len(),
            n == b@.len(),
            i <= n,
            forall|k: int| 0 <= k < i ==> a@[k] == b@[k],
        decreases n - i,
    {
        if a.get_char(i) != b.get_char(i) {
            return false;
        }
        i = i + 1;
    }
    proof {
        assert(a@ =~= b@);
    }
    true
}

/// Folds `step` over `cs` from the front, stopping at the first failure.
pub open spec fn fold_nodes<A>(
    cs: Seq<NodeV>,
    init: A,
    step: spec_fn(A, NodeV) -> Result<A, ParseErrorV>,
) -> Result<A, ParseErrorV>
    decreases cs.len(),
{
    if cs.len() == 0 {
        Ok(init)
    } else {
        match fold_nodes(cs.drop_last(), init, step) {
            Err(e) => Err(e),
            Ok(a) => step(a, cs.last()),
        }
    }
}

/// A failure while folding a prefix decides the fold of the whole list.
pub proof fn lemma_fold_nodes_err<A>(
    cs: Seq<NodeV>,
    init: A,
    step: spec_fn(A, NodeV) -> Result<A, ParseErrorV>,
    k: int,
)
    requires
        0 <= k <= cs.len(),
        fold_nodes(cs.take(k), init, step) is Err,
    ensures
        fold_nodes(cs, init, step) == fold_nodes(cs.take(k), init, step),
    decreases cs.len(),
{
    if k == cs.len() {
        assert(cs.take(k) =~= cs);
    } else {
        assert(cs.drop_last().take(k) =~= cs.take(k));
        lemma_fold_nodes_err(cs.drop_last(), init, step, k);
    }
}

/// One more element extends the fold of a prefix by one step.
pub proof fn lemma_fold_nodes_step<A>(
    cs: Seq<NodeV>,
    init: A,
    step: spec_fn(A, NodeV) -> Result<A, ParseErrorV>,
    k: int,
)
    requires
        0 <= k < cs.len(),
    ensures
        fold_nodes(cs.take(k + 1), init, step) == match fold_nodes(cs.take(k), init, step) {
            Err(e) => Err(e),
            Ok(a) => step(a, cs[k]),
        },
{
    assert(cs.take(k + 1).drop_last() =~= cs.take(k));
    assert(cs.take(k + 1).last() == cs[k]);
}

/// The first child with the given tag, if any.
pub open spec fn find_tag(cs: Seq<NodeV>, tag: Seq<char>) -> Option<NodeV>
    decreases cs.len(),
{
    if cs.len() == 0 {
        None
    } else if cs[0].tag == tag {
        Some(cs[0])
    } else {
        find_tag(cs.drop_first(), tag)
    }
}

pub proof fn lemma_find_tag_none(cs: Seq<NodeV>, tag: Seq<char>)
    requires
        forall|k: int| 0 <= k < cs.len() ==> (#[trigger] cs[k]).tag != tag,
    ensures
        find_tag(cs, tag) is None,
    decreases cs.len(),
{
    if cs.len() > 0 {
        lemma_find_tag_none(cs.drop_first(), tag);
    }
}

pub proof fn lemma_find_tag_at(cs: Seq<NodeV>, tag: Seq<char>, i: int)
    requires
        0 <= i < cs.len(),
        cs[i].tag == tag,
        forall|k: int| 0 <= k < i ==> (#[trigger] cs[k]).tag != tag,
    ensures
        find_tag(cs, tag) == Some(cs[i]),
    decreases i,
{
    if i > 0 {
        lemma_find_tag_at(cs.drop_first(), tag, i - 1);
    }
}

/// The element's text content: fails, naming the tag, when the content is
/// absent or empty.
pub open spec fn text_spec(n: NodeV) -> Result<Seq<char>, ParseErrorV> {
    match n.text {
        Some(t) => if t.len() > 0 {
            Ok(t)
        } else {
            Err(ParseErrorV::MissingTag(n.tag))
        },
        None => Err(ParseErrorV::MissingTag(n.tag)),
    }
}

/// The value of a mandatory attribute: fails, naming the attribute, when it
/// is absent.
pub open spec fn attr_spec(n: NodeV, name: Seq<char>) -> Result<Seq<char>, ParseErrorV> {
    if n.attrs.contains_key(name) {
        Ok(n.attrs[name])
    } else {
        Err(ParseErrorV::MissingAttribute(name))
    }
}

pub open spec fn codepoint_spec(n: NodeV) -> Result<CodepointV, ParseErrorV> {
    match attr_spec(n, "cp_type"@) {
        Err(e) => Err(e),
        Ok(standard) => match text_spec(n) {
            Err(e) => Err(e),
            Ok(value) => Ok(CodepointV { standard, value }),
        },
    }
}

/// The two accepted radical classification labels.
pub open spec fn radical_valids() -> Seq<Seq<char>> {
    seq!["classical"@, "nelson_c"@]
}

pub open spec fn radical_spec(n: NodeV, table: Seq<Seq<char>>) -> Result<RadicalV, ParseErrorV> {
    match attr_spec(n, "rad_type"@) {
        Err(e) => Err(e),
        Ok(cls) => if cls == "classical"@ || cls == "nelson_c"@ {
            match text_spec(n) {
                Err(e) => Err(e),
                Ok(t) => match parse_u32_spec(t) {
                    None => Err(ParseErrorV::BadNumber(t)),
                    Some(i) => match lookup_spec(table, i) {
                        Err(e) => Err(e),
                        Ok(v) => Ok(
                            RadicalV {
                                classification: if cls == "classical"@ {
                                    RadicalType::Classical
                                } else {
                                    RadicalType::NelsonC
                                },
                                value: v,
                            },
                        ),
                    },
                },
            }
        } else {
            Err(ParseErrorV::InvalidEnum(cls, radical_valids()))
        },
    }
}

/// The grade for a source value: school years one through six, then the
/// three standardized tiers; anything else is outside the closed set.
pub open spec fn grade_of(i: u32) -> Option<Grade> {
    if 1 <= i <= 6 {
        Some(Grade::Kyouiku(i))
    } else if i == 8 {
        Some(Grade::Jouyou)
    } else if i == 9 {
        Some(Grade::Jinmeiyou)
    } else if i == 10 {
        Some(Grade::JouyouVariant)
    } else {
        None
    }
}

/// The nine accepted grade source values.
pub open spec fn grade_valids() -> Seq<Seq<char>> {
    seq!["1"@, "2"@, "3"@, "4"@, "5"@, "6"@, "8"@, "9"@, "10"@]
}

/// The misc group under construction: every reported stroke count in order,
/// and the first seen grade, frequency and legacy-JLPT values — each is at
/// most one value per entry, and the first occurrence wins. A later
/// occurrence is still validated, only its value is not taken.
pub ghost struct MiscAcc {
    pub strokes: Seq<u32>,
    pub grade: Option<Grade>,
    pub freq: Option<u32>,
    pub jlpt: Option<u32>,
}

/// The finished misc group.
pub ghost struct MiscV {
    pub stroke_count: u32,
    pub stroke_miscounts: Seq<u32>,
    pub grade: Option<Grade>,
    pub freq: Option<u32>,
    pub jlpt: Option<u32>,
}

pub open spec fn misc_step() -> spec_fn(MiscAcc, NodeV) -> Result<MiscAcc, ParseErrorV> {
    |acc: MiscAcc, c: NodeV|
        {
            if c.tag == "grade"@ {
                match text_spec(c) {
                    Err(e) => Err(e),
                    Ok(t) => match parse_u32_spec(t) {
                        None => Err(ParseErrorV::BadNumber(t)),
                        Some(i) => match grade_of(i) {
                            Some(g) => Ok(
                                MiscAcc {
                                    grade: if acc.grade is None {
                                        Some(g)
                                    } else {
                                        acc.grade
                                    },
                                    ..acc
                                },
                            ),
                            None => Err(ParseErrorV::InvalidEnum(dec_str(i as int), grade_valids())),
                        },
                    },
                }
            } else if c.tag == "stroke_count"@ {
                match text_spec(c) {
                    Err(e) => Err(e),
                    Ok(t) => match parse_u32_spec(t) {
                        None => Err(ParseErrorV::BadNumber(t)),
                        Some(i) => if i >= 1 {
                            Ok(MiscAcc { strokes: acc.strokes.push(i), ..acc })
                        } else {
                            Err(ParseErrorV::BadNumber(t))
                        },
                    },
                }
            } else if c.tag == "freq"@ {
                match text_spec(c) {
                    Err(e) => Err(e),
                    Ok(t) => match parse_u32_spec(t) {
                        None => Err(ParseErrorV::BadNumber(t)),
                        Some(i) => Ok(
                            MiscAcc {
                                freq: if acc.freq is None {
                                    Some(i)
                                } else {
                                    acc.freq
                                },
                                ..acc
                            },
                        ),
                    },
                }
            } else if c.tag == "jlpt"@ {
                match text_spec(c) {
                    Err(e) => Err(e),
                    Ok(t) => match parse_u32_spec(t) {
                        None => Err(ParseErrorV::BadNumber(t)),
                        Some(i) => Ok(
                            MiscAcc {
                                jlpt: if acc.jlpt is None {
                                    Some(i)
                                } else {
                                    acc.jlpt
                                },
                                ..acc
                            },
                        ),
                    },
                }
            } else {
                Ok(acc)
            }
        }
}

pub open spec fn empty_misc_acc() -> MiscAcc {
    MiscAcc { strokes: Seq::empty(), grade: None, freq: None, jlpt: None }
}

/// The misc group of one character: the first reported stroke count is
/// canonical, the rest are miscounts; a group without one is a failure
/// naming the stroke-count tag, and a reported count of zero is a
/// conversion failure — every kept count is at least one.
pub open spec fn misc_spec(n: NodeV) -> Result<MiscV, ParseErrorV> {
    match fold_nodes(n.children, empty_misc_acc(), misc_step()) {
        Err(e) => Err(e),
        Ok(acc) => if acc.strokes.len() == 0 {
            Err(ParseErrorV::MissingTag("stroke_count"@))
        } else {
            Ok(
                MiscV {
                    stroke_count: acc.strokes[0],
                    stroke_miscounts: acc.strokes.drop_first(),
                    grade: acc.grade,
                    freq: acc.freq,
                    jlpt: acc.jlpt,
                },
            )
        },
    }
}

/// Every accepted dictionary-reference type label.
pub open spec fn dic_ref_valids() -> Seq<Seq<char>> {
    seq![
        "nelson_c"@,
        "nelson_n"@,
        "halpern_njecd"@,
        "halpern_kkd"@,
        "halpern_kkld"@,
        "halpern_kkld_2ed"@,
        "heisig"@,
        "heisig6"@,
        "gakken"@,
        "oneill_names"@,
        "oneill_kk"@,
        "henshall"@,
        "henshall3"@,
        "sh_kk"@,
        "sh_kk2"@,
        "sakade"@,
        "jf_cards"@,
        "tutt_cards"@,
        "crowley"@,
        "kanji_in_context"@,
        "busy_people"@,
        "kodansha_compact"@,
        "maniette"@,
        "moro"@,
    ]
}

/// An optional numeric attribute of a `moro` reference: absent is fine,
/// present but non-numeric is a failure.
pub open spec fn moro_num_attr(n: NodeV, name: Seq<char>) -> Result<Option<u32>, ParseErrorV> {
    if n.attrs.contains_key(name) {
        match parse_u32_spec(n.attrs[name]) {
            Some(v) => Ok(Some(v)),
            None => Err(ParseErrorV::BadNumber(n.attrs[name])),
        }
    } else {
        Ok(None)
    }
}

pub open spec fn dic_ref_spec(n: NodeV) -> Result<DicRefV, ParseErrorV> {
    match text_spec(n) {
        Err(e) => Err(e),
        Ok(num) => match attr_spec(n, "dr_type"@) {
            Err(e) => Err(e),
            Ok(t) => if t == "nelson_c"@ {
                Ok(DicRefV::NelsonC(num))
            } else if t == "nelson_n"@ {
                Ok(DicRefV::NelsonN(num))
            } else if t == "halpern_njecd"@ {
                Ok(DicRefV::HalpernNJECD(num))
            } else if t == "halpern_kkd"@ {
                Ok(DicRefV::HalpernKKD(num))
            } else if t == "halpern_kkld"@ {
                Ok(DicRefV::HalpernKKLD(num))
            } else if t == "halpern_kkld_2ed"@ {
                Ok(DicRefV::HalpernKKLD2(num))
            } else if t == "heisig"@ {
                Ok(DicRefV::Heisig(num))
            } else if t == "heisig6"@ {
                Ok(DicRefV::Heisig6(num))
            } else if t == "gakken"@ {
                Ok(DicRefV::Gakken(num))
            } else if t == "oneill_names"@ {
                Ok(DicRefV::OneillNames(num))
            } else if t == "oneill_kk"@ {
                Ok(DicRefV::OneillKK(num))
            } else if t == "henshall"@ {
                Ok(DicRefV::Henshall(num))
            } else if t == "henshall3"@ {
                Ok(DicRefV::Henshall3(num))
            } else if t == "sh_kk"@ {
                Ok(DicRefV::SHKK(num))
            } else if t == "sh_kk2"@ {
                Ok(DicRefV::SHKK2(num))
            } else if t == "sakade"@ {
                Ok(DicRefV::Sakade(num))
            } else if t == "jf_cards"@ {
                Ok(DicRefV::JFCards(num))
            } else if t == "tutt_cards"@ {
                Ok(DicRefV::TuttCards(num))
            } else if t == "crowley"@ {
                Ok(DicRefV::Crowley(num))
            } else if t == "kanji_in_context"@ {
                Ok(DicRefV::InContext(num))
            } else if t == "busy_people"@ {
                Ok(DicRefV::BusyPeople(num))
            } else if t == "kodansha_compact"@ {
                Ok(DicRefV::KodanshaCompact(num))
            } else if t == "maniette"@ {
                Ok(DicRefV::Maniette(num))
            } else if t == "moro"@ {
                match moro_num_attr(n, "m_vol"@) {
                    Err(e) => Err(e),
                    Ok(vol) => match moro_num_attr(n, "m_page"@) {
                        Err(e) => Err(e),
                        Ok(page) => Ok(DicRefV::Moro(num, vol, page)),
                    },
                }
            } else {
                Err(ParseErrorV::InvalidEnum(t, dic_ref_valids()))
            },
        },
    }
}

/// The four accepted borrowing-origin labels of a Sino-Japanese reading.
pub open spec fn onyomi_valids() -> Seq<Seq<char>> {
    seq!["kan"@, "go"@, "tou"@, "kan'you"@]
}

/// The six accepted reading type labels.
pub open spec fn reading_valids() -> Seq<Seq<char>> {
    seq!["pinyin"@, "korean_r"@, "korean_h"@, "vietnam"@, "ja_on"@, "ja_kun"@]
}

pub open spec fn reading_spec(n: NodeV) -> Result<ReadingV, ParseErrorV> {
    match text_spec(n) {
        Err(e) => Err(e),
        Ok(value) => match attr_spec(n, "r_type"@) {
            Err(e) => Err(e),
            Ok(t) => if t == "pinyin"@ {
                Ok(ReadingV { value, typ: ReadingType::Pinyin })
            } else if t == "korean_r"@ {
                Ok(ReadingV { value, typ: ReadingType::KoreanR })
            } else if t == "korean_h"@ {
                Ok(ReadingV { value, typ: ReadingType::KoreanH })
            } else if t == "vietnam"@ {
                Ok(ReadingV { value, typ: ReadingType::Vietnam })
            } else if t == "ja_on"@ {
                if n.attrs.contains_key("on_type"@) {
                    let ot = n.attrs["on_type"@];
                    if ot == "kan"@ {
                        Ok(
                            ReadingV {
                                value,
                                typ: ReadingType::Onyomi(
                                    n.attrs.contains_key("r_status"@),
                                    OnyomiType::Kan,
                                ),
                            },
                        )
                    } else if ot == "go"@ {
                        Ok(
                            ReadingV {
                                value,
                                typ: ReadingType::Onyomi(
                                    n.attrs.contains_key("r_status"@),
                                    OnyomiType::Go,
                                ),
                            },
                        )
                    } else if ot == "tou"@ {
                        Ok(
                            ReadingV {
                                value,
                                typ: ReadingType::Onyomi(
                                    n.attrs.contains_key("r_status"@),
                                    OnyomiType::Tou,
                                ),
                            },
                        )
                    } else if ot == "kan'you"@ {
                        Ok(
                            ReadingV {
                                value,
                                typ: ReadingType::Onyomi(
                                    n.attrs.contains_key("r_status"@),
                                    OnyomiType::Kanyou,
                                ),
                            },
                        )
                    } else {
                        Err(ParseErrorV::InvalidEnum(ot, onyomi_valids()))
                    }
                } else {
                    Ok(
                        ReadingV {
                            value,
                            typ: ReadingType::Onyomi(
                                n.attrs.contains_key("r_status"@),
                                OnyomiType::Unspecified,
                            ),
                        },
                    )
                }
            } else if t == "ja_kun"@ {
                Ok(
                    ReadingV {
                        value,
                        typ: ReadingType::Kunyomi(n.attrs.contains_key("r_status"@)),
                    },
                )
            } else {
                Err(ParseErrorV::InvalidEnum(t, reading_valids()))
            },
        },
    }
}

/// A reading/meaning sense group under construction.
pub ghost struct RmAcc {
    pub readings: Seq<ReadingV>,
    pub meanings: Seq<MeaningV>,
}

pub open spec fn rmgroup_step() -> spec_fn(RmAcc, NodeV) -> Result<RmAcc, ParseErrorV> {
    |acc: RmAcc, c: NodeV|
        {
            if c.tag == "reading"@ {
                match reading_spec(c) {
                    Err(e) => Err(e),
                    Ok(r) => Ok(RmAcc { readings: acc.readings.push(r), ..acc }),
                }
            } else if c.tag == "meaning"@ {
                match text_spec(c) {
                    Err(e) => Err(e),
                    Ok(content) => Ok(
                        RmAcc {
                            meanings: acc.meanings.push(
                                MeaningV {
                                    content,
                                    language: if c.attrs.contains_key("m_lang"@) {
                                        c.attrs["m_lang"@]
                                    } else {
                                        "en"@
                                    },
                                },
                            ),
                            ..acc
                        },
                    ),
                }
            } else {
                Ok(acc)
            }
        }
}

pub open spec fn rmgroup_spec(n: NodeV) -> Result<ReadingMeaningV, ParseErrorV> {
    match fold_nodes(
        n.children,
        RmAcc { readings: Seq::empty(), meanings: Seq::empty() },
        rmgroup_step(),
    ) {
        Err(e) => Err(e),
        Ok(acc) => Ok(ReadingMeaningV { readings: acc.readings, meanings: acc.meanings }),
    }
}

/// The reading-meaning container under construction: nested sense groups,
/// and the name-only readings collected separately.
pub ghost struct RmgAcc {
    pub groups: Seq<ReadingMeaningV>,
    pub nanori: Seq<Seq<char>>,
}

pub open spec fn reading_meanings_step() -> spec_fn(RmgAcc, NodeV) -> Result<RmgAcc, ParseErrorV> {
    |acc: RmgAcc, c: NodeV|
        {
            if c.tag == "rmgroup"@ {
                match rmgroup_spec(c) {
                    Err(e) => Err(e),
                    Ok(g) => Ok(RmgAcc { groups: acc.groups.push(g), ..acc }),
                }
            } else if c.tag == "nanori"@ {
                match text_spec(c) {
                    Err(e) => Err(e),
                    Ok(t) => Ok(RmgAcc { nanori: acc.nanori.push(t), ..acc }),
                }
            } else {
                Ok(acc)
            }
        }
}

pub open spec fn reading_meanings_spec(n: NodeV) -> Result<RmgAcc, ParseErrorV> {
    fold_nodes(
        n.children,
        RmgAcc { groups: Seq::empty(), nanori: Seq::empty() },
        reading_meanings_step(),
    )
}

pub open spec fn codepoints_step() -> spec_fn(Seq<CodepointV>, NodeV) -> Result<
    Seq<CodepointV>,
    ParseErrorV,
> {
    |acc: Seq<CodepointV>, c: NodeV|
        {
            if c.tag == "cp_value"@ {
                match codepoint_spec(c) {
                    Err(e) => Err(e),
                    Ok(cp) => Ok(acc.push(cp)),
                }
            } else {
                Ok(acc)
            }
        }
}

pub open spec fn codepoints_spec(n: NodeV) -> Result<Seq<CodepointV>, ParseErrorV> {
    fold_nodes(n.children, Seq::empty(), codepoints_step())
}

pub open spec fn radicals_step(table: Seq<Seq<char>>) -> spec_fn(Seq<RadicalV>, NodeV) -> Result<
    Seq<RadicalV>,
    ParseErrorV,
> {
    |acc: Seq<RadicalV>, c: NodeV|
        {
            if c.tag == "rad_value"@ {
                match radical_spec(c, table) {
                    Err(e) => Err(e),
                    Ok(r) => Ok(acc.push(r)),
                }
            } else {
                Ok(acc)
            }
        }
}

pub open spec fn radicals_spec(n: NodeV, table: Seq<Seq<char>>) -> Result<
    Seq<RadicalV>,
    ParseErrorV,
> {
    fold_nodes(n.children, Seq::empty(), radicals_step(table))
}

pub open spec fn dic_refs_step() -> spec_fn(Seq<DicRefV>, NodeV) -> Result<
    Seq<DicRefV>,
    ParseErrorV,
> {
    |acc: Seq<DicRefV>, c: NodeV|
        {
            if c.tag == "dic_ref"@ {
                match dic_ref_spec(c) {
                    Err(e) => Err(e),
                    Ok(d) => Ok(acc.push(d)),
                }
            } else {
                Ok(acc)
            }
        }
}

pub open spec fn dic_refs_spec(n: NodeV) -> Result<Seq<DicRefV>, ParseErrorV> {
    fold_nodes(n.children, Seq::empty(), dic_refs_step())
}

/// One character entry under construction: one slot per recognized group,
/// each filled by the last child of its tag.
pub ghost struct EntryAcc {
    pub literal: Option<Seq<char>>,
    pub codepoints: Option<Seq<CodepointV>>,
    pub radicals: Option<Seq<RadicalV>>,
    pub misc: Option<MiscV>,
    pub dic_refs: Option<Seq<DicRefV>>,
    pub reading_meanings: Option<Seq<ReadingMeaningV>>,
    pub nanori: Option<Seq<Seq<char>>>,
}

pub open spec fn empty_entry_acc() -> EntryAcc {
    EntryAcc {
        literal: None,
        codepoints: None,
        radicals: None,
        misc: None,
        dic_refs: None,
        reading_meanings: None,
        nanori: None,
    }
}

pub open spec fn entry_step(table: Seq<Seq<char>>) -> spec_fn(EntryAcc, NodeV) -> Result<
    EntryAcc,
    ParseErrorV,
> {
    |acc: EntryAcc, c: NodeV|
        {
            if c.tag == "literal"@ {
                match text_spec(c) {
                    Err(e) => Err(e),
                    Ok(t) => Ok(EntryAcc { literal: Some(t), ..acc }),
                }
            } else if c.tag == "codepoint"@ {
                match codepoints_spec(c) {
                    Err(e) => Err(e),
                    Ok(cps) => Ok(EntryAcc { codepoints: Some(cps), ..acc }),
                }
            } else if c.tag == "radical"@ {
                match radicals_spec(c, table) {
                    Err(e) => Err(e),
                    Ok(rs) => Ok(EntryAcc { radicals: Some(rs), ..acc }),
                }
            } else if c.tag == "misc"@ {
                match misc_spec(c) {
                    Err(e) => Err(e),
                    Ok(m) => Ok(EntryAcc { misc: Some(m), ..acc }),
                }
            } else if c.tag == "dic_number"@ {
                match dic_refs_spec(c) {
                    Err(e) => Err(e),
                    Ok(ds) => Ok(EntryAcc { dic_refs: Some(ds), ..acc }),
                }
            } else if c.tag == "reading_meaning"@ {
                match reading_meanings_spec(c) {
                    Err(e) => Err(e),
                    Ok(rmg) => Ok(
                        EntryAcc {
                            reading_meanings: Some(rmg.groups),
                            nanori: Some(rmg.nanori),
                            ..acc
                        },
                    ),
                }
            } else {
                Ok(acc)
            }
        }
}

/// One character entry: a single pass over the element's children, then the
/// mandatory slots checked — the misc group first, then literal, codepoint
/// group and radical group; the optional groups default to empty.
pub open spec fn entry_spec(n: NodeV, table: Seq<Seq<char>>) -> Result<EntryV, ParseErrorV> {
    match fold_nodes(n.children, empty_entry_acc(), entry_step(table)) {
        Err(e) => Err(e),
        Ok(acc) => if acc.misc is None {
            Err(ParseErrorV::MissingTag("misc"@))
        } else if acc.literal is None {
            Err(ParseErrorV::MissingTag("literal"@))
        } else if acc.codepoints is None {
            Err(ParseErrorV::MissingTag("codepoint"@))
        } else if acc.radicals is None {
            Err(ParseErrorV::MissingTag("radical"@))
        } else {
            Ok(
                EntryV {
                    literal: acc.literal->Some_0,
                    codepoints: acc.codepoints->Some_0,
                    reading_meanings: match acc.reading_meanings {
                        Some(g) => g,
                        None => Seq::empty(),
                    },
                    nanori_readings: match acc.nanori {
                        Some(ns) => ns,
                        None => Seq::empty(),
                    },
                    radicals: acc.radicals->Some_0,
                    stroke_count: acc.misc->Some_0.stroke_count,
                    stroke_miscounts: acc.misc->Some_0.stroke_miscounts,
                    grade: acc.misc->Some_0.grade,
                    freq: acc.misc->Some_0.freq,
                    old_jlpt: acc.misc->Some_0.jlpt,
                    dic_refs: match acc.dic_refs {
                        Some(ds) => ds,
                        None => Seq::empty(),
                    },
                },
            )
        },
    }
}

/// The parsed header: format version, database version, creation date.
pub ghost struct HeaderV {
    pub file_version: u32,
    pub database_version: Seq<char>,
    pub creation_date: Seq<char>,
}

pub open spec fn header_spec(h: NodeV) -> Result<HeaderV, ParseErrorV> {
    match find_tag(h.children, "file_version"@) {
        None => Err(ParseErrorV::MissingTag("file_version"@)),
        Some(fv) => match text_spec(fv) {
            Err(e) => Err(e),
            Ok(t) => match parse_u32_spec(t) {
                None => Err(ParseErrorV::BadNumber(t)),
                Some(v) => match find_tag(h.children, "database_version"@) {
                    None => Err(ParseErrorV::MissingTag("database_version"@)),
                    Some(dv) => match text_spec(dv) {
                        Err(e) => Err(e),
                        Ok(dbv) => match find_tag(h.children, "date_of_creation"@) {
                            None => Err(ParseErrorV::MissingTag("date_of_creation"@)),
                            Some(dc) => match text_spec(dc) {
                                Err(e) => Err(e),
                                Ok(date) => Ok(
                                    HeaderV {
                                        file_version: v,
                                        database_version: dbv,
                                        creation_date: date,
                                    },
                                ),
                            },
                        },
                    },
                },
            },
        },
    }
}

pub open spec fn entries_step(table: Seq<Seq<char>>) -> spec_fn(Seq<EntryV>, NodeV) -> Result<
    Seq<EntryV>,
    ParseErrorV,
> {
    |acc: Seq<EntryV>, c: NodeV|
        {
            if c.tag == "character"@ {
                match entry_spec(c, table) {
                    Err(e) => Err(e),
                    Ok(e) => Ok(acc.push(e)),
                }
            } else {
                Ok(acc)
            }
        }
}

pub open spec fn entries_spec(root: NodeV, table: Seq<Seq<char>>) -> Result<
    Seq<EntryV>,
    ParseErrorV,
> {
    fold_nodes(root.children, Seq::empty(), entries_step(table))
}

/// The whole document: locate the root element and its header, parse the
/// header, then every character element in document order, failing on the
/// first problem.
pub open spec fn document_spec(root: NodeV, table: Seq<Seq<char>>) -> Result<
    KanjidicV,
    ParseErrorV,
> {
    match find_tag(root.children, "kanjidic2"@) {
        None => Err(ParseErrorV::MissingTag("kanjidic2"@)),
        Some(r) => match find_tag(r.children, "header"@) {
            None => Err(ParseErrorV::MissingTag("header"@)),
            Some(h) => match header_spec(h) {
                Err(e) => Err(e),
                Ok(hd) => match entries_spec(r, table) {
                    Err(e) => Err(e),
                    Ok(es) => Ok(
                        KanjidicV {
                            file_version: hd.file_version,
                            database_version: hd.database_version,
                            creation_date: hd.creation_date,
                            entries: es,
                        },
                    ),
                },
            },
        },
    }
}

/// What `load` returns for the given text and radical table: a markup
/// failure for text that is not a well-formed document, and the decoded
/// document or its first decode failure otherwise.
pub open spec fn load_spec(s: Seq<char>, table: Seq<Seq<char>>) -> Result<
    KanjidicV,
    ParseErrorV,
> {
    match xml_doc_of(s) {
        Err(m) => Err(ParseErrorV::Markup(m)),
        Ok(root) => document_spec(root, table),
    }
}

pub fn get_text(n: &roxmltree::Node) -> (r: Result<String, ParseError>)
    ensures
        result_view(r) == text_spec(node_view(*n)),
{
    match node_text(n) {
        Some(s) => if !s.as_str().is_empty() {
            Ok(s)
        } else {
            Err(ParseError::MissingTag(node_tag(n)))
        },
        None => Err(ParseError::MissingTag(node_tag(n))),
    }
}

pub fn get_attr(n: &roxmltree::Node, name: &str) -> (r: Result<String, ParseError>)
    ensures
        result_view(r) == attr_spec(node_view(*n), name@),
{
    match node_attr(n, name) {
        Some(v) => Ok(v),
        None => Err(ParseError::MissingAttribute(name.to_owned())),
    }
}

pub fn has_attr(n: &roxmltree::Node, name: &str) -> (r: bool)
    ensures
        r == node_view(*n).attrs.contains_key(name@),
{
    node_attr(n, name).is_some()
}

pub fn find_child_tag<'a, 'input>(n: &roxmltree::Node<'a, 'input>, tag: &str) -> (r: Option<
    roxmltree::Node<'a, 'input>,
>)
    ensures
        match r {
            Some(c) => find_tag(node_view(*n).children, tag@) == Some(node_view(c)),
            None => find_tag(node_view(*n).children, tag@) is None,
        },
{
    let count = node_child_count(n);
    let ghost cs = node_view(*n).children;
    let mut i: usize = 0;
    while i < count
        invariant
            count == cs.len(),
            cs == node_view(*n).children,
            i <= count,
            forall|k: int| 0 <= k < i ==> (#[trigger] cs[k]).tag != tag@,
        decreases count - i,
    {
        let c = node_child(n, i);
        let t = node_tag(&c);
        if str_eq(t.as_str(), tag) {
            proof {
                lemma_find_tag_at(cs, tag@, i as int);
            }
            return Some(c);
        }
        i = i + 1;
    }
    proof {
        lemma_find_tag_none(cs, tag@);
    }
    None
}

pub fn parse_codepoint(n: &roxmltree::Node) -> (r: Result<Codepoint, ParseError>)
    ensures
        result_view(r) == codepoint_spec(node_view(*n)),
{
    let standard = match get_attr(n, "cp_type") {
        Ok(s) => s,
        Err(e) => return Err(e),
    };
    let value = match get_text(n) {
        Ok(t) => t,
        Err(e) => return Err(e),
    };
    Ok(Codepoint { standard, value })
}

/// The radical classification labels, as owned strings for an error report.
pub fn radical_valid_strings() -> (r: Vec<String>)
    ensures
        r@.map_values(|v: String| v@) == radical_valids(),
{
    let mut r: Vec<String> = Vec::new();
    r.push("classical".to_owned());
    r.push("nelson_c".to_owned());
    proof {
        assert(r@.map_values(|v: String| v@) =~= radical_valids());
    }
    r
}

pub fn parse_radical(n: &roxmltree::Node, table: &RadicalTable) -> (r: Result<Radical, ParseError>)
    ensures
        result_view(r) == radical_spec(node_view(*n), table@),
{
    let cls = match get_attr(n, "rad_type") {
        Ok(s) => s,
        Err(e) => return Err(e),
    };
    let classification: RadicalType;
    if str_eq(cls.as_str(), "classical") {
        classification = RadicalType::Classical;
    } else if str_eq(cls.as_str(), "nelson_c") {
        classification = RadicalType::NelsonC;
    } else {
        return Err(ParseError::InvalidEnum(cls, radical_valid_strings()));
    }
    let t = match get_text(n) {
        Ok(t) => t,
        Err(e) => return Err(e),
    };
    let index = match parse_u32(t.as_str()) {
        Some(i) => i,
        None => return Err(ParseError::BadNumber(t)),
    };
    let value = match table.lookup(index) {
        Ok(v) => v,
        Err(e) => return Err(e),
    };
    Ok(Radical { classification, value })
}

/// The misc group of one entry, in executable form.
pub struct MiscData {
    pub stroke_count: u32,
    pub stroke_miscounts: Vec<u32>,
    pub grade: Option<Grade>,
    pub freq: Option<u32>,
    pub old_jlpt: Option<u32>,
}

impl View for MiscData {
    type V = MiscV;

    open spec fn view(&self) -> MiscV {
        MiscV {
            stroke_count: self.stroke_count,
            stroke_miscounts: self.stroke_miscounts@,
            grade: self.grade,
            freq: self.freq,
            jlpt: self.old_jlpt,
        }
    }
}

/// The grade source values, as owned strings for an error report.
pub fn grade_valid_strings() -> (r: Vec<String>)
    ensures
        r@.map_values(|v: String| v@) == grade_valids(),
{
    let mut r: Vec<String> = Vec::new();
    r.push("1".to_owned());
    r.push("2".to_owned());
    r.push("3".to_owned());
    r.push("4".to_owned());
    r.push("5".to_owned());
    r.push("6".to_owned());
    r.push("8".to_owned());
    r.push("9".to_owned());
    r.push("10".to_owned());
    proof {
        assert(r@.map_values(|v: String| v@) =~= grade_valids());
    }
    r
}

pub fn parse_misc(n: &roxmltree::Node) -> (r: Result<MiscData, ParseError>)
    ensures
        result_view(r) == misc_spec(node_view(*n)),
{
    let count = node_child_count(n);
    let ghost cs = node_view(*n).children;
    let mut strokes: Vec<u32> = Vec::new();
    let mut grade: Option<Grade> = None;
    let mut freq: Option<u32> = None;
    let mut jlpt: Option<u32> = None;
    let mut i: usize = 0;
    while i < count
        invariant
            count == cs.len(),
            cs == node_view(*n).children,
            i <= count,
            fold_nodes(cs.take(i as int), empty_misc_acc(), misc_step()) == Ok::<
                MiscAcc,
                ParseErrorV,
            >(MiscAcc { strokes: strokes@, grade, freq, jlpt }),
        decreases count - i,
    {
        let c = node_child(n, i);
        proof {
            lemma_fold_nodes_step(cs, empty_misc_acc(), misc_step(), i as int);
        }
        let tag = node_tag(&c);
        if str_eq(tag.as_str(), "grade") {
            let t = match get_text(&c) {
                Ok(t) => t,
                Err(e) => {
                    proof {
                        lemma_fold_nodes_err(cs, empty_misc_acc(), misc_step(), i + 1);
                    }
                    return Err(e);
                },
            };
            let g = match parse_u32(t.as_str()) {
                Some(v) => v,
                None => {
                    proof {
                        lemma_fold_nodes_err(cs, empty_misc_acc(), misc_step(), i + 1);
                    }
                    return Err(ParseError::BadNumber(t));
                },
            };
            let parsed: Grade;
            if 1 <= g && g <= 6 {
                parsed = Grade::Kyouiku(g);
            } else if g == 8 {
                parsed = Grade::Jouyou;
            } else if g == 9 {
                parsed = Grade::Jinmeiyou;
            } else if g == 10 {
                parsed = Grade::JouyouVariant;
            } else {
                proof {
                    lemma_fold_nodes_err(cs, empty_misc_acc(), misc_step(), i + 1);
                }
                return Err(ParseError::InvalidEnum(u32_to_string(g), grade_valid_strings()));
            }
            if grade.is_none() {
                grade = Some(parsed);
            }
        } else if str_eq(tag.as_str(), "stroke_count") {
            let t = match get_text(&c) {
                Ok(t) => t,
                Err(e) => {
                    proof {
                        lemma_fold_nodes_err(cs, empty_misc_acc(), misc_step(), i + 1);
                    }
                    return Err(e);
                },
            };
            match parse_u32(t.as_str()) {
                Some(v) => if v >= 1 {
                    strokes.push(v);
                } else {
                    proof {
                        lemma_fold_nodes_err(cs, empty_misc_acc(), misc_step(), i + 1);
                    }
                    return Err(ParseError::BadNumber(t));
                },
                None => {
                    proof {
                        lemma_fold_nodes_err(cs, empty_misc_acc(), misc_step(), i + 1);
                    }
                    return Err(ParseError::BadNumber(t));
                },
            }
        } else if str_eq(tag.as_str(), "freq") {
            let t = match get_text(&c) {
                Ok(t) => t,
                Err(e) => {
                    proof {
                        lemma_fold_nodes_err(cs, empty_misc_acc(), misc_step(), i + 1);
                    }
                    return Err(e);
                },
            };
            match parse_u32(t.as_str()) {
                Some(v) => if freq.is_none() {
                    freq = Some(v);
                },
                None => {
                    proof {
                        lemma_fold_nodes_err(cs, empty_misc_acc(), misc_step(), i + 1);
                    }
                    return Err(ParseError::BadNumber(t));
                },
            }
        } else if str_eq(tag.as_str(), "jlpt") {
            let t = match get_text(&c) {
                Ok(t) => t,
                Err(e) => {
                    proof {
                        lemma_fold_nodes_err(cs, empty_misc_acc(), misc_step(), i + 1);
                    }
                    return Err(e);
                },
            };
            match parse_u32(t.as_str()) {
                Some(v) => if jlpt.is_none() {
                    jlpt = Some(v);
                },
                None => {
                    proof {
                        lemma_fold_nodes_err(cs, empty_misc_acc(), misc_step(), i + 1);
                    }
                    return Err(ParseError::BadNumber(t));
                },
            }
        }
        i = i + 1;
    }
    proof {
        assert(cs.take(count as int) =~= cs);
    }
    if strokes.len() == 0 {
        return Err(ParseError::MissingTag("stroke_count".to_owned()));
    }
    let stroke_count = strokes[0];
    let mut stroke_miscounts: Vec<u32> = Vec::new();
    let mut j: usize = 1;
    while j < strokes.len()
        invariant
            1 <= j <= strokes@.len(),
            stroke_miscounts@ == strokes@.subrange(1, j as int),
        decreases strokes@.len() - j,
    {
        stroke_miscounts.push(strokes[j]);
        proof {
            assert(strokes@.subrange(1, j + 1) =~= strokes@.subrange(1, j as int).push(
                strokes@[j as int],
            ));
        }
        j = j + 1;
    }
    proof {
        assert(strokes@.subrange(1, strokes@.len() as int) =~= strokes@.drop_first());
    }
    Ok(MiscData { stroke_count, stroke_miscounts, grade, freq, old_jlpt: jlpt })
}

/// The dictionary-reference type labels, as owned strings for an error
/// report.
pub fn dic_ref_valid_strings() -> (r: Vec<String>)
    ensures
        r@.map_values(|v: String| v@) == dic_ref_valids(),
{
    let mut r: Vec<String> = Vec::new();
    r.push("nelson_c".to_owned());
    r.push("nelson_n".to_owned());
    r.push("halpern_njecd".to_owned());
    r.push("halpern_kkd".to_owned());
    r.push("halpern_kkld".to_owned());
    r.push("halpern_kkld_2ed".to_owned());
    r.push("heisig".to_owned());
    r.push("heisig6".to_owned());
    r.push("gakken".to_owned());
    r.push("oneill_names".to_owned());
    r.push("oneill_kk".to_owned());
    r.push("henshall".to_owned());
    r.push("henshall3".to_owned());
    r.push("sh_kk".to_owned());
    r.push("sh_kk2".to_owned());
    r.push("sakade".to_owned());
    r.push("jf_cards".to_owned());
    r.push("tutt_cards".to_owned());
    r.push("crowley".to_owned());
    r.push("kanji_in_context".to_owned());
    r.push("busy_people".to_owned());
    r.push("kodansha_compact".to_owned());
    r.push("maniette".to_owned());
    r.push("moro".to_owned());
    proof {
        assert(r@.map_values(|v: String| v@) =~= dic_ref_valids());
    }
    r
}

pub fn moro_attr(n: &roxmltree::Node, name: &str) -> (r: Result<Option<u32>, ParseError>)
    ensures
        match r {
            Ok(v) => moro_num_attr(node_view(*n), name@) == Ok::<Option<u32>, ParseErrorV>(v),
            Err(e) => moro_num_attr(node_view(*n), name@) == Err::<Option<u32>, ParseErrorV>(e@),
        },
{
    match node_attr(n, name) {
        Some(t) => match parse_u32(t.as_str()) {
            Some(v) => Ok(Some(v)),
            None => Err(ParseError::BadNumber(t)),
        },
        None => Ok(None),
    }
}

pub fn parse_dic_ref(n: &roxmltree::Node) -> (r: Result<DicRef, ParseError>)
    ensures
        result_view(r) == dic_ref_spec(node_view(*n)),
{
    let num = match get_text(n) {
        Ok(t) => t,
        Err(e) => return Err(e),
    };
    let typ = match get_attr(n, "dr_type") {
        Ok(t) => t,
        Err(e) => return Err(e),
    };
    let t = typ.as_str();
    if str_eq(t, "nelson_c") {
        Ok(DicRef::NelsonC(num))
    } else if str_eq(t, "nelson_n") {
        Ok(DicRef::NelsonN(num))
    } else if str_eq(t, "halpern_njecd") {
        Ok(DicRef::HalpernNJECD(num))
    } else if str_eq(t, "halpern_kkd") {
        Ok(DicRef::HalpernKKD(num))
    } else if str_eq(t, "halpern_kkld") {
        Ok(DicRef::HalpernKKLD(num))
    } else if str_eq(t, "halpern_kkld_2ed") {
        Ok(DicRef::HalpernKKLD2(num))
    } else if str_eq(t, "heisig") {
        Ok(DicRef::Heisig(num))
    } else if str_eq(t, "heisig6") {
        Ok(DicRef::Heisig6(num))
    } else if str_eq(t, "gakken") {
        Ok(DicRef::Gakken(num))
    } else if str_eq(t, "oneill_names") {
        Ok(DicRef::OneillNames(num))
    } else if str_eq(t, "oneill_kk") {
        Ok(DicRef::OneillKK(num))
    } else if str_eq(t, "henshall") {
        Ok(DicRef::Henshall(num))
    } else if str_eq(t, "henshall3") {
        Ok(DicRef::Henshall3(num))
    } else if str_eq(t, "sh_kk") {
        Ok(DicRef::SHKK(num))
    } else if str_eq(t, "sh_kk2") {
        Ok(DicRef::SHKK2(num))
    } else if str_eq(t, "sakade") {
        Ok(DicRef::Sakade(num))
    } else if str_eq(t, "jf_cards") {
        Ok(DicRef::JFCards(num))
    } else if str_eq(t, "tutt_cards") {
        Ok(DicRef::TuttCards(num))
    } else if str_eq(t, "crowley") {
        Ok(DicRef::Crowley(num))
    } else if str_eq(t, "kanji_in_context") {
        Ok(DicRef::InContext(num))
    } else if str_eq(t, "busy_people") {
        Ok(DicRef::BusyPeople(num))
    } else if str_eq(t, "kodansha_compact") {
        Ok(DicRef::KodanshaCompact(num))
    } else if str_eq(t, "maniette") {
        Ok(DicRef::Maniette(num))
    } else if str_eq(t, "moro") {
        let vol = match moro_attr(n, "m_vol") {
            Ok(v) => v,
            Err(e) => return Err(e),
        };
        let page = match moro_attr(n, "m_page") {
            Ok(p) => p,
            Err(e) => return Err(e),
        };
        Ok(DicRef::Moro(num, vol, page))
    } else {
        Err(ParseError::InvalidEnum(typ, dic_ref_valid_strings()))
    }
}

/// The borrowing-origin labels, as owned strings for an error report.
pub fn onyomi_valid_strings() -> (r: Vec<String>)
    ensures
        r@.map_values(|v: String| v@) == onyomi_valids(),
{
    let mut r: Vec<String> = Vec::new();
    r.push("kan".to_owned());
    r.push("go".to_owned());
    r.push("tou".to_owned());
    r.push("kan'you".to_owned());
    proof {
        assert(r@.map_values(|v: String| v@) =~= onyomi_valids());
    }
    r
}

/// The reading type labels, as owned strings for an error report.
pub fn reading_valid_strings() -> (r: Vec<String>)
    ensures
        r@.map_values(|v: String| v@) == reading_valids(),
{
    let mut r: Vec<String> = Vec::new();
    r.push("pinyin".to_owned());
    r.push("korean_r".to_owned());
    r.push("korean_h".to_owned());
    r.push("vietnam".to_owned());
    r.push("ja_on".to_owned());
    r.push("ja_kun".to_owned());
    proof {
        assert(r@.map_values(|v: String| v@) =~= reading_valids());
    }
    r
}

pub fn parse_reading(n: &roxmltree::Node) -> (r: Result<Reading, ParseError>)
    ensures
        result_view(r) == reading_spec(node_view(*n)),
{
    let value = match get_text(n) {
        Ok(t) => t,
        Err(e) => return Err(e),
    };
    let typ_attr = match get_attr(n, "r_type") {
        Ok(t) => t,
        Err(e) => return Err(e),
    };
    let t = typ_attr.as_str();
    if str_eq(t, "pinyin") {
        Ok(Reading { value, typ: ReadingType::Pinyin })
    } else if str_eq(t, "korean_r") {
        Ok(Reading { value, typ: ReadingType::KoreanR })
    } else if str_eq(t, "korean_h") {
        Ok(Reading { value, typ: ReadingType::KoreanH })
    } else if str_eq(t, "vietnam") {
        Ok(Reading { value, typ: ReadingType::Vietnam })
    } else if str_eq(t, "ja_on") {
        let approved = has_attr(n, "r_status");
        let onyomi_typ: OnyomiType;
        match node_attr(n, "on_type") {
            Some(ot) => {
                if str_eq(ot.as_str(), "kan") {
                    onyomi_typ = OnyomiType::Kan;
                } else if str_eq(ot.as_str(), "go") {
                    onyomi_typ = OnyomiType::Go;
                } else if str_eq(ot.as_str(), "tou") {
                    onyomi_typ = OnyomiType::Tou;
                } else if str_eq(ot.as_str(), "kan'you") {
                    onyomi_typ = OnyomiType::Kanyou;
                } else {
                    return Err(ParseError::InvalidEnum(ot, onyomi_valid_strings()));
                }
            },
            None => {
                onyomi_typ = OnyomiType::Unspecified;
            },
        }
        Ok(Reading { value, typ: ReadingType::Onyomi(approved, onyomi_typ) })
    } else if str_eq(t, "ja_kun") {
        let approved = has_attr(n, "r_status");
        Ok(Reading { value, typ: ReadingType::Kunyomi(approved) })
    } else {
        Err(ParseError::InvalidEnum(typ_attr, reading_valid_strings()))
    }
}

pub fn parse_reading_group(n: &roxmltree::Node) -> (r: Result<ReadingMeaning, ParseError>)
    ensures
        result_view(r) == rmgroup_spec(node_view(*n)),
{
    let count = node_child_count(n);
    let ghost cs = node_view(*n).children;
    let ghost init = RmAcc { readings: Seq::empty(), meanings: Seq::empty() };
    let mut readings: Vec<Reading> = Vec::new();
    let mut meanings: Vec<Meaning> = Vec::new();
    let mut i: usize = 0;
    proof {
        assert(readings@.map_values(|x: Reading| x@) =~= Seq::<ReadingV>::empty());
        assert(meanings@.map_values(|m: Meaning| m@) =~= Seq::<MeaningV>::empty());
    }
    while i < count
        invariant
            count == cs.len(),
            cs == node_view(*n).children,
            init == (RmAcc {
                readings: Seq::<ReadingV>::empty(),
                meanings: Seq::<MeaningV>::empty(),
            }),
            i <= count,
            fold_nodes(cs.take(i as int), init, rmgroup_step()) == Ok::<RmAcc, ParseErrorV>(
                RmAcc {
                    readings: readings@.map_values(|x: Reading| x@),
                    meanings: meanings@.map_values(|m: Meaning| m@),
                },
            ),
        decreases count - i,
    {
        let c = node_child(n, i);
        proof {
            lemma_fold_nodes_step(cs, init, rmgroup_step(), i as int);
        }
        let tag = node_tag(&c);
        if str_eq(tag.as_str(), "reading") {
            match parse_reading(&c) {
                Ok(rd) => {
                    let ghost before = readings@;
                    readings.push(rd);
                    proof {
                        assert(readings@.map_values(|x: Reading| x@) =~= before.map_values(
                            |x: Reading| x@,
                        ).push(rd@));
                    }
                },
                Err(e) => {
                    proof {
                        lemma_fold_nodes_err(cs, init, rmgroup_step(), i + 1);
                    }
                    return Err(e);
                },
            }
        } else if str_eq(tag.as_str(), "meaning") {
            let language = match node_attr(&c, "m_lang") {
                Some(l) => l,
                None => "en".to_owned(),
            };
            let content = match get_text(&c) {
                Ok(t) => t,
                Err(e) => {
                    proof {
                        lemma_fold_nodes_err(cs, init, rmgroup_step(), i + 1);
                    }
                    return Err(e);
                },
            };
            let ghost before = meanings@;
            let m = Meaning { content, language };
            meanings.push(m);
            proof {
                assert(meanings@.map_values(|x: Meaning| x@) =~= before.map_values(
                    |x: Meaning| x@,
                ).push(m@));
            }
        }
        i = i + 1;
    }
    proof {
        assert(cs.take(count as int) =~= cs);
    }
    Ok(ReadingMeaning { readings, meanings })
}

pub fn parse_reading_meanings(n: &roxmltree::Node) -> (r: Result<
    (Vec<ReadingMeaning>, Vec<String>),
    ParseError,
>)
    ensures
        match r {
            Ok(p) => reading_meanings_spec(node_view(*n)) == Ok::<RmgAcc, ParseErrorV>(
                RmgAcc {
                    groups: p.0@.map_values(|g: ReadingMeaning| g@),
                    nanori: p.1@.map_values(|s: String| s@),
                },
            ),
            Err(e) => reading_meanings_spec(node_view(*n)) == Err::<RmgAcc, ParseErrorV>(e@),
        },
{
    let count = node_child_count(n);
    let ghost cs = node_view(*n).children;
    let ghost init = RmgAcc { groups: Seq::empty(), nanori: Seq::empty() };
    let mut groups: Vec<ReadingMeaning> = Vec::new();
    let mut nanori: Vec<String> = Vec::new();
    let mut i: usize = 0;
    proof {
        assert(groups@.map_values(|g: ReadingMeaning| g@) =~= Seq::<ReadingMeaningV>::empty());
        assert(nanori@.map_values(|s: String| s@) =~= Seq::<Seq<char>>::empty());
    }
    while i < count
        invariant
            count == cs.len(),
            cs == node_view(*n).children,
            init == (RmgAcc {
                groups: Seq::<ReadingMeaningV>::empty(),
                nanori: Seq::<Seq<char>>::empty(),
            }),
            i <= count,
            fold_nodes(cs.take(i as int), init, reading_meanings_step()) == Ok::<
                RmgAcc,
                ParseErrorV,
            >(
                RmgAcc {
                    groups: groups@.map_values(|g: ReadingMeaning| g@),
                    nanori: nanori@.map_values(|s: String| s@),
                },
            ),
        decreases count - i,
    {
        let c = node_child(n, i);
        proof {
            lemma_fold_nodes_step(cs, init, reading_meanings_step(), i as int);
        }
        let tag = node_tag(&c);
        if str_eq(tag.as_str(), "rmgroup") {
            match parse_reading_group(&c) {
                Ok(g) => {
                    let ghost before = groups@;
                    groups.push(g);
                    proof {
                        assert(groups@.map_values(|x: ReadingMeaning| x@) =~= before.map_values(
                            |x: ReadingMeaning| x@,
                        ).push(g@));
                    }
                },
                Err(e) => {
                    proof {
                        lemma_fold_nodes_err(cs, init, reading_meanings_step(), i + 1);
                    }
                    return Err(e);
                },
            }
        } else if str_eq(tag.as_str(), "nanori") {
            match get_text(&c) {
                Ok(t) => {
                    let ghost before = nanori@;
                    nanori.push(t);
                    proof {
                        assert(nanori@.map_values(|s: String| s@) =~= before.map_values(
                            |s: String| s@,
                        ).push(t@));
                    }
                },
                Err(e) => {
                    proof {
                        lemma_fold_nodes_err(cs, init, reading_meanings_step(), i + 1);
                    }
                    return Err(e);
                },
            }
        }
        i = i + 1;
    }
    proof {
        assert(cs.take(count as int) =~= cs);
    }
    Ok((groups, nanori))
}

pub fn parse_codepoint_group(n: &roxmltree::Node) -> (r: Result<Vec<Codepoint>, ParseError>)
    ensures
        match r {
            Ok(v) => codepoints_spec(node_view(*n)) == Ok::<Seq<CodepointV>, ParseErrorV>(
                v@.map_values(|c: Codepoint| c@),
            ),
            Err(e) => codepoints_spec(node_view(*n)) == Err::<Seq<CodepointV>, ParseErrorV>(e@),
        },
{
    let count = node_child_count(n);
    let ghost cs = node_view(*n).children;
    let mut out: Vec<Codepoint> = Vec::new();
    let mut i: usize = 0;
    proof {
        assert(out@.map_values(|c: Codepoint| c@) =~= Seq::<CodepointV>::empty());
    }
    while i < count
        invariant
            count == cs.len(),
            cs == node_view(*n).children,
            i <= count,
            fold_nodes(cs.take(i as int), Seq::<CodepointV>::empty(), codepoints_step()) == Ok::<
                Seq<CodepointV>,
                ParseErrorV,
            >(out@.map_values(|c: Codepoint| c@)),
        decreases count - i,
    {
        let c = node_child(n, i);
        proof {
            lemma_fold_nodes_step(cs, Seq::<CodepointV>::empty(), codepoints_step(), i as int);
        }
        let tag = node_tag(&c);
        if str_eq(tag.as_str(), "cp_value") {
            match parse_codepoint(&c) {
                Ok(cp) => {
                    let ghost before = out@;
                    out.push(cp);
                    proof {
                        assert(out@.map_values(|c: Codepoint| c@) =~= before.map_values(
                            |c: Codepoint| c@,
                        ).push(cp@));
                    }
                },
                Err(e) => {
                    proof {
                        lemma_fold_nodes_err(cs, Seq::<CodepointV>::empty(), codepoints_step(), i + 1);
                    }
                    return Err(e);
                },
            }
        }
        i = i + 1;
    }
    proof {
        assert(cs.take(count as int) =~= cs);
    }
    Ok(out)
}

pub fn parse_radical_group(n: &roxmltree::Node, table: &RadicalTable) -> (r: Result<
    Vec<Radical>,
    ParseError,
>)
    ensures
        match r {
            Ok(v) => radicals_spec(node_view(*n), table@) == Ok::<Seq<RadicalV>, ParseErrorV>(
                v@.map_values(|x: Radical| x@),
            ),
            Err(e) => radicals_spec(node_view(*n), table@) == Err::<Seq<RadicalV>, ParseErrorV>(
                e@,
            ),
        },
{
    let count = node_child_count(n);
    let ghost cs = node_view(*n).children;
    let mut out: Vec<Radical> = Vec::new();
    let mut i: usize = 0;
    proof {
        assert(out@.map_values(|x: Radical| x@) =~= Seq::<RadicalV>::empty());
    }
    while i < count
        invariant
            count == cs.len(),
            cs == node_view(*n).children,
            i <= count,
            fold_nodes(cs.take(i as int), Seq::<RadicalV>::empty(), radicals_step(table@)) == Ok::<
                Seq<RadicalV>,
                ParseErrorV,
            >(out@.map_values(|x: Radical| x@)),
        decreases count - i,
    {
        let c = node_child(n, i);
        proof {
            lemma_fold_nodes_step(cs, Seq::<RadicalV>::empty(), radicals_step(table@), i as int);
        }
        let tag = node_tag(&c);
        if str_eq(tag.as_str(), "rad_value") {
            match parse_radical(&c, table) {
                Ok(rd) => {
                    let ghost before = out@;
                    out.push(rd);
                    proof {
                        assert(out@.map_values(|x: Radical| x@) =~= before.map_values(
                            |x: Radical| x@,
                        ).push(rd@));
                    }
                },
                Err(e) => {
                    proof {
                        lemma_fold_nodes_err(
                            cs,
                            Seq::<RadicalV>::empty(),
                            radicals_step(table@),
                            i + 1,
                        );
                    }
                    return Err(e);
                },
            }
        }
        i = i + 1;
    }
    proof {
        assert(cs.take(count as int) =~= cs);
    }
    Ok(out)
}

pub fn parse_dic_ref_group(n: &roxmltree::Node) -> (r: Result<Vec<DicRef>, ParseError>)
    ensures
        match r {
            Ok(v) => dic_refs_spec(node_view(*n)) == Ok::<Seq<DicRefV>, ParseErrorV>(
                v@.map_values(|d: DicRef| d@),
            ),
            Err(e) => dic_refs_spec(node_view(*n)) == Err::<Seq<DicRefV>, ParseErrorV>(e@),
        },
{
    let count = node_child_count(n);
    let ghost cs = node_view(*n).children;
    let mut out: Vec<DicRef> = Vec::new();
    let mut i: usize = 0;
    proof {
        assert(out@.map_values(|d: DicRef| d@) =~= Seq::<DicRefV>::empty());
    }
    while i < count
        invariant
            count == cs.len(),
            cs == node_view(*n).children,
            i <= count,
            fold_nodes(cs.take(i as int), Seq::<DicRefV>::empty(), dic_refs_step()) == Ok::<
                Seq<DicRefV>,
                ParseErrorV,
            >(out@.map_values(|d: DicRef| d@)),
        decreases count - i,
    {
        let c = node_child(n, i);
        proof {
            lemma_fold_nodes_step(cs, Seq::<DicRefV>::empty(), dic_refs_step(), i as int);
        }
        let tag = node_tag(&c);
        if str_eq(tag.as_str(), "dic_ref") {
            match parse_dic_ref(&c) {
                Ok(d) => {
                    let ghost before = out@;
                    out.push(d);
                    proof {
                        assert(out@.map_values(|d: DicRef| d@) =~= before.map_values(
                            |d: DicRef| d@,
                        ).push(d@));
                    }
                },
                Err(e) => {
                    proof {
                        lemma_fold_nodes_err(cs, Seq::<DicRefV>::empty(), dic_refs_step(), i + 1);
                    }
                    return Err(e);
                },
            }
        }
        i = i + 1;
    }
    proof {
        assert(cs.take(count as int) =~= cs);
    }
    Ok(out)
}

/// The entry accumulator that the given executable slots stand for.
pub open spec fn acc_of(
    literal_op: Option<String>,
    codepoints_op: Option<Vec<Codepoint>>,
    radicals_op: Option<Vec<Radical>>,
    misc_op: Option<MiscData>,
    dic_refs_op: Option<Vec<DicRef>>,
    rm_op: Option<Vec<ReadingMeaning>>,
    nanori_op: Option<Vec<String>>,
) -> EntryAcc {
    EntryAcc {
        literal: match literal_op {
            Some(s) => Some(s@),
            None => None,
        },
        codepoints: match codepoints_op {
            Some(v) => Some(v@.map_values(|c: Codepoint| c@)),
            None => None,
        },
        radicals: match radicals_op {
            Some(v) => Some(v@.map_values(|x: Radical| x@)),
            None => None,
        },
        misc: match misc_op {
            Some(m) => Some(m@),
            None => None,
        },
        dic_refs: match dic_refs_op {
            Some(v) => Some(v@.map_values(|d: DicRef| d@)),
            None => None,
        },
        reading_meanings: match rm_op {
            Some(v) => Some(v@.map_values(|g: ReadingMeaning| g@)),
            None => None,
        },
        nanori: match nanori_op {
            Some(v) => Some(v@.map_values(|s: String| s@)),
            None => None,
        },
    }
}

pub fn parse_entry(n: &roxmltree::Node, table: &RadicalTable) -> (r: Result<Entry, ParseError>)
    ensures
        result_view(r) == entry_spec(node_view(*n), table@),
{
    let count = node_child_count(n);
    let ghost cs = node_view(*n).children;
    let mut literal_op: Option<String> = None;
    let mut codepoints_op: Option<Vec<Codepoint>> = None;
    let mut radicals_op: Option<Vec<Radical>> = None;
    let mut misc_op: Option<MiscData> = None;
    let mut dic_refs_op: Option<Vec<DicRef>> = None;
    let mut rm_op: Option<Vec<ReadingMeaning>> = None;
    let mut nanori_op: Option<Vec<String>> = None;
    let mut i: usize = 0;
    while i < count
        invariant
            count == cs.len(),
            cs == node_view(*n).children,
            i <= count,
            fold_nodes(cs.take(i as int), empty_entry_acc(), entry_step(table@)) == Ok::<
                EntryAcc,
                ParseErrorV,
            >(
                acc_of(
                    literal_op,
                    codepoints_op,
                    radicals_op,
                    misc_op,
                    dic_refs_op,
                    rm_op,
                    nanori_op,
                ),
            ),
        decreases count - i,
    {
        let c = node_child(n, i);
        proof {
            lemma_fold_nodes_step(cs, empty_entry_acc(), entry_step(table@), i as int);
        }
        let tag = node_tag(&c);
        if str_eq(tag.as_str(), "literal") {
            match get_text(&c) {
                Ok(t) => literal_op = Some(t),
                Err(e) => {
                    proof {
                        lemma_fold_nodes_err(cs, empty_entry_acc(), entry_step(table@), i + 1);
                    }
                    return Err(e);
                },
            }
        } else if str_eq(tag.as_str(), "codepoint") {
            match parse_codepoint_group(&c) {
                Ok(v) => codepoints_op = Some(v),
                Err(e) => {
                    proof {
                        lemma_fold_nodes_err(cs, empty_entry_acc(), entry_step(table@), i + 1);
                    }
                    return Err(e);
                },
            }
        } else if str_eq(tag.as_str(), "radical") {
            match parse_radical_group(&c, table) {
                Ok(v) => radicals_op = Some(v),
                Err(e) => {
                    proof {
                        lemma_fold_nodes_err(cs, empty_entry_acc(), entry_step(table@), i + 1);
                    }
                    return Err(e);
                },
            }
        } else if str_eq(tag.as_str(), "misc") {
            match parse_misc(&c) {
                Ok(m) => misc_op = Some(m),
                Err(e) => {
                    proof {
                        lemma_fold_nodes_err(cs, empty_entry_acc(), entry_step(table@), i + 1);
                    }
                    return Err(e);
                },
            }
        } else if str_eq(tag.as_str(), "dic_number") {
            match parse_dic_ref_group(&c) {
                Ok(v) => dic_refs_op = Some(v),
                Err(e) => {
                    proof {
                        lemma_fold_nodes_err(cs, empty_entry_acc(), entry_step(table@), i + 1);
                    }
                    return Err(e);
                },
            }
        } else if str_eq(tag.as_str(), "reading_meaning") {
            match parse_reading_meanings(&c) {
                Ok(p) => {
                    let (groups, nanori) = p;
                    rm_op = Some(groups);
                    nanori_op = Some(nanori);
                },
                Err(e) => {
                    proof {
                        lemma_fold_nodes_err(cs, empty_entry_acc(), entry_step(table@), i + 1);
                    }
                    return Err(e);
                },
            }
        }
        i = i + 1;
    }
    proof {
        assert(cs.take(count as int) =~= cs);
    }
    let misc = match misc_op {
        Some(m) => m,
        None => return Err(ParseError::MissingTag("misc".to_owned())),
    };
    let literal = match literal_op {
        Some(l) => l,
        None => return Err(ParseError::MissingTag("literal".to_owned())),
    };
    let codepoints = match codepoints_op {
        Some(v) => v,
        None => return Err(ParseError::MissingTag("codepoint".to_owned())),
    };
    let radicals = match radicals_op {
        Some(v) => v,
        None => return Err(ParseError::MissingTag("radical".to_owned())),
    };
    let reading_meanings = match rm_op {
        Some(v) => v,
        None => {
            let v: Vec<ReadingMeaning> = Vec::new();
            proof {
                assert(v@.map_values(|g: ReadingMeaning| g@) =~= Seq::<ReadingMeaningV>::empty());
            }
            v
        },
    };
    let nanori_readings = match nanori_op {
        Some(v) => v,
        None => {
            let v: Vec<String> = Vec::new();
            proof {
                assert(v@.map_values(|s: String| s@) =~= Seq::<Seq<char>>::empty());
            }
            v
        },
    };
    let dic_refs = match dic_refs_op {
        Some(v) => v,
        None => {
            let v: Vec<DicRef> = Vec::new();
            proof {
                assert(v@.map_values(|d: DicRef| d@) =~= Seq::<DicRefV>::empty());
            }
            v
        },
    };
    Ok(
        Entry {
            literal,
            codepoints,
            reading_meanings,
            nanori_readings,
            radicals,
            stroke_count: misc.stroke_count,
            stroke_miscounts: misc.stroke_miscounts,
            grade: misc.grade,
            freq: misc.freq,
            old_jlpt: misc.old_jlpt,
            dic_refs,
        },
    )
}

/// The parsed header, in executable form.
pub struct HeaderData {
    pub file_version: u32,
    pub database_version: String,
    pub creation_date: String,
}

pub fn parse_header(n: &roxmltree::Node) -> (r: Result<HeaderData, ParseError>)
    ensures
        match r {
            Ok(h) => header_spec(node_view(*n)) == Ok::<HeaderV, ParseErrorV>(
                HeaderV {
                    file_version: h.file_version,
                    database_version: h.database_version@,
                    creation_date: h.creation_date@,
                },
            ),
            Err(e) => header_spec(node_view(*n)) == Err::<HeaderV, ParseErrorV>(e@),
        },
{
    let fv_node = match find_child_tag(n, "file_version") {
        Some(c) => c,
        None => return Err(ParseError::MissingTag("file_version".to_owned())),
    };
    let fv_text = match get_text(&fv_node) {
        Ok(t) => t,
        Err(e) => return Err(e),
    };
    let file_version = match parse_u32(fv_text.as_str()) {
        Some(v) => v,
        None => return Err(ParseError::BadNumber(fv_text)),
    };
    let dv_node = match find_child_tag(n, "database_version") {
        Some(c) => c,
        None => return Err(ParseError::MissingTag("database_version".to_owned())),
    };
    let database_version = match get_text(&dv_node) {
        Ok(t) => t,
        Err(e) => return Err(e),
    };
    let dc_node = match find_child_tag(n, "date_of_creation") {
        Some(c) => c,
        None => return Err(ParseError::MissingTag("date_of_creation".to_owned())),
    };
    let creation_date = match get_text(&dc_node) {
        Ok(t) => t,
        Err(e) => return Err(e),
    };
    Ok(HeaderData { file_version, database_version, creation_date })
}

pub fn parse_entries(root: &roxmltree::Node, table: &RadicalTable) -> (r: Result<
    Vec<Entry>,
    ParseError,
>)
    ensures
        match r {
            Ok(v) => entries_spec(node_view(*root), table@) == Ok::<Seq<EntryV>, ParseErrorV>(
                v@.map_values(|e: Entry| e@),
            ),
            Err(e) => entries_spec(node_view(*root), table@) == Err::<Seq<EntryV>, ParseErrorV>(
                e@,
            ),
        },
{
    let count = node_child_count(root);
    let ghost cs = node_view(*root).children;
    let mut out: Vec<Entry> = Vec::new();
    let mut i: usize = 0;
    proof {
        assert(out@.map_values(|e: Entry| e@) =~= Seq::<EntryV>::empty());
    }
    while i < count
        invariant
            count == cs.len(),
            cs == node_view(*root).children,
            i <= count,
            fold_nodes(cs.take(i as int), Seq::<EntryV>::empty(), entries_step(table@)) == Ok::<
                Seq<EntryV>,
                ParseErrorV,
            >(out@.map_values(|e: Entry| e@)),
        decreases count - i,
    {
        let c = node_child(root, i);
        proof {
            lemma_fold_nodes_step(cs, Seq::<EntryV>::empty(), entries_step(table@), i as int);
        }
        let tag = node_tag(&c);
        if str_eq(tag.as_str(), "character") {
            match parse_entry(&c, table) {
                Ok(en) => {
                    let ghost before = out@;
                    out.push(en);
                    proof {
                        assert(out@.map_values(|e: Entry| e@) =~= before.map_values(
                            |e: Entry| e@,
                        ).push(en@));
                    }
                },
                Err(e) => {
                    proof {
                        lemma_fold_nodes_err(cs, Seq::<EntryV>::empty(), entries_step(table@), i + 1);
                    }
                    return Err(e);
                },
            }
        }
        i = i + 1;
    }
    proof {
        assert(cs.take(count as int) =~= cs);
    }
    Ok(out)
}

impl Kanjidic {
    /// Decodes a whole dictionary document from its text, resolving radical
    /// indices through `radicals`. The load is all-or-nothing: the first
    /// structural or validation problem is returned and no partial document
    /// ever is.
    pub fn load(text: &str, radicals: &RadicalTable) -> (r: Result<Kanjidic, ParseError>)
        ensures
            result_view(r) == load_spec(text@, radicals@),
    {
        let doc = match xml_parse(text) {
            Ok(d) => d,
            Err(m) => return Err(ParseError::Markup(m)),
        };
        let root = doc_root(&doc);
        let kd = match find_child_tag(&root, "kanjidic2") {
            Some(c) => c,
            None => return Err(ParseError::MissingTag("kanjidic2".to_owned())),
        };
        let header_node = match find_child_tag(&kd, "header") {
            Some(c) => c,
            None => return Err(ParseError::MissingTag("header".to_owned())),
        };
        let header = match parse_header(&header_node) {
            Ok(h) => h,
            Err(e) => return Err(e),
        };
        let entries = match parse_entries(&kd, radicals) {
            Ok(es) => es,
            Err(e) => return Err(e),
        };
        Ok(
            Kanjidic {
                file_version: header.file_version,
                database_version: header.database_version,
                creation_date: header.creation_date,
                entries,
            },
        )
    }
}

} // verus!
