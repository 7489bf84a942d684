//! Properties of the decoder that hold for every input, each proved once
//! and for all.

use crate::decode::{
    attr_spec, dic_ref_spec, dic_ref_valids, entries_step, entry_spec, entry_step, fold_nodes,
    grade_of, grade_valids, header_spec, lemma_fold_nodes_err, lemma_fold_nodes_step, load_spec,
    misc_spec, misc_step, text_spec, empty_entry_acc, empty_misc_acc, find_tag,
};
use crate::model::{DicRefV, EntryV, Grade, KanjidicV, ParseErrorV};
use crate::num::{dec_str, parse_u32_spec};
use crate::xml::{NodeV, xml_doc_of};
use vstd::prelude::*;

verus! {

broadcast use vstd::string::group_string_axioms;

/// Loading is deterministic: identical text and an identical radical table
/// always yield an identical result, field for field.
pub proof fn lemma_load_deterministic(
    s1: Seq<char>,
    s2: Seq<char>,
    t1: Seq<Seq<char>>,
    t2: Seq<Seq<char>>,
)
    requires
        s1 == s2,
        t1 == t2,
    ensures
        load_spec(s1, t1) == load_spec(s2, t2),
{
}

/// The grade classification of each source value: years one through six
/// carry that year, eight is the general-use standard, nine the name-use
/// standard, ten the general-use variant, and every other value is outside
/// the closed set.
pub proof fn lemma_grade_mapping()
    ensures
        forall|i: u32| 1 <= i <= 6 ==> grade_of(i) == Some(Grade::Kyouiku(i)),
        grade_of(8) == Some(Grade::Jouyou),
        grade_of(9) == Some(Grade::Jinmeiyou),
        grade_of(10) == Some(Grade::JouyouVariant),
        forall|i: u32|
            !(1 <= i <= 6) && i != 8 && i != 9 && i != 10 ==> (#[trigger] grade_of(i)) is None,
{
}

/// The type label one dictionary reference decodes from. `NeillKK` is
/// never decoded (no label maps to it; `lemma_dic_ref_round_trip` proves
/// it is never produced), so it shares `OneillKK`'s label to keep the
/// function total.
pub open spec fn dic_ref_label(d: DicRefV) -> Seq<char> {
    match d {
        DicRefV::NelsonC(_) => "nelson_c"@,
        DicRefV::NelsonN(_) => "nelson_n"@,
        DicRefV::HalpernNJECD(_) => "halpern_njecd"@,
        DicRefV::HalpernKKD(_) => "halpern_kkd"@,
        DicRefV::HalpernKKLD(_) => "halpern_kkld"@,
        DicRefV::HalpernKKLD2(_) => "halpern_kkld_2ed"@,
        DicRefV::Heisig(_) => "heisig"@,
        DicRefV::Heisig6(_) => "heisig6"@,
        DicRefV::Gakken(_) => "gakken"@,
        DicRefV::OneillNames(_) => "oneill_names"@,
        DicRefV::OneillKK(_) => "oneill_kk"@,
        DicRefV::NeillKK(_) => "oneill_kk"@,
        DicRefV::Moro(_, _, _) => "moro"@,
        DicRefV::Henshall(_) => "henshall"@,
        DicRefV::SHKK(_) => "sh_kk"@,
        DicRefV::SHKK2(_) => "sh_kk2"@,
        DicRefV::Sakade(_) => "sakade"@,
        DicRefV::JFCards(_) => "jf_cards"@,
        DicRefV::Henshall3(_) => "henshall3"@,
        DicRefV::TuttCards(_) => "tutt_cards"@,
        DicRefV::Crowley(_) => "crowley"@,
        DicRefV::InContext(_) => "kanji_in_context"@,
        DicRefV::BusyPeople(_) => "busy_people"@,
        DicRefV::KodanshaCompact(_) => "kodansha_compact"@,
        DicRefV::Maniette(_) => "maniette"@,
    }
}

/// The reference string one dictionary reference carries.
pub open spec fn dic_ref_value(d: DicRefV) -> Seq<char> {
    match d {
        DicRefV::NelsonC(s) => s,
        DicRefV::NelsonN(s) => s,
        DicRefV::HalpernNJECD(s) => s,
        DicRefV::HalpernKKD(s) => s,
        DicRefV::HalpernKKLD(s) => s,
        DicRefV::HalpernKKLD2(s) => s,
        DicRefV::Heisig(s) => s,
        DicRefV::Heisig6(s) => s,
        DicRefV::Gakken(s) => s,
        DicRefV::OneillNames(s) => s,
        DicRefV::OneillKK(s) => s,
        DicRefV::NeillKK(s) => s,
        DicRefV::Moro(s, _, _) => s,
        DicRefV::Henshall(s) => s,
        DicRefV::SHKK(s) => s,
        DicRefV::SHKK2(s) => s,
        DicRefV::Sakade(s) => s,
        DicRefV::JFCards(s) => s,
        DicRefV::Henshall3(s) => s,
        DicRefV::TuttCards(s) => s,
        DicRefV::Crowley(s) => s,
        DicRefV::InContext(s) => s,
        DicRefV::BusyPeople(s) => s,
        DicRefV::KodanshaCompact(s) => s,
        DicRefV::Maniette(s) => s,
    }
}

/// The accepted dictionary-reference list has exactly twenty-four labels.
/// A reference that decodes carries exactly its element's text and the
/// label it was decoded from — so the reference determines the label, and
/// the never-decoded `NeillKK` variant is indeed never produced. Every
/// accepted label other than `moro` decodes as soon as text and type
/// attribute are in order; `moro` additionally needs its two optional
/// numeric attributes to be numeric. A type label outside the list fails
/// with the enumeration error carrying that whole list.
pub proof fn lemma_dic_ref_round_trip(n: NodeV)
    ensures
        dic_ref_valids().len() == 24,
        dic_ref_spec(n) matches Ok(d) ==> {
            &&& attr_spec(n, "dr_type"@) is Ok
            &&& dic_ref_label(d) == attr_spec(n, "dr_type"@)->Ok_0
            &&& text_spec(n) is Ok
            &&& dic_ref_value(d) == text_spec(n)->Ok_0
            &&& !(d is NeillKK)
            &&& dic_ref_valids().contains(dic_ref_label(d))
        },
        (text_spec(n) is Ok && attr_spec(n, "dr_type"@) is Ok && dic_ref_valids().contains(
            attr_spec(n, "dr_type"@)->Ok_0,
        ) && attr_spec(n, "dr_type"@)->Ok_0 != "moro"@) ==> dic_ref_spec(n) is Ok,
        (text_spec(n) is Ok && attr_spec(n, "dr_type"@) == Ok::<Seq<char>, ParseErrorV>("moro"@)
            && crate::decode::moro_num_attr(n, "m_vol"@) is Ok && crate::decode::moro_num_attr(
            n,
            "m_page"@,
        ) is Ok) ==> dic_ref_spec(n) is Ok,
        (text_spec(n) is Ok && attr_spec(n, "dr_type"@) is Ok && !dic_ref_valids().contains(
            attr_spec(n, "dr_type"@)->Ok_0,
        )) ==> dic_ref_spec(n) == Err::<DicRefV, ParseErrorV>(
            ParseErrorV::InvalidEnum(attr_spec(n, "dr_type"@)->Ok_0, dic_ref_valids()),
        ),
{
    if text_spec(n) is Ok && attr_spec(n, "dr_type"@) is Ok {
        let t = attr_spec(n, "dr_type"@)->Ok_0;
        {
            assert(dic_ref_valids()[0] == "nelson_c"@);
            assert(dic_ref_valids()[1] == "nelson_n"@);
            assert(dic_ref_valids()[2] == "halpern_njecd"@);
            assert(dic_ref_valids()[3] == "halpern_kkd"@);
            assert(dic_ref_valids()[4] == "halpern_kkld"@);
            assert(dic_ref_valids()[5] == "halpern_kkld_2ed"@);
            assert(dic_ref_valids()[6] == "heisig"@);
            assert(dic_ref_valids()[7] == "heisig6"@);
            assert(dic_ref_valids()[8] == "gakken"@);
            assert(dic_ref_valids()[9] == "oneill_names"@);
            assert(dic_ref_valids()[10] == "oneill_kk"@);
            assert(dic_ref_valids()[11] == "henshall"@);
            assert(dic_ref_valids()[12] == "henshall3"@);
            assert(dic_ref_valids()[13] == "sh_kk"@);
            assert(dic_ref_valids()[14] == "sh_kk2"@);
            assert(dic_ref_valids()[15] == "sakade"@);
            assert(dic_ref_valids()[16] == "jf_cards"@);
            assert(dic_ref_valids()[17] == "tutt_cards"@);
            assert(dic_ref_valids()[18] == "crowley"@);
            assert(dic_ref_valids()[19] == "kanji_in_context"@);
            assert(dic_ref_valids()[20] == "busy_people"@);
            assert(dic_ref_valids()[21] == "kodansha_compact"@);
            assert(dic_ref_valids()[22] == "maniette"@);
            assert(dic_ref_valids()[23] == "moro"@);
        }
    }
}

/// A list and one more node: the first find is the earlier one.
proof fn lemma_find_tag_snoc(cs: Seq<NodeV>, tag: Seq<char>)
    requires
        cs.len() > 0,
    ensures
        find_tag(cs, tag) == match find_tag(cs.drop_last(), tag) {
            Some(c) => Some(c),
            None => if cs.last().tag == tag {
                Some(cs.last())
            } else {
                None
            },
        },
    decreases cs.len(),
{
    if cs.len() == 1 {
        assert(cs.drop_last() =~= Seq::<NodeV>::empty());
        if cs[0].tag != tag {
            assert(cs.drop_first() =~= Seq::<NodeV>::empty());
        }
    } else {
        assert(cs.drop_last()[0] == cs[0]);
        if cs[0].tag != tag {
            assert(cs.drop_first().drop_last() =~= cs.drop_last().drop_first());
            lemma_find_tag_snoc(cs.drop_first(), tag);
            assert(cs.drop_first().last() == cs.last());
        }
    }
}

/// The parsed numeric text of the first child with the given tag, if that
/// child exists and its text is a numeral.
pub open spec fn first_num_of(cs: Seq<NodeV>, tag: Seq<char>) -> Option<u32> {
    match find_tag(cs, tag) {
        None => None,
        Some(c) => match text_spec(c) {
            Ok(t) => parse_u32_spec(t),
            Err(_) => None,
        },
    }
}

proof fn lemma_misc_fold_firsts(cs: Seq<NodeV>)
    ensures
        match fold_nodes(cs, empty_misc_acc(), misc_step()) {
            Ok(acc) => {
                &&& (find_tag(cs, "grade"@) matches Some(c) ==> text_spec(c) is Ok
                    && parse_u32_spec(text_spec(c)->Ok_0) is Some && grade_of(
                    parse_u32_spec(text_spec(c)->Ok_0)->Some_0,
                ) is Some)
                &&& acc.grade == (match first_num_of(cs, "grade"@) {
                    Some(g) => grade_of(g),
                    None => None,
                })
                &&& (find_tag(cs, "freq"@) matches Some(c) ==> text_spec(c) is Ok
                    && parse_u32_spec(text_spec(c)->Ok_0) is Some)
                &&& acc.freq == first_num_of(cs, "freq"@)
                &&& (find_tag(cs, "jlpt"@) matches Some(c) ==> text_spec(c) is Ok
                    && parse_u32_spec(text_spec(c)->Ok_0) is Some)
                &&& acc.jlpt == first_num_of(cs, "jlpt"@)
            },
            Err(_) => true,
        },
    decreases cs.len(),
{
    reveal_strlit("grade");
    reveal_strlit("freq");
    reveal_strlit("jlpt");
    reveal_strlit("stroke_count");
    assert("grade"@.len() == 5);
    assert("freq"@.len() == 4);
    assert("jlpt"@.len() == 4);
    assert("stroke_count"@.len() == 12);
    assert("freq"@[0] == 'f');
    assert("jlpt"@[0] == 'j');
    assert("grade"@ != "freq"@ && "grade"@ != "jlpt"@ && "grade"@ != "stroke_count"@);
    assert("freq"@ != "jlpt"@ && "freq"@ != "stroke_count"@ && "jlpt"@ != "stroke_count"@);
    if cs.len() > 0 {
        lemma_misc_fold_firsts(cs.drop_last());
        lemma_find_tag_snoc(cs, "grade"@);
        lemma_find_tag_snoc(cs, "freq"@);
        lemma_find_tag_snoc(cs, "jlpt"@);
    }
}

/// Grade, frequency and legacy-JLPT each keep at most one value per misc
/// group: the first child of each tag decides, and when a grade child is
/// present at all, the decoded group carries its mapped grade.
pub proof fn lemma_misc_first_occurrence_wins(n: NodeV)
    ensures
        misc_spec(n) matches Ok(m) ==> {
            &&& m.grade == (match first_num_of(n.children, "grade"@) {
                Some(g) => grade_of(g),
                None => None,
            })
            &&& (find_tag(n.children, "grade"@) is Some ==> m.grade is Some)
            &&& m.freq == first_num_of(n.children, "freq"@)
            &&& m.jlpt == first_num_of(n.children, "jlpt"@)
        },
{
    lemma_misc_fold_firsts(n.children);
}

/// A grade child whose value is outside the closed set fails the whole
/// misc group with the enumeration error carrying that value and the nine
/// accepted ones, provided everything before it stepped through.
pub proof fn lemma_misc_grade_out_of_set(n: NodeV, k: int, g: u32)
    requires
        0 <= k < n.children.len(),
        n.children[k].tag == "grade"@,
        fold_nodes(n.children.take(k), empty_misc_acc(), misc_step()) is Ok,
        text_spec(n.children[k]) is Ok,
        parse_u32_spec(text_spec(n.children[k])->Ok_0) == Some(g),
        grade_of(g) is None,
    ensures
        misc_spec(n) == Err::<crate::decode::MiscV, ParseErrorV>(
            ParseErrorV::InvalidEnum(dec_str(g as int), grade_valids()),
        ),
{
    lemma_fold_nodes_step(n.children, empty_misc_acc(), misc_step(), k);
    lemma_fold_nodes_err(n.children, empty_misc_acc(), misc_step(), k + 1);
}

/// A grade child whose text is no numeral fails the whole misc group with
/// the conversion error carrying that text, provided everything before it
/// stepped through.
pub proof fn lemma_misc_grade_not_numeric(n: NodeV, k: int)
    requires
        0 <= k < n.children.len(),
        n.children[k].tag == "grade"@,
        fold_nodes(n.children.take(k), empty_misc_acc(), misc_step()) is Ok,
        text_spec(n.children[k]) is Ok,
        parse_u32_spec(text_spec(n.children[k])->Ok_0) is None,
    ensures
        misc_spec(n) == Err::<crate::decode::MiscV, ParseErrorV>(
            ParseErrorV::BadNumber(text_spec(n.children[k])->Ok_0),
        ),
{
    lemma_fold_nodes_step(n.children, empty_misc_acc(), misc_step(), k);
    lemma_fold_nodes_err(n.children, empty_misc_acc(), misc_step(), k + 1);
}

proof fn lemma_misc_fold_no_strokes(cs: Seq<NodeV>)
    requires
        forall|k: int| 0 <= k < cs.len() ==> (#[trigger] cs[k]).tag != "stroke_count"@,
    ensures
        match fold_nodes(cs, empty_misc_acc(), misc_step()) {
            Ok(acc) => acc.strokes.len() == 0,
            Err(_) => true,
        },
    decreases cs.len(),
{
    if cs.len() > 0 {
        assert(forall|k: int|
            0 <= k < cs.drop_last().len() ==> (#[trigger] cs.drop_last()[k]).tag
                != "stroke_count"@);
        lemma_misc_fold_no_strokes(cs.drop_last());
        assert(cs[cs.len() - 1] == cs.last());
    }
}

/// A misc group without a stroke-count child never decodes; when nothing
/// else fails first, the failure is the missing-element error naming the
/// stroke-count tag and no other.
pub proof fn lemma_misc_missing_stroke(n: NodeV)
    requires
        forall|k: int| 0 <= k < n.children.len() ==> (#[trigger] n.children[k]).tag
            != "stroke_count"@,
    ensures
        misc_spec(n) is Err,
        fold_nodes(n.children, empty_misc_acc(), misc_step()) is Ok ==> misc_spec(n) == Err::<
            crate::decode::MiscV,
            ParseErrorV,
        >(ParseErrorV::MissingTag("stroke_count"@)),
{
    lemma_misc_fold_no_strokes(n.children);
}

proof fn lemma_misc_fold_has_stroke(cs: Seq<NodeV>)
    requires
        exists|k: int| 0 <= k < cs.len() && (#[trigger] cs[k]).tag == "stroke_count"@,
    ensures
        match fold_nodes(cs, empty_misc_acc(), misc_step()) {
            Ok(acc) => acc.strokes.len() > 0,
            Err(_) => true,
        },
    decreases cs.len(),
{
    reveal_strlit("grade");
    reveal_strlit("stroke_count");
    assert("grade"@.len() == 5);
    assert("stroke_count"@.len() == 12);
    assert("grade"@ != "stroke_count"@);
    let k = choose|k: int| 0 <= k < cs.len() && (#[trigger] cs[k]).tag == "stroke_count"@;
    if k < cs.len() - 1 {
        assert(cs.drop_last()[k] == cs[k]);
        lemma_misc_fold_has_stroke(cs.drop_last());
    } else {
        assert(cs[cs.len() - 1] == cs.last());
    }
}

/// A misc group whose children all step through and which has a
/// stroke-count child decodes successfully.
pub proof fn lemma_misc_decodes(n: NodeV)
    requires
        fold_nodes(n.children, empty_misc_acc(), misc_step()) is Ok,
        exists|k: int|
            0 <= k < n.children.len() && (#[trigger] n.children[k]).tag == "stroke_count"@,
    ensures
        misc_spec(n) is Ok,
{
    lemma_misc_fold_has_stroke(n.children);
}

/// A character element whose misc group has no stroke-count child fails
/// the whole entry with the missing-element error naming the stroke-count
/// tag, provided everything before the misc group stepped through and the
/// misc group itself steps through up to the missing-count check.
pub proof fn lemma_entry_missing_stroke(n: NodeV, table: Seq<Seq<char>>, k: int)
    requires
        0 <= k < n.children.len(),
        n.children[k].tag == "misc"@,
        fold_nodes(n.children.take(k), empty_entry_acc(), entry_step(table)) is Ok,
        forall|j: int|
            0 <= j < n.children[k].children.len() ==> (#[trigger] n.children[k].children[j]).tag
                != "stroke_count"@,
        fold_nodes(n.children[k].children, empty_misc_acc(), misc_step()) is Ok,
    ensures
        entry_spec(n, table) == Err::<EntryV, ParseErrorV>(
            ParseErrorV::MissingTag("stroke_count"@),
        ),
{
    reveal_strlit("misc");
    reveal_strlit("literal");
    reveal_strlit("codepoint");
    reveal_strlit("radical");
    assert("misc"@.len() == 4);
    assert("literal"@.len() == 7);
    assert("codepoint"@.len() == 9);
    assert("radical"@.len() == 7);
    assert("misc"@ != "literal"@ && "misc"@ != "codepoint"@ && "misc"@ != "radical"@);
    lemma_misc_missing_stroke(n.children[k]);
    lemma_fold_nodes_step(n.children, empty_entry_acc(), entry_step(table), k);
    lemma_fold_nodes_err(n.children, empty_entry_acc(), entry_step(table), k + 1);
}

/// A document whose root element and header are in order, and whose
/// character elements decode up to one whose misc group lacks a
/// stroke-count child, fails to load with the missing-element error naming
/// the stroke-count tag and no other.
pub proof fn lemma_load_missing_stroke(s: Seq<char>, table: Seq<Seq<char>>, i: int, k: int)
    requires
        xml_doc_of(s) is Ok,
        find_tag(xml_doc_of(s)->Ok_0.children, "kanjidic2"@) is Some,
        ({
            let r = find_tag(xml_doc_of(s)->Ok_0.children, "kanjidic2"@)->Some_0;
            &&& find_tag(r.children, "header"@) is Some
            &&& header_spec(find_tag(r.children, "header"@)->Some_0) is Ok
            &&& 0 <= i < r.children.len()
            &&& r.children[i].tag == "character"@
            &&& fold_nodes(r.children.take(i), Seq::<EntryV>::empty(), entries_step(table)) is Ok
            &&& 0 <= k < r.children[i].children.len()
            &&& r.children[i].children[k].tag == "misc"@
            &&& fold_nodes(
                r.children[i].children.take(k),
                empty_entry_acc(),
                entry_step(table),
            ) is Ok
            &&& (forall|j: int|
                0 <= j < r.children[i].children[k].children.len() ==> (#[trigger] r.children[i].children[k].children[j]).tag
                    != "stroke_count"@)
            &&& fold_nodes(
                r.children[i].children[k].children,
                empty_misc_acc(),
                misc_step(),
            ) is Ok
        }),
    ensures
        load_spec(s, table) == Err::<KanjidicV, ParseErrorV>(
            ParseErrorV::MissingTag("stroke_count"@),
        ),
{
    let r = find_tag(xml_doc_of(s)->Ok_0.children, "kanjidic2"@)->Some_0;
    lemma_entry_missing_stroke(r.children[i], table, k);
    lemma_fold_nodes_step(r.children, Seq::<EntryV>::empty(), entries_step(table), i);
    lemma_fold_nodes_err(r.children, Seq::<EntryV>::empty(), entries_step(table), i + 1);
}

proof fn lemma_misc_fold_strokes(cs: Seq<NodeV>)
    ensures
        match fold_nodes(cs, empty_misc_acc(), misc_step()) {
            Ok(acc) => forall|i: int| 0 <= i < acc.strokes.len() ==> #[trigger] acc.strokes[i] >= 1,
            Err(_) => true,
        },
    decreases cs.len(),
{
    if cs.len() > 0 {
        lemma_misc_fold_strokes(cs.drop_last());
        assert(cs[cs.len() - 1] == cs.last());
    }
}

/// A misc group only ever decodes with positive counts: the canonical
/// stroke count and every miscount are at least one, since a reported
/// count of zero fails the parse.
pub proof fn lemma_misc_stroke_positive(n: NodeV)
    ensures
        misc_spec(n) matches Ok(m) ==> m.stroke_count >= 1 && (forall|i: int|
            0 <= i < m.stroke_miscounts.len() ==> #[trigger] m.stroke_miscounts[i] >= 1),
{
    lemma_misc_fold_strokes(n.children);
}

proof fn lemma_entry_fold_inv(cs: Seq<NodeV>, table: Seq<Seq<char>>)
    ensures
        match fold_nodes(cs, empty_entry_acc(), entry_step(table)) {
            Ok(acc) => (acc.literal matches Some(l) ==> l.len() > 0) && (acc.misc matches Some(m)
                ==> m.stroke_count >= 1),
            Err(_) => true,
        },
    decreases cs.len(),
{
    if cs.len() > 0 {
        lemma_entry_fold_inv(cs.drop_last(), table);
        let last = cs.last();
        assert(cs[cs.len() - 1] == last);
        if last.tag == "misc"@ {
            lemma_misc_stroke_positive(last);
        }
    }
}

/// In a decoded entry the literal is never empty — text extraction fails
/// on an absent or empty literal — and the stroke count is at least one,
/// since a reported count of zero fails the parse.
pub proof fn lemma_entry_invariants(n: NodeV, table: Seq<Seq<char>>)
    ensures
        entry_spec(n, table) matches Ok(e) ==> e.literal.len() > 0 && e.stroke_count >= 1,
{
    lemma_entry_fold_inv(n.children, table);
}

proof fn lemma_entries_fold_inv(cs: Seq<NodeV>, table: Seq<Seq<char>>)
    ensures
        match fold_nodes(cs, Seq::<EntryV>::empty(), entries_step(table)) {
            Ok(es) => forall|i: int|
                0 <= i < es.len() ==> (#[trigger] es[i]).literal.len() > 0 && es[i].stroke_count
                    >= 1,
            Err(_) => true,
        },
    decreases cs.len(),
{
    if cs.len() > 0 {
        lemma_entries_fold_inv(cs.drop_last(), table);
        let last = cs.last();
        assert(cs[cs.len() - 1] == last);
        if last.tag == "character"@ {
            lemma_entry_invariants(last, table);
        }
    }
}

/// In every entry of a loaded document the literal is non-empty and every
/// stroke count is at least one, whatever the source held.
pub proof fn lemma_load_entry_invariants(s: Seq<char>, table: Seq<Seq<char>>)
    ensures
        match load_spec(s, table) {
            Ok(d) => forall|i: int|
                0 <= i < d.entries.len() ==> (#[trigger] d.entries[i]).literal.len() > 0
                    && d.entries[i].stroke_count >= 1,
            Err(_) => true,
        },
{
    if xml_doc_of(s) is Ok {
        let root = xml_doc_of(s)->Ok_0;
        match find_tag(root.children, "kanjidic2"@) {
            Some(r) => {
                lemma_entries_fold_inv(r.children, table);
            },
            None => {},
        }
    }
}

} // verus!