use kanjidic::{
    DicRef, Grade, Kanjidic, OnyomiType, ParseError, RadicalTable, RadicalType, ReadingType,
    parse_u32, u32_to_string,
};

fn kangxi_table() -> RadicalTable {
    let mut values: Vec<String> = Vec::new();
    for i in 0..214u32 {
        values.push(char::from_u32(0x2F00 + i).unwrap().to_string());
    }
    RadicalTable { values }
}

fn minimal_doc() -> String {
    r#"<kanjidic2>
  <header>
    <file_version>4</file_version>
    <database_version>1.0</database_version>
    <date_of_creation>2024-01-01</date_of_creation>
  </header>
  <character>
    <literal>&#x65e5;</literal>
    <codepoint><cp_value cp_type="ucs">65e5</cp_value></codepoint>
    <radical><rad_value rad_type="classical">72</rad_value></radical>
    <misc><grade>8</grade><stroke_count>4</stroke_count></misc>
    <reading_meaning>
      <rmgroup>
        <reading r_type="ja_kun">&#x3072;</reading>
        <meaning>sun</meaning>
      </rmgroup>
    </reading_meaning>
  </character>
</kanjidic2>"#
        .to_string()
}

fn character_doc(character_body: &str) -> String {
    format!(
        "<kanjidic2><header><file_version>4</file_version>\
         <database_version>1.0</database_version>\
         <date_of_creation>2024-01-01</date_of_creation></header>\
         <character>{}</character></kanjidic2>",
        character_body
    )
}

fn misc_doc(misc_body: &str) -> String {
    character_doc(&format!(
        "<literal>x</literal><codepoint></codepoint><radical></radical><misc>{}</misc>",
        misc_body
    ))
}

#[test]
fn minimal_document_loads_verbatim() {
    let table = kangxi_table();
    let d = Kanjidic::load(&minimal_doc(), &table).unwrap();
    assert_eq!(d.file_version, 4);
    assert_eq!(d.database_version, "1.0");
    assert_eq!(d.creation_date, "2024-01-01");
    assert_eq!(d.entries.len(), 1);
    let e = &d.entries[0];
    assert_eq!(e.literal, "\u{65e5}");
    assert_eq!(e.codepoints.len(), 1);
    assert_eq!(e.codepoints[0].standard, "ucs");
    assert_eq!(e.codepoints[0].value, "65e5");
    assert_eq!(e.radicals.len(), 1);
    assert_eq!(e.radicals[0].classification, RadicalType::Classical);
    assert_eq!(e.radicals[0].value, char::from_u32(0x2F00 + 71).unwrap().to_string());
    assert_eq!(e.stroke_count, 4);
    assert!(e.stroke_miscounts.is_empty());
    assert_eq!(e.grade, Some(Grade::Jouyou));
    assert_eq!(e.freq, None);
    assert_eq!(e.old_jlpt, None);
    assert!(e.dic_refs.is_empty());
    assert_eq!(e.reading_meanings.len(), 1);
    let rm = &e.reading_meanings[0];
    assert_eq!(rm.readings.len(), 1);
    assert_eq!(rm.readings[0].value, "\u{3072}");
    assert_eq!(rm.readings[0].typ, ReadingType::Kunyomi(false));
    assert_eq!(rm.meanings.len(), 1);
    assert_eq!(rm.meanings[0].content, "sun");
    assert_eq!(rm.meanings[0].language, "en");
    assert!(e.nanori_readings.is_empty());
}

#[test]
fn load_is_deterministic() {
    let table = kangxi_table();
    let text = minimal_doc();
    let d1 = Kanjidic::load(&text, &table).unwrap();
    let d2 = Kanjidic::load(&text, &table).unwrap();
    assert_eq!(format!("{:?}", d1), format!("{:?}", d2));
}

#[test]
fn malformed_markup_fails() {
    let table = kangxi_table();
    let r = Kanjidic::load("this is no document", &table);
    assert!(matches!(r, Err(ParseError::Markup(_))));
}

#[test]
fn missing_root_fails() {
    let table = kangxi_table();
    let r = Kanjidic::load("<other/>", &table);
    assert!(matches!(r, Err(ParseError::MissingTag(t)) if t == "kanjidic2"));
}

#[test]
fn missing_header_fails() {
    let table = kangxi_table();
    let r = Kanjidic::load("<kanjidic2></kanjidic2>", &table);
    assert!(matches!(r, Err(ParseError::MissingTag(t)) if t == "header"));
}

#[test]
fn missing_file_version_fails() {
    let table = kangxi_table();
    let text = "<kanjidic2><header><database_version>1.0</database_version>\
                <date_of_creation>d</date_of_creation></header></kanjidic2>";
    let r = Kanjidic::load(text, &table);
    assert!(matches!(r, Err(ParseError::MissingTag(t)) if t == "file_version"));
}

#[test]
fn non_numeric_file_version_fails() {
    let table = kangxi_table();
    let text = "<kanjidic2><header><file_version>abc</file_version>\
                <database_version>1.0</database_version>\
                <date_of_creation>d</date_of_creation></header></kanjidic2>";
    let r = Kanjidic::load(text, &table);
    assert!(matches!(r, Err(ParseError::BadNumber(t)) if t == "abc"));
}

#[test]
fn missing_stroke_count_names_that_tag_only() {
    let table = kangxi_table();
    let text = character_doc(
        "<literal>x</literal><codepoint></codepoint><radical></radical><misc><grade>8</grade></misc>",
    );
    let r = Kanjidic::load(&text, &table);
    assert!(matches!(r, Err(ParseError::MissingTag(t)) if t == "stroke_count"));
}

#[test]
fn missing_misc_fails() {
    let table = kangxi_table();
    let text = character_doc("<literal>x</literal><codepoint></codepoint><radical></radical>");
    let r = Kanjidic::load(&text, &table);
    assert!(matches!(r, Err(ParseError::MissingTag(t)) if t == "misc"));
}

#[test]
fn missing_literal_fails() {
    let table = kangxi_table();
    let text = character_doc(
        "<codepoint></codepoint><radical></radical><misc><stroke_count>1</stroke_count></misc>",
    );
    let r = Kanjidic::load(&text, &table);
    assert!(matches!(r, Err(ParseError::MissingTag(t)) if t == "literal"));
}

#[test]
fn empty_literal_fails() {
    let table = kangxi_table();
    let text = character_doc(
        "<literal></literal><codepoint></codepoint><radical></radical>\
         <misc><stroke_count>1</stroke_count></misc>",
    );
    let r = Kanjidic::load(&text, &table);
    assert!(matches!(r, Err(ParseError::MissingTag(t)) if t == "literal"));
}

#[test]
fn missing_codepoint_group_fails() {
    let table = kangxi_table();
    let text = character_doc(
        "<literal>x</literal><radical></radical><misc><stroke_count>1</stroke_count></misc>",
    );
    let r = Kanjidic::load(&text, &table);
    assert!(matches!(r, Err(ParseError::MissingTag(t)) if t == "codepoint"));
}

#[test]
fn missing_radical_group_fails() {
    let table = kangxi_table();
    let text = character_doc(
        "<literal>x</literal><codepoint></codepoint><misc><stroke_count>1</stroke_count></misc>",
    );
    let r = Kanjidic::load(&text, &table);
    assert!(matches!(r, Err(ParseError::MissingTag(t)) if t == "radical"));
}

#[test]
fn unknown_elements_are_skipped() {
    let table = kangxi_table();
    let text = character_doc(
        "<literal>x</literal><query_code><q_code qc_type=\"skip\">1-1-1</q_code></query_code>\
         <codepoint></codepoint><radical></radical><misc><stroke_count>1</stroke_count></misc>",
    );
    let d = Kanjidic::load(&text, &table).unwrap();
    assert_eq!(d.entries[0].literal, "x");
}

#[test]
fn grade_values_map_to_variants() {
    let table = kangxi_table();
    for g in 1u32..=6 {
        let text = misc_doc(&format!("<grade>{}</grade><stroke_count>1</stroke_count>", g));
        let d = Kanjidic::load(&text, &table).unwrap();
        assert_eq!(d.entries[0].grade, Some(Grade::Kyouiku(g)));
    }
    let cases = [(8u32, Grade::Jouyou), (9, Grade::Jinmeiyou), (10, Grade::JouyouVariant)];
    for (g, expect) in cases {
        let text = misc_doc(&format!("<grade>{}</grade><stroke_count>1</stroke_count>", g));
        let d = Kanjidic::load(&text, &table).unwrap();
        assert_eq!(d.entries[0].grade, Some(expect));
    }
}

#[test]
fn grade_out_of_set_is_enumeration_error() {
    let table = kangxi_table();
    for g in [0u32, 7, 11] {
        let text = misc_doc(&format!("<grade>{}</grade><stroke_count>1</stroke_count>", g));
        let r = Kanjidic::load(&text, &table);
        match r {
            Err(ParseError::InvalidEnum(v, valids)) => {
                assert_eq!(v, g.to_string());
                assert_eq!(valids, vec!["1", "2", "3", "4", "5", "6", "8", "9", "10"]);
            }
            other => panic!("expected enumeration error, got {:?}", other),
        }
    }
}

#[test]
fn first_grade_occurrence_wins() {
    let table = kangxi_table();
    let text = misc_doc("<grade>3</grade><grade>5</grade><stroke_count>1</stroke_count>");
    let d = Kanjidic::load(&text, &table).unwrap();
    assert_eq!(d.entries[0].grade, Some(Grade::Kyouiku(3)));
}

#[test]
fn first_freq_and_jlpt_occurrences_win() {
    let table = kangxi_table();
    let text = misc_doc(
        "<freq>10</freq><freq>20</freq><jlpt>1</jlpt><jlpt>2</jlpt>\
         <stroke_count>1</stroke_count>",
    );
    let d = Kanjidic::load(&text, &table).unwrap();
    assert_eq!(d.entries[0].freq, Some(10));
    assert_eq!(d.entries[0].old_jlpt, Some(1));
}

#[test]
fn later_invalid_grade_still_fails() {
    let table = kangxi_table();
    let text = misc_doc("<grade>3</grade><grade>7</grade><stroke_count>1</stroke_count>");
    let r = Kanjidic::load(&text, &table);
    assert!(matches!(r, Err(ParseError::InvalidEnum(v, _)) if v == "7"));
}

#[test]
fn grade_with_leading_plus_parses() {
    let table = kangxi_table();
    let text = misc_doc("<grade>+8</grade><stroke_count>1</stroke_count>");
    let d = Kanjidic::load(&text, &table).unwrap();
    assert_eq!(d.entries[0].grade, Some(Grade::Jouyou));
}

#[test]
fn grade_non_numeric_is_conversion_error() {
    let table = kangxi_table();
    let text = misc_doc("<grade>abc</grade><stroke_count>1</stroke_count>");
    let r = Kanjidic::load(&text, &table);
    assert!(matches!(r, Err(ParseError::BadNumber(t)) if t == "abc"));
}

#[test]
fn zero_stroke_count_is_rejected() {
    let table = kangxi_table();
    let text = misc_doc("<stroke_count>0</stroke_count>");
    let r = Kanjidic::load(&text, &table);
    assert!(matches!(r, Err(ParseError::BadNumber(t)) if t == "0"));
}

#[test]
fn zero_stroke_miscount_is_rejected() {
    let table = kangxi_table();
    let text = misc_doc("<stroke_count>4</stroke_count><stroke_count>0</stroke_count>");
    let r = Kanjidic::load(&text, &table);
    assert!(matches!(r, Err(ParseError::BadNumber(t)) if t == "0"));
}

#[test]
fn stroke_miscounts_follow_first_count() {
    let table = kangxi_table();
    let text = misc_doc(
        "<stroke_count>4</stroke_count><stroke_count>5</stroke_count>\
         <stroke_count>6</stroke_count><freq>100</freq><jlpt>2</jlpt>",
    );
    let d = Kanjidic::load(&text, &table).unwrap();
    let e = &d.entries[0];
    assert_eq!(e.stroke_count, 4);
    assert_eq!(e.stroke_miscounts, vec![5, 6]);
    assert_eq!(e.freq, Some(100));
    assert_eq!(e.old_jlpt, Some(2));
}

#[test]
fn radical_classifications_parse() {
    let table = kangxi_table();
    let text = character_doc(
        "<literal>x</literal><codepoint></codepoint>\
         <radical><rad_value rad_type=\"classical\">1</rad_value>\
         <rad_value rad_type=\"nelson_c\">2</rad_value></radical>\
         <misc><stroke_count>1</stroke_count></misc>",
    );
    let d = Kanjidic::load(&text, &table).unwrap();
    let rs = &d.entries[0].radicals;
    assert_eq!(rs.len(), 2);
    assert_eq!(rs[0].classification, RadicalType::Classical);
    assert_eq!(rs[0].value, char::from_u32(0x2F00).unwrap().to_string());
    assert_eq!(rs[1].classification, RadicalType::NelsonC);
    assert_eq!(rs[1].value, char::from_u32(0x2F01).unwrap().to_string());
}

#[test]
fn radical_bad_classification_is_enumeration_error() {
    let table = kangxi_table();
    let text = character_doc(
        "<literal>x</literal><codepoint></codepoint>\
         <radical><rad_value rad_type=\"bogus\">1</rad_value></radical>\
         <misc><stroke_count>1</stroke_count></misc>",
    );
    match Kanjidic::load(&text, &table) {
        Err(ParseError::InvalidEnum(v, valids)) => {
            assert_eq!(v, "bogus");
            assert_eq!(valids, vec!["classical", "nelson_c"]);
        }
        other => panic!("expected enumeration error, got {:?}", other),
    }
}

#[test]
fn radical_index_out_of_table_fails() {
    let table = kangxi_table();
    let text = character_doc(
        "<literal>x</literal><codepoint></codepoint>\
         <radical><rad_value rad_type=\"classical\">999</rad_value></radical>\
         <misc><stroke_count>1</stroke_count></misc>",
    );
    let r = Kanjidic::load(&text, &table);
    assert!(matches!(r, Err(ParseError::RadicalOutOfRange(999))));
}

#[test]
fn radical_index_zero_fails() {
    let table = kangxi_table();
    let text = character_doc(
        "<literal>x</literal><codepoint></codepoint>\
         <radical><rad_value rad_type=\"classical\">0</rad_value></radical>\
         <misc><stroke_count>1</stroke_count></misc>",
    );
    let r = Kanjidic::load(&text, &table);
    assert!(matches!(r, Err(ParseError::RadicalOutOfRange(0))));
}

#[test]
fn radical_non_numeric_index_fails() {
    let table = kangxi_table();
    let text = character_doc(
        "<literal>x</literal><codepoint></codepoint>\
         <radical><rad_value rad_type=\"classical\">one</rad_value></radical>\
         <misc><stroke_count>1</stroke_count></misc>",
    );
    let r = Kanjidic::load(&text, &table);
    assert!(matches!(r, Err(ParseError::BadNumber(t)) if t == "one"));
}

#[test]
fn codepoint_without_standard_attribute_fails() {
    let table = kangxi_table();
    let text = character_doc(
        "<literal>x</literal><codepoint><cp_value>65e5</cp_value></codepoint>\
         <radical></radical><misc><stroke_count>1</stroke_count></misc>",
    );
    let r = Kanjidic::load(&text, &table);
    assert!(matches!(r, Err(ParseError::MissingAttribute(a)) if a == "cp_type"));
}

#[test]
fn dic_ref_types_round_trip() {
    let table = kangxi_table();
    let types = [
        "nelson_c", "nelson_n", "halpern_njecd", "halpern_kkd", "halpern_kkld",
        "halpern_kkld_2ed", "heisig", "heisig6", "gakken", "oneill_names", "oneill_kk",
        "henshall", "henshall3", "sh_kk", "sh_kk2", "sakade", "jf_cards", "tutt_cards",
        "crowley", "kanji_in_context", "busy_people", "kodansha_compact", "maniette", "moro",
    ];
    let refs: String = types
        .iter()
        .map(|t| format!("<dic_ref dr_type=\"{}\">7</dic_ref>", t))
        .collect();
    let text = character_doc(&format!(
        "<literal>x</literal><codepoint></codepoint><radical></radical>\
         <misc><stroke_count>1</stroke_count></misc><dic_number>{}</dic_number>",
        refs
    ));
    let d = Kanjidic::load(&text, &table).unwrap();
    let ds = &d.entries[0].dic_refs;
    assert_eq!(ds.len(), 24);
    let expect = |i: usize| match &ds[i] {
        DicRef::NelsonC(s) => ("nelson_c", s.clone()),
        DicRef::NelsonN(s) => ("nelson_n", s.clone()),
        DicRef::HalpernNJECD(s) => ("halpern_njecd", s.clone()),
        DicRef::HalpernKKD(s) => ("halpern_kkd", s.clone()),
        DicRef::HalpernKKLD(s) => ("halpern_kkld", s.clone()),
        DicRef::HalpernKKLD2(s) => ("halpern_kkld_2ed", s.clone()),
        DicRef::Heisig(s) => ("heisig", s.clone()),
        DicRef::Heisig6(s) => ("heisig6", s.clone()),
        DicRef::Gakken(s) => ("gakken", s.clone()),
        DicRef::OneillNames(s) => ("oneill_names", s.clone()),
        DicRef::OneillKK(s) => ("oneill_kk", s.clone()),
        DicRef::NeillKK(s) => ("oneill_kk", s.clone()),
        DicRef::Henshall(s) => ("henshall", s.clone()),
        DicRef::Henshall3(s) => ("henshall3", s.clone()),
        DicRef::SHKK(s) => ("sh_kk", s.clone()),
        DicRef::SHKK2(s) => ("sh_kk2", s.clone()),
        DicRef::Sakade(s) => ("sakade", s.clone()),
        DicRef::JFCards(s) => ("jf_cards", s.clone()),
        DicRef::TuttCards(s) => ("tutt_cards", s.clone()),
        DicRef::Crowley(s) => ("crowley", s.clone()),
        DicRef::InContext(s) => ("kanji_in_context", s.clone()),
        DicRef::BusyPeople(s) => ("busy_people", s.clone()),
        DicRef::KodanshaCompact(s) => ("kodansha_compact", s.clone()),
        DicRef::Maniette(s) => ("maniette", s.clone()),
        DicRef::Moro(s, v, p) => {
            assert_eq!((v, p), (&None, &None));
            ("moro", s.clone())
        }
    };
    for (i, t) in types.iter().enumerate() {
        let (label, value) = expect(i);
        assert_eq!(&label, t, "variant at {} carries its own label", i);
        assert_eq!(value, "7");
    }
}

#[test]
fn dic_ref_unknown_type_lists_all_candidates() {
    let table = kangxi_table();
    let text = character_doc(
        "<literal>x</literal><codepoint></codepoint><radical></radical>\
         <misc><stroke_count>1</stroke_count></misc>\
         <dic_number><dic_ref dr_type=\"bogus\">7</dic_ref></dic_number>",
    );
    match Kanjidic::load(&text, &table) {
        Err(ParseError::InvalidEnum(v, valids)) => {
            assert_eq!(v, "bogus");
            assert_eq!(valids.len(), 24);
            for t in [
                "nelson_c", "nelson_n", "halpern_njecd", "halpern_kkd", "halpern_kkld",
                "halpern_kkld_2ed", "heisig", "heisig6", "gakken", "oneill_names", "oneill_kk",
                "henshall", "henshall3", "sh_kk", "sh_kk2", "sakade", "jf_cards", "tutt_cards",
                "crowley", "kanji_in_context", "busy_people", "kodansha_compact", "maniette",
                "moro",
            ] {
                assert!(valids.iter().any(|x| x == t), "missing candidate {}", t);
            }
        }
        other => panic!("expected enumeration error, got {:?}", other),
    }
}

#[test]
fn dic_ref_without_type_attribute_fails() {
    let table = kangxi_table();
    let text = character_doc(
        "<literal>x</literal><codepoint></codepoint><radical></radical>\
         <misc><stroke_count>1</stroke_count></misc>\
         <dic_number><dic_ref>7</dic_ref></dic_number>",
    );
    let r = Kanjidic::load(&text, &table);
    assert!(matches!(r, Err(ParseError::MissingAttribute(a)) if a == "dr_type"));
}

#[test]
fn moro_reference_carries_volume_and_page() {
    let table = kangxi_table();
    let text = character_doc(
        "<literal>x</literal><codepoint></codepoint><radical></radical>\
         <misc><stroke_count>1</stroke_count></misc>\
         <dic_number><dic_ref dr_type=\"moro\" m_vol=\"5\" m_page=\"123\">1234</dic_ref></dic_number>",
    );
    let d = Kanjidic::load(&text, &table).unwrap();
    match &d.entries[0].dic_refs[0] {
        DicRef::Moro(s, vol, page) => {
            assert_eq!(s, "1234");
            assert_eq!(*vol, Some(5));
            assert_eq!(*page, Some(123));
        }
        other => panic!("expected moro reference, got {:?}", other),
    }
}

#[test]
fn moro_bad_volume_fails() {
    let table = kangxi_table();
    let text = character_doc(
        "<literal>x</literal><codepoint></codepoint><radical></radical>\
         <misc><stroke_count>1</stroke_count></misc>\
         <dic_number><dic_ref dr_type=\"moro\" m_vol=\"five\">1234</dic_ref></dic_number>",
    );
    let r = Kanjidic::load(&text, &table);
    assert!(matches!(r, Err(ParseError::BadNumber(t)) if t == "five"));
}

#[test]
fn reading_types_parse() {
    let table = kangxi_table();
    let text = character_doc(
        "<literal>x</literal><codepoint></codepoint><radical></radical>\
         <misc><stroke_count>1</stroke_count></misc>\
         <reading_meaning><rmgroup>\
         <reading r_type=\"pinyin\">ri4</reading>\
         <reading r_type=\"korean_r\">il</reading>\
         <reading r_type=\"korean_h\">h</reading>\
         <reading r_type=\"vietnam\">Nhat</reading>\
         <reading r_type=\"ja_on\" r_status=\"jy\" on_type=\"kan'you\">a</reading>\
         <reading r_type=\"ja_on\">b</reading>\
         <reading r_type=\"ja_kun\" r_status=\"jy\">c</reading>\
         </rmgroup></reading_meaning>",
    );
    let d = Kanjidic::load(&text, &table).unwrap();
    let rs = &d.entries[0].reading_meanings[0].readings;
    assert_eq!(rs.len(), 7);
    assert_eq!(rs[0].typ, ReadingType::Pinyin);
    assert_eq!(rs[0].value, "ri4");
    assert_eq!(rs[1].typ, ReadingType::KoreanR);
    assert_eq!(rs[2].typ, ReadingType::KoreanH);
    assert_eq!(rs[3].typ, ReadingType::Vietnam);
    assert_eq!(rs[4].typ, ReadingType::Onyomi(true, OnyomiType::Kanyou));
    assert_eq!(rs[5].typ, ReadingType::Onyomi(false, OnyomiType::Unspecified));
    assert_eq!(rs[6].typ, ReadingType::Kunyomi(true));
}

#[test]
fn reading_bad_type_is_enumeration_error() {
    let table = kangxi_table();
    let text = character_doc(
        "<literal>x</literal><codepoint></codepoint><radical></radical>\
         <misc><stroke_count>1</stroke_count></misc>\
         <reading_meaning><rmgroup><reading r_type=\"bogus\">a</reading></rmgroup></reading_meaning>",
    );
    match Kanjidic::load(&text, &table) {
        Err(ParseError::InvalidEnum(v, valids)) => {
            assert_eq!(v, "bogus");
            assert_eq!(valids, vec!["pinyin", "korean_r", "korean_h", "vietnam", "ja_on", "ja_kun"]);
        }
        other => panic!("expected enumeration error, got {:?}", other),
    }
}

#[test]
fn reading_bad_origin_is_enumeration_error() {
    let table = kangxi_table();
    let text = character_doc(
        "<literal>x</literal><codepoint></codepoint><radical></radical>\
         <misc><stroke_count>1</stroke_count></misc>\
         <reading_meaning><rmgroup>\
         <reading r_type=\"ja_on\" on_type=\"bogus\">a</reading>\
         </rmgroup></reading_meaning>",
    );
    match Kanjidic::load(&text, &table) {
        Err(ParseError::InvalidEnum(v, valids)) => {
            assert_eq!(v, "bogus");
            assert_eq!(valids, vec!["kan", "go", "tou", "kan'you"]);
        }
        other => panic!("expected enumeration error, got {:?}", other),
    }
}

#[test]
fn meanings_carry_language_tags() {
    let table = kangxi_table();
    let text = character_doc(
        "<literal>x</literal><codepoint></codepoint><radical></radical>\
         <misc><stroke_count>1</stroke_count></misc>\
         <reading_meaning><rmgroup>\
         <meaning>sun</meaning>\
         <meaning m_lang=\"fr\">soleil</meaning>\
         </rmgroup></reading_meaning>",
    );
    let d = Kanjidic::load(&text, &table).unwrap();
    let ms = &d.entries[0].reading_meanings[0].meanings;
    assert_eq!(ms.len(), 2);
    assert_eq!((ms[0].content.as_str(), ms[0].language.as_str()), ("sun", "en"));
    assert_eq!((ms[1].content.as_str(), ms[1].language.as_str()), ("soleil", "fr"));
}

#[test]
fn nanori_readings_collect_separately() {
    let table = kangxi_table();
    let text = character_doc(
        "<literal>x</literal><codepoint></codepoint><radical></radical>\
         <misc><stroke_count>1</stroke_count></misc>\
         <reading_meaning>\
         <rmgroup><meaning>sun</meaning></rmgroup>\
         <nanori>a</nanori><nanori>b</nanori>\
         </reading_meaning>",
    );
    let d = Kanjidic::load(&text, &table).unwrap();
    assert_eq!(d.entries[0].nanori_readings, vec!["a", "b"]);
    assert_eq!(d.entries[0].reading_meanings.len(), 1);
}

#[test]
fn first_entry_error_aborts_the_load() {
    let table = kangxi_table();
    let text = "<kanjidic2><header><file_version>4</file_version>\
         <database_version>1.0</database_version>\
         <date_of_creation>d</date_of_creation></header>\
         <character><literal>a</literal><codepoint></codepoint><radical></radical>\
         <misc></misc></character>\
         <character><literal>b</literal><codepoint></codepoint><radical></radical>\
         <misc><stroke_count>1</stroke_count></misc></character></kanjidic2>";
    let r = Kanjidic::load(text, &table);
    assert!(matches!(r, Err(ParseError::MissingTag(t)) if t == "stroke_count"));
}

#[test]
fn parse_u32_accepts_digit_strings() {
    assert_eq!(parse_u32("0"), Some(0));
    assert_eq!(parse_u32("42"), Some(42));
    assert_eq!(parse_u32("007"), Some(7));
    assert_eq!(parse_u32("+7"), Some(7));
    assert_eq!(parse_u32("+0"), Some(0));
    assert_eq!(parse_u32("4294967295"), Some(u32::MAX));
}

#[test]
fn parse_u32_rejects_everything_else() {
    assert_eq!(parse_u32(""), None);
    assert_eq!(parse_u32("abc"), None);
    assert_eq!(parse_u32("4a"), None);
    assert_eq!(parse_u32("-1"), None);
    assert_eq!(parse_u32(" 1"), None);
    assert_eq!(parse_u32("+"), None);
    assert_eq!(parse_u32("++1"), None);
    assert_eq!(parse_u32("4294967296"), None);
}

#[test]
fn u32_to_string_renders_decimals() {
    assert_eq!(u32_to_string(0), "0");
    assert_eq!(u32_to_string(7), "7");
    assert_eq!(u32_to_string(1234), "1234");
    assert_eq!(u32_to_string(u32::MAX), "4294967295");
}

#[test]
fn later_occurrence_of_a_slot_wins() {
    let table = kangxi_table();
    let text = character_doc(
        "<literal>a</literal><literal>b</literal><codepoint></codepoint><radical></radical>\
         <misc><stroke_count>1</stroke_count></misc>",
    );
    let d = Kanjidic::load(&text, &table).unwrap();
    assert_eq!(d.entries[0].literal, "b");
}

#[test]
fn radical_table_lookup_bounds() {
    let table = RadicalTable { values: vec!["a".to_string(), "b".to_string()] };
    assert!(matches!(table.lookup(1), Ok(v) if v == "a"));
    assert!(matches!(table.lookup(2), Ok(v) if v == "b"));
    assert!(matches!(table.lookup(0), Err(ParseError::RadicalOutOfRange(0))));
    assert!(matches!(table.lookup(3), Err(ParseError::RadicalOutOfRange(3))));
}
