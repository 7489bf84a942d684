use kanjidic::{Entry, Grade, Kanjidic, Meaning, RadicalTable};

fn small_table() -> RadicalTable {
    let mut values: Vec<String> = Vec::new();
    for i in 0..214u32 {
        values.push(char::from_u32(0x2F00 + i).unwrap().to_string());
    }
    RadicalTable { values }
}

fn two_entry_doc() -> Kanjidic {
    let text = "<kanjidic2><header><file_version>4</file_version>\
         <database_version>1.0</database_version>\
         <date_of_creation>2024-01-01</date_of_creation></header>\
         <character><literal>&#x65e5;</literal>\
         <codepoint><cp_value cp_type=\"ucs\">65e5</cp_value></codepoint>\
         <radical><rad_value rad_type=\"classical\">72</rad_value></radical>\
         <misc><grade>8</grade><stroke_count>4</stroke_count></misc>\
         <reading_meaning><rmgroup><meaning>sun</meaning><meaning>day</meaning></rmgroup>\
         </reading_meaning></character>\
         <character><literal>&#x6708;</literal>\
         <codepoint><cp_value cp_type=\"ucs\">6708</cp_value></codepoint>\
         <radical><rad_value rad_type=\"classical\">74</rad_value></radical>\
         <misc><grade>1</grade><stroke_count>4</stroke_count></misc>\
         <reading_meaning><rmgroup><meaning>moon</meaning><meaning>month</meaning></rmgroup>\
         </reading_meaning></character></kanjidic2>";
    Kanjidic::load(text, &small_table()).unwrap()
}

#[test]
fn find_literal_returns_the_matching_entry() {
    let d = two_entry_doc();
    let sun = d.find_literal("\u{65e5}");
    assert!(sun.is_some());
    assert_eq!(sun.unwrap().literal, "\u{65e5}");
    let moon = d.find_literal("\u{6708}");
    assert!(moon.is_some());
    assert_eq!(moon.unwrap().literal, "\u{6708}");
}

#[test]
fn find_literal_returns_none_for_absent_literal() {
    let d = two_entry_doc();
    assert!(d.find_literal("\u{706b}").is_none());
    assert!(d.find_literal("").is_none());
}

#[test]
fn filter_with_always_true_keeps_every_entry() {
    let d = two_entry_doc();
    let all = d.filter(|_e: &Entry| true);
    assert_eq!(all.len(), 2);
    assert_eq!(all[0].literal, "\u{65e5}");
    assert_eq!(all[1].literal, "\u{6708}");
}

#[test]
fn filter_with_always_false_keeps_nothing() {
    let d = two_entry_doc();
    let none = d.filter(|_e: &Entry| false);
    assert!(none.is_empty());
}

#[test]
fn filter_selects_by_grade_in_document_order() {
    let d = two_entry_doc();
    let graded = d.filter(|e: &Entry| e.grade == Some(Grade::Kyouiku(1)));
    assert_eq!(graded.len(), 1);
    assert_eq!(graded[0].literal, "\u{6708}");
}

#[test]
fn filter_meaning_with_always_false_is_empty() {
    let d = two_entry_doc();
    let none = d.filter_meaning(|_m: &Meaning| false);
    assert!(none.is_empty());
}

#[test]
fn filter_meaning_selects_entries_with_a_matching_meaning() {
    let d = two_entry_doc();
    let suns = d.filter_meaning(|m: &Meaning| m.content.contains("sun"));
    assert_eq!(suns.len(), 1);
    assert_eq!(suns[0].literal, "\u{65e5}");
    let months = d.filter_meaning(|m: &Meaning| m.content.contains("mo"));
    assert_eq!(months.len(), 1);
    assert_eq!(months[0].literal, "\u{6708}");
}

#[test]
fn queries_do_not_change_the_document() {
    let d = two_entry_doc();
    let before = format!("{:?}", d);
    let _ = d.find_literal("\u{65e5}");
    let _ = d.filter(|_e: &Entry| true);
    let _ = d.filter_meaning(|m: &Meaning| m.language == "en");
    assert_eq!(format!("{:?}", d), before);
}
