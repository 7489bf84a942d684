mod decode;
mod laws;
mod model;
mod num;
mod queries;
mod radicals;
mod xml;

pub use model::Codepoint;
pub use model::DicRef;
pub use model::Entry;
pub use model::Grade;
pub use model::Kanjidic;
pub use model::Meaning;
pub use model::OnyomiType;
pub use model::ParseError;
pub use model::Radical;
pub use model::RadicalType;
pub use model::Reading;
pub use model::ReadingMeaning;
pub use model::ReadingType;
pub use num::parse_u32;
pub use num::u32_to_string;
pub use radicals::RadicalTable;

pub use decode::HeaderData;
pub use decode::MiscData;
pub use decode::dic_ref_valid_strings;
pub use decode::find_child_tag;
pub use decode::get_attr;
pub use decode::get_text;
pub use decode::grade_valid_strings;
pub use decode::has_attr;
pub use decode::moro_attr;
pub use decode::onyomi_valid_strings;
pub use decode::parse_codepoint;
pub use decode::parse_codepoint_group;
pub use decode::parse_dic_ref;
pub use decode::parse_dic_ref_group;
pub use decode::parse_entries;
pub use decode::parse_entry;
pub use decode::parse_header;
pub use decode::parse_misc;
pub use decode::parse_radical;
pub use decode::parse_radical_group;
pub use decode::parse_reading;
pub use decode::parse_reading_group;
pub use decode::parse_reading_meanings;
pub use decode::radical_valid_strings;
pub use decode::reading_valid_strings;
pub use decode::str_eq;
pub use model::CodepointV;
pub use model::DicRefV;
pub use model::EntryV;
pub use model::KanjidicV;
pub use model::MeaningV;
pub use model::ParseErrorV;
pub use model::RadicalV;
pub use model::ReadingMeaningV;
pub use model::ReadingV;
pub use model::result_view;
pub use xml::NodeV;
pub use xml::xml_doc_of;

pub use decode::attr_spec;
pub use decode::codepoint_spec;
pub use decode::dic_ref_spec;
pub use decode::dic_ref_valids;
pub use decode::document_spec;
pub use decode::entries_spec;
pub use decode::entry_spec;
pub use decode::grade_of;
pub use decode::grade_valids;
pub use decode::header_spec;
pub use decode::load_spec;
pub use decode::misc_spec;
pub use decode::onyomi_valids;
pub use decode::radical_spec;
pub use decode::radical_valids;
pub use decode::reading_spec;
pub use decode::reading_valids;
pub use decode::rmgroup_spec;
pub use decode::text_spec;
pub use decode::EntryAcc;
pub use decode::MiscAcc;
pub use decode::MiscV;
pub use decode::empty_entry_acc;
pub use decode::empty_misc_acc;
pub use decode::entries_step;
pub use decode::entry_step;
pub use decode::find_tag;
pub use decode::fold_nodes;
pub use decode::lemma_fold_nodes_err;
pub use decode::lemma_fold_nodes_step;
pub use decode::misc_step;
pub use decode::moro_num_attr;
pub use laws::dic_ref_label;
pub use laws::dic_ref_value;
pub use laws::first_num_of;
pub use laws::lemma_dic_ref_round_trip;
pub use laws::lemma_entry_invariants;
pub use laws::lemma_entry_missing_stroke;
pub use laws::lemma_grade_mapping;
pub use laws::lemma_load_deterministic;
pub use laws::lemma_load_entry_invariants;
pub use laws::lemma_load_missing_stroke;
pub use laws::lemma_misc_decodes;
pub use laws::lemma_misc_first_occurrence_wins;
pub use laws::lemma_misc_grade_not_numeric;
pub use laws::lemma_misc_grade_out_of_set;
pub use laws::lemma_misc_missing_stroke;
pub use laws::lemma_misc_stroke_positive;
pub use num::dec_digits;
pub use num::dec_str;
pub use num::dec_value;
pub use num::parse_u32_spec;
pub use queries::entry_has_meaning;
pub use queries::find_literal_spec;
pub use queries::lemma_filter_meaning_all_false;
pub use queries::lemma_filter_meaning_exact;
pub use queries::lemma_filter_meaning_pure;
pub use queries::lemma_find_literal_none;
pub use queries::lemma_find_literal_unique;
pub use queries::lemma_mask_filter_all;
pub use queries::lemma_mask_filter_none;
pub use queries::mask_filter;
pub use queries::meaning_keep_ok;
pub use radicals::lookup_spec;
