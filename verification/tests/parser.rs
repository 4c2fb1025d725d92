use pronoun_engine::parser::{parse_normalized, parse_set, FormatError};
use pronoun_engine::pronouns::{second_possessive, PronounSet};

const EMPTY_SEGMENT: &str = "There needs to be a pronoun between each slash.";
const GENERIC: &str = "Pronouns must be in the form `subjective/objective/possessive/posessive/reflexive`. See `/help` for more info.";

fn set(
    subjective: &str,
    objective: &str,
    possessive: &str,
    possessive2: &str,
    reflexive: &str,
    plural: bool,
) -> PronounSet {
    PronounSet {
        subjective: subjective.to_string(),
        objective: objective.to_string(),
        possessive: possessive.to_string(),
        possessive2: possessive2.to_string(),
        reflexive: reflexive.to_string(),
        plural,
    }
}

#[test]
fn canonical_words_give_the_canonical_sets() {
    assert_eq!(parse_set("he"), Ok(set("he", "him", "his", "his", "himself", false)));
    assert_eq!(parse_set("she"), Ok(set("she", "her", "her", "hers", "herself", false)));
    assert_eq!(parse_set("they"), Ok(set("they", "them", "their", "theirs", "themself", true)));
    assert_eq!(parse_set("it"), Ok(set("it", "it", "its", "its", "itself", false)));
}

#[test]
fn canonical_pairs_give_the_canonical_sets() {
    assert_eq!(parse_set("he/him"), Ok(PronounSet::he_him()));
    assert_eq!(parse_set("she/her"), Ok(PronounSet::she_her()));
    assert_eq!(parse_set("they/them"), Ok(PronounSet::they_them()));
    assert_eq!(parse_set("it/it"), Ok(PronounSet::it_it()));
    assert_eq!(parse_set("it/its"), Ok(PronounSet::it_it()));
}

#[test]
fn canonical_constructors_hold_the_canonical_forms() {
    assert_eq!(PronounSet::he_him(), set("he", "him", "his", "his", "himself", false));
    assert_eq!(PronounSet::she_her(), set("she", "her", "her", "hers", "herself", false));
    assert_eq!(PronounSet::they_them(), set("they", "them", "their", "theirs", "themself", true));
    assert_eq!(PronounSet::it_it(), set("it", "it", "its", "its", "itself", false));
}

#[test]
fn input_is_trimmed_and_lowercased() {
    assert_eq!(parse_set("  He \n"), Ok(PronounSet::he_him()));
    assert_eq!(parse_set("THEY/THEM"), Ok(PronounSet::they_them()));
    assert_eq!(parse_set("\tXe/Xem/XYR "), Ok(set("xe", "xem", "xyr", "xyrs", "xeself", true)));
    assert_eq!(parse_set(" he:s"), Ok(PronounSet::he_him()));
}

#[test]
fn normalized_parser_does_not_normalize() {
    assert_eq!(parse_normalized("he"), Ok(PronounSet::he_him()));
    assert_eq!(parse_normalized("He"), Err(FormatError::Unrecognized));
    assert_eq!(parse_normalized(" he"), Err(FormatError::Unrecognized));
    assert_eq!(
        parse_normalized("Xe/xem/xyr"),
        Ok(set("Xe", "xem", "xyr", "xyrs", "Xeself", true))
    );
}

#[test]
fn empty_segments_are_refused() {
    assert_eq!(parse_set("a//b"), Err(EMPTY_SEGMENT));
    assert_eq!(parse_set("/a/b"), Err(EMPTY_SEGMENT));
    assert_eq!(parse_set("a/b/"), Err(EMPTY_SEGMENT));
    assert_eq!(parse_set(""), Err(EMPTY_SEGMENT));
    assert_eq!(parse_set("   "), Err(EMPTY_SEGMENT));
    assert_eq!(parse_set(":p"), Err(EMPTY_SEGMENT));
    assert_eq!(parse_set("a/b/c/d/e/f/"), Err(EMPTY_SEGMENT));
    assert_eq!(parse_normalized("a//b"), Err(FormatError::EmptySegment));
}

#[test]
fn wrong_arity_and_unknown_short_forms_are_refused() {
    assert_eq!(parse_set("a/b/c/d/e/f"), Err(GENERIC));
    assert_eq!(parse_set("a"), Err(GENERIC));
    assert_eq!(parse_set("xe"), Err(GENERIC));
    assert_eq!(parse_set("he/her"), Err(GENERIC));
    assert_eq!(parse_set("xe/xem"), Err(GENERIC));
    assert_eq!(parse_set("he :s"), Err(GENERIC));
    assert_eq!(parse_normalized("a/b/c/d/e/f"), Err(FormatError::Unrecognized));
}

#[test]
fn error_messages() {
    assert_eq!(FormatError::EmptySegment.message(), EMPTY_SEGMENT);
    assert_eq!(FormatError::Unrecognized.message(), GENERIC);
}

#[test]
fn three_pronouns_derive_the_rest_and_are_plural() {
    let parsed = parse_set("xe/xem/xyr").unwrap();
    assert_eq!(parsed.possessive2, "xyrs");
    assert_eq!(parsed.reflexive, "xeself");
    assert!(parsed.plural);
    assert_eq!(parsed, set("xe", "xem", "xyr", "xyrs", "xeself", true));
    assert_eq!(parse_set("xe/xem/xyr:s"), Ok(set("xe", "xem", "xyr", "xyrs", "xeself", true)));
    assert_eq!(parse_set("he/him/his"), Ok(set("he", "him", "his", "his", "heself", true)));
}

#[test]
fn four_pronouns_take_the_number_from_the_modifier() {
    assert!(!parse_set("xe/xem/xyr/xemself:s").unwrap().plural);
    assert!(parse_set("xe/xem/xyr/xemself:plural").unwrap().plural);
    assert_eq!(
        parse_set("xe/xem/xyr/xemself"),
        Ok(set("xe", "xem", "xyr", "xyrs", "xemself", false))
    );
    assert_eq!(
        parse_set("xe/xem/xyr/xemself:p"),
        Ok(set("xe", "xem", "xyr", "xyrs", "xemself", true))
    );
    assert_eq!(
        parse_set("xe/xem/xyr/xemself:pl"),
        Ok(set("xe", "xem", "xyr", "xyrs", "xemself", true))
    );
    assert_eq!(
        parse_set("xe/xem/xyr/xemself: PLURAL "),
        Ok(set("xe", "xem", "xyr", "xyrs", "xemself", true))
    );
    assert_eq!(
        parse_set("xe/xem/xyr/xemself:singular"),
        Ok(set("xe", "xem", "xyr", "xyrs", "xemself", false))
    );
}

#[test]
fn unknown_modifier_is_ignored() {
    assert_eq!(
        parse_set("xe/xem/xyr/xemself:many"),
        Ok(set("xe", "xem", "xyr", "xyrs", "xemself", false))
    );
    assert_eq!(
        parse_set("xe/xem/xyr/xemself:p:s"),
        Ok(set("xe", "xem", "xyr", "xyrs", "xemself", false))
    );
    assert_eq!(parse_set("he:whatever/else"), Ok(PronounSet::he_him()));
}

#[test]
fn five_pronouns_are_taken_as_given() {
    assert_eq!(
        parse_set("ey/em/eir/eirs/emself"),
        Ok(set("ey", "em", "eir", "eirs", "emself", false))
    );
    assert_eq!(
        parse_set("ey/em/eir/eir/emself:p"),
        Ok(set("ey", "em", "eir", "eir", "emself", true))
    );
}

#[test]
fn second_possessive_rule() {
    assert_eq!(second_possessive("her"), "hers");
    assert_eq!(second_possessive("his"), "his");
    assert_eq!(second_possessive("xyr"), "xyrs");
    assert_eq!(second_possessive("hiz"), "hiz");
    assert_eq!(second_possessive("s"), "s");
    assert_eq!(second_possessive("S"), "Ss");
    assert_eq!(second_possessive(""), "s");
}
