use pronoun_engine::pronouns::PronounSet;
use pronoun_engine::sentences::{compose_letter, generate_sentences, SentenceType};

fn list(items: &[&str]) -> Vec<String> {
    items.iter().map(|s| s.to_string()).collect()
}

#[test]
fn kinds_have_their_codes() {
    assert_eq!(SentenceType::Invalid.code(), 255);
    assert_eq!(SentenceType::NamesPronouns.code(), 0);
    assert_eq!(SentenceType::PronounsOnly.code(), 1);
    assert_eq!(SentenceType::NamesOnly.code(), 2);
}

#[test]
fn kind_follows_the_candidates() {
    assert_eq!(SentenceType::for_candidates(0, 0), None);
    assert_eq!(SentenceType::for_candidates(2, 0), Some(SentenceType::NamesOnly));
    assert_eq!(SentenceType::for_candidates(0, 1), Some(SentenceType::PronounsOnly));
    assert_eq!(SentenceType::for_candidates(3, 4), Some(SentenceType::NamesPronouns));
}

#[test]
fn letter_has_three_headings() {
    assert_eq!(
        compose_letter("Look:", "one", "two", "three", "\nBye"),
        "Look:\n\n**Sentence 1**\none\n\n**Sentence 2**\ntwo\n\n**Sentence 3**\nthree\nBye"
    );
    assert_eq!(
        compose_letter("", "a", "b", "c", ""),
        "Okay, how do these look?\n\n**Sentence 1**\na\n\n**Sentence 2**\nb\n\n**Sentence 3**\nc"
    );
    assert_eq!(
        compose_letter(" ", "", "", "", ""),
        " \n\n**Sentence 1**\n\n\n**Sentence 2**\n\n\n**Sentence 3**\n"
    );
}

#[test]
fn nothing_to_show_without_names_and_sets() {
    assert_eq!(
        generate_sentences(vec![], vec![], list(&["a", "b", "c"]), "x", "y"),
        "Can't make sentences with no names or pronouns :("
    );
    assert_eq!(
        generate_sentences(vec![], vec![], vec![], "", ""),
        "Can't make sentences with no names or pronouns :("
    );
}

#[test]
fn three_sentences_of_three_are_all_of_them() {
    for _ in 0..40 {
        let out = generate_sentences(
            vec![],
            vec![PronounSet::she_her()],
            list(&["[^subjective] one.", "[^subjective] two.", "[^subjective] three."]),
            "",
            "\nDone.",
        );
        let rest = out.strip_prefix("Okay, how do these look?").unwrap();
        let rest = rest.strip_suffix("\nDone.").unwrap();
        let parts: Vec<&str> = rest.split("\n\n**Sentence ").collect();
        assert_eq!(parts.len(), 4);
        assert_eq!(parts[0], "");
        let mut seen: Vec<&str> = Vec::new();
        for (n, part) in parts[1..].iter().enumerate() {
            let body = part.strip_prefix(&format!("{}**\n", n + 1)).unwrap();
            assert!(["She one.", "She two.", "She three."].contains(&body), "{:?}", body);
            assert!(!seen.contains(&body));
            seen.push(body);
        }
    }
}

#[test]
fn no_sentence_is_drawn_twice() {
    let pool = list(&["s0", "s1", "s2", "s3", "s4", "s5", "s6"]);
    let mut first_seen: Vec<String> = Vec::new();
    for _ in 0..200 {
        let out = generate_sentences(list(&["ann"]), vec![], pool.clone(), "B", "A");
        let lines: Vec<&str> = out.split('\n').collect();
        assert_eq!(lines.len(), 10);
        assert_eq!(lines[0], "B");
        assert_eq!(lines[2], "**Sentence 1**");
        assert_eq!(lines[5], "**Sentence 2**");
        assert_eq!(lines[8], "**Sentence 3**");
        let third = lines[9].strip_suffix("A").unwrap();
        let drawn = [lines[3], lines[6], third];
        for d in drawn {
            assert!(pool.iter().any(|s| s == d), "{:?}", d);
        }
        assert!(drawn[0] != drawn[1] && drawn[0] != drawn[2] && drawn[1] != drawn[2]);
        if !first_seen.iter().any(|s| s == drawn[0]) {
            first_seen.push(drawn[0].to_string());
        }
    }
    assert!(first_seen.len() > 1);
}

#[test]
fn names_and_sets_are_put_into_the_sentences() {
    let out = generate_sentences(
        list(&["ann"]),
        vec![PronounSet::they_them()],
        list(&["[name] {is|are} here.", "[name] {is|are} here.", "[name] {is|are} here."]),
        "[^subjective] {says|say}:",
        "",
    );
    assert_eq!(
        out,
        "They say:\n\n**Sentence 1**\nAnn  here.\n\n**Sentence 2**\nAnn  here.\n\n**Sentence 3**\nAnn  here."
    );
}
