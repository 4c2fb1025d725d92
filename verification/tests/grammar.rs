use pronoun_engine::engine::source_of;
use pronoun_engine::grammar::{find_placeholders, placeholders_of, AffixGroup, Placeholder};
use regex::Regex;

const PIECE: &str = r"(?:\{(.*?)\|(.*?)}( ?))?\[([^\u200B].*?)\](?:( ?\S*? ?)\{(.*?)\|(.*?)})?";

fn chars(s: &str) -> Vec<char> {
    s.chars().collect()
}

fn text(v: &Vec<char>) -> String {
    v.iter().collect()
}

fn group(singular: &str, plural: &str, gap: &str) -> AffixGroup {
    AffixGroup { singular: chars(singular), plural: chars(plural), gap: chars(gap) }
}

fn tag_only(tag: &str) -> Placeholder {
    Placeholder { before: None, tag: chars(tag), after: None }
}

/// What the pattern finds in a text, in the library's terms.
fn by_pattern(re: &Regex, template: &str) -> Vec<Placeholder> {
    let mut found = Vec::new();
    for m in re.captures_iter(template) {
        let get = |i: usize| m.get(i).map(|g| chars(g.as_str()));
        let before = match (get(1), get(2), get(3)) {
            (Some(singular), Some(plural), Some(gap)) => Some(AffixGroup { singular, plural, gap }),
            _ => None,
        };
        let after = match (get(5), get(6), get(7)) {
            (Some(gap), Some(singular), Some(plural)) => Some(AffixGroup { singular, plural, gap }),
            _ => None,
        };
        let p = Placeholder { before, tag: get(4).unwrap(), after };
        assert_eq!(text(&source_of(&p)), m.get(0).unwrap().as_str());
        found.push(p);
    }
    found
}

/// A text of up to `max` characters of the alphabet, from a seed.
fn sample(alphabet: &[char], max: usize, seed: &mut u64) -> String {
    let mut next = || {
        *seed = seed.wrapping_mul(6364136223846793005).wrapping_add(1442695040888963407);
        (*seed >> 33) as usize
    };
    let len = next() % (max + 1);
    (0..len).map(|_| alphabet[next() % alphabet.len()]).collect()
}

fn compare_on_samples(alphabet: &[char], max: usize, count: usize, mut seed: u64) {
    let re = Regex::new(PIECE).unwrap();
    for _ in 0..count {
        let template = sample(alphabet, max, &mut seed);
        assert_eq!(placeholders_of(&template), by_pattern(&re, &template), "{:?}", template);
    }
}

#[test]
fn plain_tags() {
    assert_eq!(placeholders_of("[name]"), vec![tag_only("name")]);
    assert_eq!(placeholders_of("a [^x] b [y^]"), vec![tag_only("^x"), tag_only("y^")]);
    assert_eq!(placeholders_of("[a][b]"), vec![tag_only("a"), tag_only("b")]);
    assert_eq!(placeholders_of("no tags"), Vec::<Placeholder>::new());
    assert_eq!(placeholders_of(""), Vec::<Placeholder>::new());
}

#[test]
fn tag_needs_a_character_and_ends_at_the_first_bracket_behind_it() {
    assert_eq!(placeholders_of("[]"), Vec::<Placeholder>::new());
    assert_eq!(placeholders_of("[]]"), vec![tag_only("]")]);
    assert_eq!(placeholders_of("[a]]"), vec![tag_only("a")]);
    assert_eq!(placeholders_of("[[a]]"), vec![tag_only("[a")]);
    assert_eq!(placeholders_of("[a"), Vec::<Placeholder>::new());
    assert_eq!(placeholders_of("["), Vec::<Placeholder>::new());
}

#[test]
fn tag_stays_on_its_line_but_for_its_first_character() {
    assert_eq!(placeholders_of("[a\nb]"), Vec::<Placeholder>::new());
    assert_eq!(placeholders_of("[\nb]"), vec![tag_only("\nb")]);
    assert_eq!(placeholders_of("[a\n[b]"), vec![tag_only("b")]);
}

#[test]
fn escape_on_either_side_of_the_bracket() {
    assert_eq!(placeholders_of("\u{200B}[a]"), Vec::<Placeholder>::new());
    assert_eq!(placeholders_of("[\u{200B}a]"), Vec::<Placeholder>::new());
    assert_eq!(placeholders_of("x\u{200B}[a] [b]"), vec![tag_only("b")]);
    assert_eq!(placeholders_of("[a\u{200B}]"), vec![tag_only("a\u{200B}")]);
    assert_eq!(placeholders_of("\u{200B} [a]"), vec![tag_only("a")]);
    assert_eq!(placeholders_of("[\u{200B}[a]"), Vec::<Placeholder>::new());
    assert_eq!(placeholders_of("[\u{200B}a[b]"), vec![tag_only("b")]);
    assert_eq!(placeholders_of("{a|b}\u{200B}[c]"), Vec::<Placeholder>::new());
}

#[test]
fn groups_before_and_behind() {
    assert_eq!(
        placeholders_of("{is|are} [subjective] {c|d}"),
        vec![Placeholder {
            before: Some(group("is", "are", " ")),
            tag: chars("subjective"),
            after: Some(group("c", "d", " ")),
        }]
    );
    assert_eq!(
        placeholders_of("{a|b}[x]{c|d}"),
        vec![Placeholder {
            before: Some(group("a", "b", "")),
            tag: chars("x"),
            after: Some(group("c", "d", "")),
        }]
    );
    assert_eq!(
        placeholders_of("[x] always {walks|walk}"),
        vec![Placeholder {
            before: None,
            tag: chars("x"),
            after: Some(group("walks", "walk", " always ")),
        }]
    );
    assert_eq!(
        placeholders_of("{|} [x]  {|}"),
        vec![Placeholder {
            before: Some(group("", "", " ")),
            tag: chars("x"),
            after: Some(group("", "", "  ")),
        }]
    );
}

#[test]
fn gap_behind_holds_one_word_at_most() {
    assert_eq!(placeholders_of("[x] two words {a|b}"), vec![tag_only("x")]);
    assert_eq!(placeholders_of("[x]   {a|b}"), vec![tag_only("x")]);
    assert_eq!(placeholders_of("[x]\t{a|b}"), vec![tag_only("x")]);
    assert_eq!(placeholders_of("[x]\u{2003}{a|b}"), vec![tag_only("x")]);
    assert_eq!(
        placeholders_of("[x]\u{200B}{a|b}"),
        vec![Placeholder {
            before: None,
            tag: chars("x"),
            after: Some(group("a", "b", "\u{200B}")),
        }]
    );
    assert_eq!(
        placeholders_of("[x]w{y {a|b}"),
        vec![Placeholder {
            before: None,
            tag: chars("x"),
            after: Some(group("y {a", "b", "w")),
        }]
    );
    assert_eq!(
        placeholders_of("[x]w{y\n {a|b}"),
        vec![tag_only("x")]
    );
}

#[test]
fn gap_before_is_one_space_at_most() {
    assert_eq!(placeholders_of("{a|b}  [x]"), vec![tag_only("x")]);
    assert_eq!(placeholders_of("{a|b}\t[x]"), vec![tag_only("x")]);
    assert_eq!(placeholders_of("{a|b} y [x]"), vec![tag_only("x")]);
}

#[test]
fn group_before_runs_to_the_brace_that_a_bracket_follows() {
    assert_eq!(
        placeholders_of("{a|b} and {c|d} [x]"),
        vec![Placeholder {
            before: Some(group("a", "b} and {c|d", " ")),
            tag: chars("x"),
            after: None,
        }]
    );
    assert_eq!(
        placeholders_of("{a|b c|d}[x]"),
        vec![Placeholder { before: Some(group("a", "b c|d", "")), tag: chars("x"), after: None }]
    );
    assert_eq!(
        placeholders_of("{a|b}\n{c|d} [x]"),
        vec![Placeholder { before: Some(group("c", "d", " ")), tag: chars("x"), after: None }]
    );
    assert_eq!(placeholders_of("{a b} [x]"), vec![tag_only("x")]);
}

#[test]
fn placeholders_do_not_overlap() {
    assert_eq!(
        placeholders_of("[x] {a|b} [y]"),
        vec![
            Placeholder { before: None, tag: chars("x"), after: Some(group("a", "b", " ")) },
            tag_only("y"),
        ]
    );
    assert_eq!(
        placeholders_of("{a|b}[x]{c|d}[y]{e|f}"),
        vec![
            Placeholder {
                before: Some(group("a", "b", "")),
                tag: chars("x"),
                after: Some(group("c", "d", "")),
            },
            Placeholder { before: None, tag: chars("y"), after: Some(group("e", "f", "")) },
        ]
    );
}

#[test]
fn texts_and_strings_are_read_alike() {
    for template in ["{a|b} [x] {c|d}", "[é] ü {ß|}", "", "[[[]]]"] {
        assert_eq!(find_placeholders(&chars(template)), placeholders_of(template));
    }
}

#[test]
fn agrees_with_the_pattern_on_delimiters() {
    compare_on_samples(&['{', '|', '}', '[', ']', ' ', 'a'], 16, 6000, 1);
}

#[test]
fn agrees_with_the_pattern_on_lines_and_white_space() {
    compare_on_samples(&['{', '|', '}', '[', ']', ' ', 'a', '\n', '\t', '^', '\u{2003}', 'é'], 20, 6000, 2);
}

#[test]
fn agrees_with_the_pattern_on_dense_brackets() {
    compare_on_samples(&['[', ']', '{', '}', '|'], 12, 6000, 3);
}

#[test]
fn agrees_with_the_pattern_on_long_texts() {
    compare_on_samples(&['{', '|', '}', '[', ']', ' ', ' ', 'a', 'b', 'c', '\n'], 200, 500, 4);
}

#[test]
fn agrees_with_the_pattern_where_escapes_follow_brackets() {
    // The pattern knows the escape behind a bracket only; texts in which
    // it stands before one are left out.
    let re = Regex::new(PIECE).unwrap();
    let alphabet = ['{', '|', '}', '[', ']', ' ', 'a', '\u{200B}'];
    let mut seed = 5u64;
    let mut compared = 0;
    for _ in 0..8000 {
        let template = sample(&alphabet, 14, &mut seed);
        if template.contains("\u{200B}[") {
            continue;
        }
        compared += 1;
        assert_eq!(placeholders_of(&template), by_pattern(&re, &template), "{:?}", template);
    }
    assert!(compared > 2000);
}
