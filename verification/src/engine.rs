//! The template engine: it puts names and pronoun forms in the place of
//! the placeholders of a template.
//!
//! Each placeholder is resolved by itself. Its tag says what is wanted, a
//! name or one of the five forms of a pronoun set; the name or the set is
//! drawn from the lists that the caller gives. The markers `^` at the two
//! ends of a tag ask for capitals. Where a pronoun set was drawn, its
//! number chooses between the two affixes of each group.
//!
//! What has been resolved is put in the place of every occurrence of the
//! placeholder in the text, so one and the same placeholder, written
//! twice, reads the same in both places.

use vstd::prelude::*;
pub use crate::parser::parse_set;
pub use crate::pronouns::PronounSet;
use crate::case::{
    char_uppercase_of, lowercase, lowercase_of, uppercase, uppercase_char, uppercase_of,
};
use crate::grammar::{
    find_placeholders, placeholder_texts, placeholder_views, AffixGroup, Affixes, Placeholder,
    PlaceholderText, ESCAPE,
};
use crate::pronouns::PronounForms;
use crate::random::pick;
use crate::grammar::{
    lemma_no_placeholder_without_bracket, lemma_plain_tag_twice, lemma_sources_are_stretches, opens_at, placeholders, plain_tag,
    plain_text, read_all,
};
use crate::text::{
    append, chars_of, is_word, lemma_replaced_absent, lemma_replaced_twice,
    lemma_without_has_none, occurs_at, remove_all, replace_all, replaced, slice_of, string_of,
    without,
};

verus! {

/// What a tag asks for.
#[derive(Clone, Copy, Debug, PartialEq, Eq, Structural)]
pub enum Tag {
    Name,
    Subjective,
    Objective,
    Possessive,
    Possessive2,
    Reflexive,
    /// Any other tag. Its text stands for itself.
    Unknown,
}

/// How a value is put in capitals.
#[derive(Clone, Copy, Debug, PartialEq, Eq, Structural)]
pub enum Capitalization {
    /// The value stays as it is.
    Unchanged,
    /// The first letter in upper case, the rest in lower case.
    FirstLetter,
    /// Every letter in upper case.
    AllCaps,
}

/// Whether the tag starts with a marker.
pub open spec fn has_leading_marker(tag: Seq<char>) -> bool {
    tag.len() > 0 && tag[0] == '^'
}

/// The tag without the marker at its start.
pub open spec fn behind_leading_marker(tag: Seq<char>) -> Seq<char> {
    if has_leading_marker(tag) {
        tag.subrange(1, tag.len() as int)
    } else {
        tag
    }
}

/// Whether the tag, the marker at its start set aside, ends with a
/// marker.
pub open spec fn has_trailing_marker(tag: Seq<char>) -> bool {
    let rest = behind_leading_marker(tag);
    rest.len() > 0 && rest.last() == '^'
}

/// The tag without its markers.
pub open spec fn bare_tag(tag: Seq<char>) -> Seq<char> {
    let rest = behind_leading_marker(tag);
    if has_trailing_marker(tag) {
        rest.drop_last()
    } else {
        rest
    }
}

/// The capitals that the markers of a tag ask for. The marker at the end
/// wins over the one at the start.
pub open spec fn marked_capitalization(tag: Seq<char>) -> Capitalization {
    if has_trailing_marker(tag) {
        Capitalization::AllCaps
    } else if has_leading_marker(tag) {
        Capitalization::FirstLetter
    } else {
        Capitalization::Unchanged
    }
}

/// What a tag without markers asks for.
pub open spec fn tag_of(bare: Seq<char>) -> Tag {
    if bare == "name"@ {
        Tag::Name
    } else if bare == "subjective"@ {
        Tag::Subjective
    } else if bare == "objective"@ {
        Tag::Objective
    } else if bare == "possessive"@ {
        Tag::Possessive
    } else if bare == "possessive2"@ {
        Tag::Possessive2
    } else if bare == "reflexive"@ {
        Tag::Reflexive
    } else {
        Tag::Unknown
    }
}

/// The form of a pronoun set that a tag asks for.
pub open spec fn form_of(set: PronounForms, tag: Tag) -> Option<Seq<char>> {
    match tag {
        Tag::Subjective => Some(set.subjective),
        Tag::Objective => Some(set.objective),
        Tag::Possessive => Some(set.possessive),
        Tag::Possessive2 => Some(set.possessive2),
        Tag::Reflexive => Some(set.reflexive),
        Tag::Name | Tag::Unknown => None,
    }
}

/// The value that goes in the place of a tag, before capitals. A name tag
/// without a name gives nothing; a pronoun tag without a set, and any
/// unknown tag, gives its own text.
pub open spec fn central_value(
    tag: Seq<char>,
    name: Option<Seq<char>>,
    set: Option<PronounForms>,
) -> Seq<char> {
    let bare = bare_tag(tag);
    match tag_of(bare) {
        Tag::Name => match name {
            Some(n) => n,
            None => Seq::empty(),
        },
        Tag::Unknown => bare,
        kind => match set {
            Some(s) => form_of(s, kind).unwrap(),
            None => bare,
        },
    }
}

/// The capitals that a value gets: those that the markers ask for, and
/// for a name without markers a capital first letter.
pub open spec fn capitalization_for(tag: Seq<char>, name: Option<Seq<char>>) -> Capitalization {
    let marked = marked_capitalization(tag);
    if tag_of(bare_tag(tag)) == Tag::Name && name is Some && marked == Capitalization::Unchanged {
        Capitalization::FirstLetter
    } else {
        marked
    }
}

/// The number that chooses the affixes: that of the set, where the tag
/// asks for a pronoun and a set was drawn.
pub open spec fn number_for(tag: Seq<char>, set: Option<PronounForms>) -> Option<bool> {
    match tag_of(bare_tag(tag)) {
        Tag::Name | Tag::Unknown => None,
        _ => match set {
            Some(s) => Some(s.plural),
            None => None,
        },
    }
}

/// A value in capitals.
pub open spec fn capitalized(value: Seq<char>, mode: Capitalization) -> Seq<char> {
    match mode {
        Capitalization::Unchanged => value,
        Capitalization::FirstLetter => if value.len() == 0 {
            value
        } else {
            char_uppercase_of(value[0]) + lowercase_of(value.subrange(1, value.len() as int))
        },
        Capitalization::AllCaps => uppercase_of(value),
    }
}

/// The value from position `from` on, with the escape character before
/// and behind each opening bracket.
pub open spec fn escaped_from(value: Seq<char>, from: int) -> Seq<char>
    decreases value.len() - from,
{
    if from < 0 || from >= value.len() {
        Seq::empty()
    } else if value[from] == '[' {
        seq![ESCAPE, '[', ESCAPE] + escaped_from(value, from + 1)
    } else {
        seq![value[from]] + escaped_from(value, from + 1)
    }
}

/// The value with the escape character on both sides of each opening
/// bracket, so that none of its brackets reads as the start of a
/// placeholder.
pub open spec fn escaped(value: Seq<char>) -> Seq<char> {
    escaped_from(value, 0)
}

/// The affix of a group for a number; nothing where there is no number.
pub open spec fn affix_for(group: Affixes, number: Option<bool>) -> Seq<char> {
    match number {
        Some(true) => group.plural,
        Some(false) => group.singular,
        None => Seq::empty(),
    }
}

/// What goes in the place of a placeholder, given the number that
/// chooses the affixes and the value in capitals: the affix before and
/// its gap, the escaped value, the gap behind and its affix.
pub open spec fn assembled(p: PlaceholderText, number: Option<bool>, value: Seq<char>) -> Seq<
    char,
> {
    let before = match p.before {
        Some(group) => affix_for(group, number) + group.gap,
        None => Seq::empty(),
    };
    let after = match p.after {
        Some(group) => group.gap + affix_for(group, number),
        None => Seq::empty(),
    };
    before + escaped(value) + after
}

/// What goes in the place of a placeholder, given the name and the set
/// that were drawn for it.
pub open spec fn substitution(
    p: PlaceholderText,
    name: Option<Seq<char>>,
    set: Option<PronounForms>,
) -> Seq<char> {
    assembled(
        p,
        number_for(p.tag, set),
        capitalized(central_value(p.tag, name, set), capitalization_for(p.tag, name)),
    )
}

/// The text of a name that may be missing.
pub open spec fn name_view(name: Option<&String>) -> Option<Seq<char>> {
    match name {
        Some(n) => Some(n@),
        None => None,
    }
}

/// The forms of a set that may be missing.
pub open spec fn set_view(set: Option<&PronounSet>) -> Option<PronounForms> {
    match set {
        Some(s) => Some(s@),
        None => None,
    }
}

/// Takes the markers off a tag and tells which capitals they ask for.
pub fn split_markers(tag: &Vec<char>) -> (parts: (Capitalization, Vec<char>))
    ensures
        parts.0 == marked_capitalization(tag@),
        parts.1@ == bare_tag(tag@),
{
    let mut from: usize = 0;
    let mut to: usize = tag.len();
    let mut mode = Capitalization::Unchanged;
    if to > 0 && tag[0] == '^' {
        from = 1;
        mode = Capitalization::FirstLetter;
    }
    if to > from && tag[to - 1] == '^' {
        to -= 1;
        mode = Capitalization::AllCaps;
    }
    let bare = slice_of(tag, from, to);
    proof {
        let rest = behind_leading_marker(tag@);
        assert(rest == tag@.subrange(from as int, tag.len() as int));
        if has_trailing_marker(tag@) {
            assert(rest.drop_last() == tag@.subrange(from as int, to as int));
        }
    }
    (mode, bare)
}

/// Tells what a tag without markers asks for.
pub fn classify(bare: &Vec<char>) -> (kind: Tag)
    ensures
        kind == tag_of(bare@),
{
    if is_word(bare, "name") {
        Tag::Name
    } else if is_word(bare, "subjective") {
        Tag::Subjective
    } else if is_word(bare, "objective") {
        Tag::Objective
    } else if is_word(bare, "possessive") {
        Tag::Possessive
    } else if is_word(bare, "possessive2") {
        Tag::Possessive2
    } else if is_word(bare, "reflexive") {
        Tag::Reflexive
    } else {
        Tag::Unknown
    }
}

/// Puts a value in capitals.
pub fn capitalize(value: &Vec<char>, mode: Capitalization) -> (shown: Vec<char>)
    ensures
        shown@ == capitalized(value@, mode),
{
    match mode {
        Capitalization::Unchanged => value.clone(),
        Capitalization::FirstLetter => {
            if value.len() == 0 {
                Vec::new()
            } else {
                let mut shown = uppercase_char(value[0]);
                let rest = lowercase(&slice_of(value, 1, value.len()));
                append(&mut shown, &rest);
                shown
            }
        },
        Capitalization::AllCaps => uppercase(value),
    }
}

/// Puts the escape character on both sides of each opening bracket of a
/// value.
pub fn escape_brackets(value: &Vec<char>) -> (safe: Vec<char>)
    ensures
        safe@ == escaped(value@),
{
    let mut safe: Vec<char> = Vec::new();
    let mut i: usize = 0;
    while i < value.len()
        invariant
            i <= value.len(),
            escaped(value@) == safe@ + escaped_from(value@, i as int),
        decreases value.len() - i,
    {
        let ghost before = safe@;
        if value[i] == '[' {
            safe.push(ESCAPE);
            safe.push('[');
            safe.push(ESCAPE);
            assert(safe@ == before + seq![ESCAPE, '[', ESCAPE]);
        } else {
            safe.push(value[i]);
            assert(safe@ == before + seq![value@[i as int]]);
        }
        i += 1;
    }
    safe
}

/// Copies the affix of a group for a number.
fn affix_of(group: &AffixGroup, number: Option<bool>) -> (affix: Vec<char>)
    ensures
        affix@ == affix_for(group@, number),
{
    match number {
        Some(true) => group.plural.clone(),
        Some(false) => group.singular.clone(),
        None => Vec::new(),
    }
}

/// Builds what goes in the place of a placeholder from the number that
/// chooses the affixes and the value in capitals.
pub fn assemble(p: &Placeholder, number: Option<bool>, value: &Vec<char>) -> (text: Vec<char>)
    ensures
        text@ == assembled(p@, number, value@),
{
    let mut text: Vec<char> = Vec::new();
    match &p.before {
        Some(group) => {
            append(&mut text, &affix_of(group, number));
            append(&mut text, &group.gap);
        },
        None => {},
    }
    append(&mut text, &escape_brackets(value));
    match &p.after {
        Some(group) => {
            append(&mut text, &group.gap);
            append(&mut text, &affix_of(group, number));
        },
        None => {},
    }
    text
}

/// Builds what goes in the place of a placeholder, given the name and
/// the set that were drawn for it. A name is used by a name tag only, a
/// set by a pronoun tag only.
pub fn substitute(p: &Placeholder, name: Option<&String>, set: Option<&PronounSet>) -> (text: Vec<
    char,
>)
    ensures
        text@ == substitution(p@, name_view(name), set_view(set)),
{
    let (marked, bare) = split_markers(&p.tag);
    let kind = classify(&bare);
    let mut mode = marked;
    let mut number: Option<bool> = None;
    let value: Vec<char> = match kind {
        Tag::Name => match name {
            Some(n) => {
                match marked {
                    Capitalization::Unchanged => {
                        mode = Capitalization::FirstLetter;
                    },
                    _ => {},
                }
                chars_of(n.as_str())
            },
            None => Vec::new(),
        },
        Tag::Unknown => bare,
        _ => match set {
            Some(s) => {
                number = Some(s.plural);
                match kind {
                    Tag::Subjective => chars_of(s.subjective.as_str()),
                    Tag::Objective => chars_of(s.objective.as_str()),
                    Tag::Possessive => chars_of(s.possessive.as_str()),
                    Tag::Possessive2 => chars_of(s.possessive2.as_str()),
                    _ => chars_of(s.reflexive.as_str()),
                }
            },
            None => bare,
        },
    };
    let shown = capitalize(&value, mode);
    assemble(p, number, &shown)
}

/// The texts of the names in a list.
pub open spec fn name_texts(names: Seq<String>) -> Seq<Seq<char>> {
    names.map_values(|n: String| n@)
}

/// The forms of the sets in a list.
pub open spec fn set_forms(sets: Seq<PronounSet>) -> Seq<PronounForms> {
    sets.map_values(|s: PronounSet| s@)
}

/// The draw for the placeholder with the given number, counted from
/// zero. A placeholder for which no draw is given has the draw zero.
pub open spec fn draw_at(draws: Seq<usize>, k: int) -> int {
    if 0 <= k < draws.len() {
        draws[k] as int
    } else {
        0
    }
}

/// The item of a list that a draw picks: none from an empty list, else
/// the one at the position that is the draw modulo the length.
pub open spec fn drawn<T>(items: Seq<T>, draw: int) -> Option<T> {
    if items.len() == 0 {
        None
    } else {
        Some(items[draw % (items.len() as int)])
    }
}

/// The text after the first `k` placeholders have been resolved. Each in
/// its turn is resolved with its own draw, and what comes of it takes the
/// place of every occurrence of the placeholder's source in the text.
pub open spec fn resolved(
    t: Seq<char>,
    places: Seq<PlaceholderText>,
    names: Seq<Seq<char>>,
    sets: Seq<PronounForms>,
    draws: Seq<usize>,
    k: int,
) -> Seq<char>
    decreases k,
{
    if k <= 0 || k > places.len() {
        t
    } else {
        let draw = draw_at(draws, k - 1);
        replaced(
            resolved(t, places, names, sets, draws, k - 1),
            places[k - 1].source(),
            substitution(places[k - 1], drawn(names, draw), drawn(sets, draw)),
        )
    }
}

/// The rendering of a template with the given names, sets and draws: all
/// its placeholders resolved from left to right, and the escape character
/// taken out of what is left.
pub open spec fn rendered(
    t: Seq<char>,
    names: Seq<Seq<char>>,
    sets: Seq<PronounForms>,
    draws: Seq<usize>,
) -> Seq<char> {
    let places = placeholder_texts(t);
    without(resolved(t, places, names, sets, draws, places.len() as int), ESCAPE)
}

/// Copies a group as it is written.
fn append_braces(text: &mut Vec<char>, group: &AffixGroup)
    ensures
        final(text)@ == old(text)@ + group@.braces(),
{
    text.push('{');
    append(text, &group.singular);
    text.push('|');
    append(text, &group.plural);
    text.push('}');
}

/// Writes a placeholder as it stands in a template.
pub fn source_of(p: &Placeholder) -> (text: Vec<char>)
    ensures
        text@ == p@.source(),
{
    let mut text: Vec<char> = Vec::new();
    match &p.before {
        Some(group) => {
            append_braces(&mut text, group);
            append(&mut text, &group.gap);
        },
        None => {},
    }
    text.push('[');
    append(&mut text, &p.tag);
    text.push(']');
    match &p.after {
        Some(group) => {
            append(&mut text, &group.gap);
            append_braces(&mut text, group);
        },
        None => {},
    }
    text
}

/// Draws that are the same up to the `k`-th resolve the first `k`
/// placeholders in the same way.
pub proof fn lemma_resolved_reads_first_draws(
    t: Seq<char>,
    places: Seq<PlaceholderText>,
    names: Seq<Seq<char>>,
    sets: Seq<PronounForms>,
    first: Seq<usize>,
    second: Seq<usize>,
    k: int,
)
    requires
        forall|i: int| 0 <= i < k ==> draw_at(first, i) == draw_at(second, i),
    ensures
        resolved(t, places, names, sets, first, k) == resolved(t, places, names, sets, second, k),
    decreases k,
{
    if 0 < k <= places.len() {
        lemma_resolved_reads_first_draws(t, places, names, sets, first, second, k - 1);
    }
}

/// A draw below the length of a list picks the item at that position.
pub proof fn lemma_drawn_at_position<T>(items: Seq<T>, i: int)
    requires
        0 <= i < items.len(),
    ensures
        drawn(items, i) == Some(items[i]),
{
    vstd::arithmetic::div_mod::lemma_small_mod(i as nat, items.len());
}

/// What goes in the place of a placeholder depends on the name for a
/// name tag only, and on the set for a pronoun tag only.
pub proof fn lemma_substitution_reads_what_tag_asks(
    p: PlaceholderText,
    name: Option<Seq<char>>,
    set: Option<PronounForms>,
    other_name: Option<Seq<char>>,
    other_set: Option<PronounForms>,
)
    requires
        tag_of(bare_tag(p.tag)) == Tag::Name ==> name == other_name,
        tag_of(bare_tag(p.tag)) != Tag::Name && tag_of(bare_tag(p.tag)) != Tag::Unknown ==> set
            == other_set,
    ensures
        substitution(p, name, set) == substitution(p, other_name, other_set),
{
}

/// Renders a template with given draws in place of chance.
///
/// The placeholders are counted from zero, from left to right; `draws[k]`
/// is the draw for the `k`-th. A draw picks the name, or the set, at the
/// position that is the draw modulo the length of the list.
pub fn render_with_draws(
    text: &str,
    names: &Vec<String>,
    sets: &Vec<PronounSet>,
    draws: &Vec<usize>,
) -> (result: String)
    ensures
        result@ == rendered(text@, name_texts(names@), set_forms(sets@), draws@),
        !result@.contains(ESCAPE),
{
    let t = chars_of(text);
    let places = find_placeholders(&t);
    let mut working: Vec<char> = t.clone();
    let mut k: usize = 0;
    while k < places.len()
        invariant
            k <= places.len(),
            placeholder_views(places@) == placeholder_texts(t@),
            working@ == resolved(
                t@,
                placeholder_texts(t@),
                name_texts(names@),
                set_forms(sets@),
                draws@,
                k as int,
            ),
        decreases places.len() - k,
    {
        let draw: usize = if k < draws.len() {
            draws[k]
        } else {
            0
        };
        let name: Option<&String> = if names.len() == 0 {
            None
        } else {
            Some(&names[draw % names.len()])
        };
        let set: Option<&PronounSet> = if sets.len() == 0 {
            None
        } else {
            Some(&sets[draw % sets.len()])
        };
        assert(placeholder_views(places@)[k as int] == places@[k as int]@);
        proof {
            let all_names = name_texts(names@);
            let all_sets = set_forms(sets@);
            assert(all_names.len() == names@.len() && all_sets.len() == sets@.len());
            if names@.len() > 0 {
                let i = draw as int % (names@.len() as int);
                assert(all_names[i] == names@[i]@);
            }
            if sets@.len() > 0 {
                let i = draw as int % (sets@.len() as int);
                assert(all_sets[i] == sets@[i]@);
            }
        }
        assert(name_view(name) == drawn(name_texts(names@), draw as int));
        assert(set_view(set) == drawn(set_forms(sets@), draw as int));
        let put = substitute(&places[k], name, set);
        working = replace_all(&working, &source_of(&places[k]), &put);
        k += 1;
    }
    string_of(&remove_all(&working, ESCAPE))
}

/// Renders a template: every placeholder is resolved with a name or a
/// pronoun set drawn at random from the lists, and the escape character
/// is taken out of the result.
///
/// A name is drawn for each name tag and a set for each pronoun tag, each
/// draw by itself. With an empty list nothing is drawn: a name tag then
/// leaves nothing, a pronoun tag its own text. The result is the
/// rendering for some sequence of draws, one for each placeholder.
pub fn genderify_text(text: &str, names: Vec<String>, sets: Vec<PronounSet>) -> (result: String)
    ensures
        exists|draws: Seq<usize>|
            draws.len() == placeholder_texts(text@).len() && result@ == #[trigger] rendered(
                text@,
                name_texts(names@),
                set_forms(sets@),
                draws,
            ),
        !result@.contains(ESCAPE),
{
    let t = chars_of(text);
    let places = find_placeholders(&t);
    let mut working: Vec<char> = t.clone();
    let ghost mut draws: Seq<usize> = Seq::empty();
    let mut rng = rand::thread_rng();
    let mut k: usize = 0;
    while k < places.len()
        invariant
            k <= places.len(),
            draws.len() == k,
            placeholder_views(places@) == placeholder_texts(t@),
            working@ == resolved(
                t@,
                placeholder_texts(t@),
                name_texts(names@),
                set_forms(sets@),
                draws,
                k as int,
            ),
        decreases places.len() - k,
    {
        let (_, bare) = split_markers(&places[k].tag);
        let kind = classify(&bare);
        let mut name: Option<&String> = None;
        let mut set: Option<&PronounSet> = None;
        let name_count: usize = names.len();
        let set_count: usize = sets.len();
        let ghost mut draw: usize = 0;
        match kind {
            Tag::Name => {
                name = pick(&names, &mut rng);
                proof {
                    if name is Some {
                        let i = choose|i: int|
                            0 <= i < names@.len() && names@[i] == *name.unwrap();
                        draw = i as usize;
                        lemma_drawn_at_position(name_texts(names@), i);
                        assert(name_texts(names@)[i] == names@[i]@);
                        assert(i < name_count);
                        assert(draw as int == i);
                    }
                    assert(name_texts(names@).len() == names@.len());
                    assert(name_view(name) == drawn(name_texts(names@), draw as int));
                }
            },
            Tag::Unknown => {},
            _ => {
                set = pick(&sets, &mut rng);
                proof {
                    if set is Some {
                        let i = choose|i: int| 0 <= i < sets@.len() && sets@[i] == *set.unwrap();
                        draw = i as usize;
                        lemma_drawn_at_position(set_forms(sets@), i);
                        assert(set_forms(sets@)[i] == sets@[i]@);
                        assert(i < set_count);
                        assert(draw as int == i);
                    }
                    assert(set_forms(sets@).len() == sets@.len());
                    assert(set_view(set) == drawn(set_forms(sets@), draw as int));
                }
            },
        }
        let put = substitute(&places[k], name, set);
        proof {
            let p = places@[k as int]@;
            assert(placeholder_views(places@)[k as int] == p);
            let all_names = name_texts(names@);
            let all_sets = set_forms(sets@);
            lemma_substitution_reads_what_tag_asks(
                p,
                name_view(name),
                set_view(set),
                drawn(all_names, draw as int),
                drawn(all_sets, draw as int),
            );
            let longer = draws.push(draw);
            lemma_resolved_reads_first_draws(
                t@,
                placeholder_texts(t@),
                all_names,
                all_sets,
                draws,
                longer,
                k as int,
            );
            assert(draw_at(longer, k as int) == draw);
            draws = longer;
        }
        working = replace_all(&working, &source_of(&places[k]), &put);
        k += 1;
    }
    let result = string_of(&remove_all(&working, ESCAPE));
    assert(placeholder_views(places@).len() == places@.len());
    assert(result@ == rendered(text@, name_texts(names@), set_forms(sets@), draws));
    result
}

/// A rendering never holds the escape character.
pub proof fn lemma_rendered_has_no_escape(
    t: Seq<char>,
    names: Seq<Seq<char>>,
    sets: Seq<PronounForms>,
    draws: Seq<usize>,
)
    ensures
        !rendered(t, names, sets, draws).contains(ESCAPE),
{
    let places = placeholder_texts(t);
    lemma_without_has_none(resolved(t, places, names, sets, draws, places.len() as int), ESCAPE);
}

/// The value of a tag for which nothing was drawn: nothing for a name
/// tag, the tag without its markers for any other.
pub open spec fn unresolved_value(tag: Seq<char>) -> Seq<char> {
    if tag_of(bare_tag(tag)) == Tag::Name {
        Seq::empty()
    } else {
        bare_tag(tag)
    }
}

/// The gap of a group that may be missing.
pub open spec fn gap_of(group: Option<Affixes>) -> Seq<char> {
    match group {
        Some(g) => g.gap,
        None => Seq::empty(),
    }
}

/// Where nothing was drawn, a placeholder leaves its two gaps and,
/// between them, the escaped value of its tag in the capitals that the
/// markers ask for. The affixes are gone.
pub proof fn lemma_unresolved_substitution(p: PlaceholderText)
    ensures
        substitution(p, None, None) == gap_of(p.before) + escaped(
            capitalized(unresolved_value(p.tag), marked_capitalization(p.tag)),
        ) + gap_of(p.after),
{
    let empty = Seq::<char>::empty();
    if let Some(g) = p.before {
        assert(empty + g.gap == g.gap);
    }
    if let Some(g) = p.after {
        assert(g.gap + empty == g.gap);
    }
}

/// With no names and no sets, the first `k` placeholders are resolved in
/// the same way whatever the draws.
pub proof fn lemma_resolved_without_candidates(
    t: Seq<char>,
    places: Seq<PlaceholderText>,
    first: Seq<usize>,
    second: Seq<usize>,
    k: int,
)
    ensures
        resolved(t, places, Seq::empty(), Seq::empty(), first, k) == resolved(
            t,
            places,
            Seq::empty(),
            Seq::empty(),
            second,
            k,
        ),
    decreases k,
{
    if 0 < k <= places.len() {
        lemma_resolved_without_candidates(t, places, first, second, k - 1);
    }
}

/// With no names and no sets, the rendering of a template does not
/// depend on the draws: each placeholder leaves what
/// `lemma_unresolved_substitution` says.
pub proof fn lemma_rendered_without_candidates(t: Seq<char>, first: Seq<usize>, second: Seq<usize>)
    ensures
        rendered(t, Seq::empty(), Seq::empty(), first) == rendered(
            t,
            Seq::empty(),
            Seq::empty(),
            second,
        ),
{
    let places = placeholder_texts(t);
    lemma_resolved_without_candidates(t, places, first, second, places.len() as int);
}

/// Whether the escape character stands behind every opening bracket of a
/// text.
pub open spec fn brackets_escaped(s: Seq<char>) -> bool {
    forall|i: int|
        0 <= i < s.len() && #[trigger] s[i] == '[' ==> i + 1 < s.len() && s[i + 1] == ESCAPE
}

/// Two texts with escaped brackets, one behind the other, are a text
/// with escaped brackets.
pub proof fn lemma_brackets_escaped_joined(x: Seq<char>, y: Seq<char>)
    requires
        brackets_escaped(x),
        brackets_escaped(y),
    ensures
        brackets_escaped(x + y),
{
    let s = x + y;
    assert forall|i: int| 0 <= i < s.len() && #[trigger] s[i] == '[' implies i + 1 < s.len()
        && s[i + 1] == ESCAPE by {
        if i < x.len() {
            assert(s[i] == x[i]);
            assert(s[i + 1] == x[i + 1]);
        } else {
            assert(s[i] == y[i - x.len()]);
            assert(s[i + 1] == y[i + 1 - x.len()]);
        }
    }
}

/// In an escaped value the escape character stands behind every opening
/// bracket.
pub proof fn lemma_escaped_from(value: Seq<char>, from: int)
    ensures
        brackets_escaped(escaped_from(value, from)),
    decreases value.len() - from,
{
    if 0 <= from < value.len() {
        lemma_escaped_from(value, from + 1);
        let head = if value[from] == '[' {
            seq![ESCAPE, '[', ESCAPE]
        } else {
            seq![value[from]]
        };
        assert(brackets_escaped(head));
        lemma_brackets_escaped_joined(head, escaped_from(value, from + 1));
    }
}

/// No bracket of an escaped value can open a placeholder, wherever the
/// value comes to stand.
pub proof fn lemma_escaped_opens_nothing(value: Seq<char>, before: Seq<char>, after: Seq<char>)
    ensures
        brackets_escaped(escaped(value)),
        forall|at: int|
            before.len() <= at < before.len() + escaped(value).len() ==> !opens_at(
                before + escaped(value) + after,
                at,
            ),
{
    lemma_escaped_from(value, 0);
    let e = escaped(value);
    let s = before + e + after;
    assert forall|at: int| before.len() <= at < before.len() + e.len() implies !opens_at(
        s,
        at,
    ) by {
        let i = at - before.len();
        assert(s[at] == e[i]);
        if e[i] == '[' {
            assert(s[at + 1] == e[i + 1]);
        }
    }
}

/// A template that holds the same plain placeholder twice reads the
/// same in both places: the first draw decides for both, and the second
/// is not looked at. The template is made of plain texts and of one
/// plain tag in brackets, twice.
pub proof fn lemma_same_placeholder_twice(
    a: Seq<char>,
    b: Seq<char>,
    c: Seq<char>,
    tag: Seq<char>,
    names: Seq<Seq<char>>,
    sets: Seq<PronounForms>,
    draws: Seq<usize>,
)
    requires
        plain_tag(tag),
        plain_text(a),
        plain_text(b),
        plain_text(c),
    ensures
        ({
            let written = seq!['['] + tag + seq![']'];
            let p = PlaceholderText { before: None, tag, after: None };
            let put = substitution(
                p,
                drawn(names, draw_at(draws, 0)),
                drawn(sets, draw_at(draws, 0)),
            );
            rendered(a + written + b + written + c, names, sets, draws) == without(
                a + put + b + put + c,
                ESCAPE,
            )
        }),
{
    lemma_plain_tag_twice(a, b, c, tag);
    assert(!a.contains('[') && !b.contains('[') && !c.contains('['));
    let written = seq!['['] + tag + seq![']'];
    let t = a + written + b + written + c;
    let p = PlaceholderText { before: None, tag, after: None };
    let places = placeholder_texts(t);
    let put = substitution(p, drawn(names, draw_at(draws, 0)), drawn(sets, draw_at(draws, 0)));
    let other = substitution(p, drawn(names, draw_at(draws, 1)), drawn(sets, draw_at(draws, 1)));
    let empty = Seq::<char>::empty();
    assert(p.source() == written) by {
        assert(empty + seq!['['] + tag + seq![']'] + empty == written);
    }
    assert(written[0] == '[');
    // The tag starts with a character that is not the escape character.
    assert(places.len() == 2);
    assert(places == read_all(t, placeholders(t)));
    assert(placeholders(t).len() == places.len());
    lemma_sources_are_stretches(t, 0);
    let at = placeholders(t)[0];
    assert(at.read(t) == places[0]);
    assert(tag == t.subrange(at.open + 1, at.close));
    assert(tag.len() > 0 && tag[0] == t[at.open + 1]);
    assert(written[1] == tag[0]);
    // After the first step both places hold what was drawn first.
    let once = a + put + b + put + c;
    assert(resolved(t, places, names, sets, draws, 0) == t);
    assert(resolved(t, places, names, sets, draws, 1) == replaced(t, written, put));
    lemma_replaced_twice(a, b, c, written, put);
    // The second step finds nothing to replace.
    let value = capitalized(
        central_value(tag, drawn(names, draw_at(draws, 0)), drawn(sets, draw_at(draws, 0))),
        capitalization_for(tag, drawn(names, draw_at(draws, 0))),
    );
    assert(put == escaped(value)) by {
        assert(empty + escaped(value) + empty == escaped(value));
    }
    lemma_escaped_from(value, 0);
    assert(brackets_escaped(a) && brackets_escaped(b) && brackets_escaped(c));
    lemma_brackets_escaped_joined(a, put);
    lemma_brackets_escaped_joined(a + put, b);
    lemma_brackets_escaped_joined(a + put + b, put);
    lemma_brackets_escaped_joined(a + put + b + put, c);
    assert forall|i: int| 0 <= i < once.len() implies !occurs_at(once, written, i) by {
        if occurs_at(once, written, i) {
            let found = once.subrange(i, i + written.len());
            assert(found[0] == written[0] && found[1] == written[1]);
        }
    }
    lemma_replaced_absent(once, written, other, 0);
    assert(once.subrange(0, once.len() as int) == once);
    assert(resolved(t, places, names, sets, draws, 2) == replaced(once, written, other));
}

/// A template without an opening bracket is rendered as it is, but for
/// the escape character, whatever the names, sets and draws.
pub proof fn lemma_rendered_without_bracket(
    t: Seq<char>,
    names: Seq<Seq<char>>,
    sets: Seq<PronounForms>,
    draws: Seq<usize>,
)
    requires
        forall|i: int| 0 <= i < t.len() ==> t[i] != '[',
    ensures
        rendered(t, names, sets, draws) == without(t, ESCAPE),
{
    lemma_no_placeholder_without_bracket(t, 0);
    assert(placeholder_texts(t).len() == placeholders(t).len());
}

} // verus!
