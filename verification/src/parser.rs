//! The parser of pronoun specifications.
//!
//! A specification is up to five pronouns between slashes, and after a
//! colon a word for the number: `he`, `she/her`, `xe/xem/xyr`,
//! `xe/xem/xyr/xemself:p`, `ey/em/eir/eirs/emself`.

use vstd::prelude::*;
use crate::case::{lowercase, lowercase_of};
use crate::pronouns::{
    derive_second_possessive, he_him, it_it, second_possessive_of, she_her, they_them,
    PronounForms, PronounSet,
};
use crate::text::{
    chars_of, find, is_word, lemma_position_of, lemma_position_of_absent,
    lemma_position_of_first, pieces, pieces_from, position_of, slice_of, split, texts, trim,
    trimmed,
};

verus! {

/// Why a specification was refused.
#[derive(Clone, Copy, Debug, PartialEq, Eq, Structural)]
pub enum FormatError {
    /// There is nothing between two slashes, before the first or after the
    /// last.
    EmptySegment,
    /// The pronouns are too many, or a short form is none of the known
    /// ones.
    Unrecognized,
}

impl FormatError {
    /// The message for the user.
    pub open spec fn text(self) -> Seq<char> {
        match self {
            FormatError::EmptySegment => "There needs to be a pronoun between each slash."@,
            FormatError::Unrecognized =>
                "Pronouns must be in the form `subjective/objective/possessive/posessive/reflexive`. See `/help` for more info."@,
        }
    }

    /// The message for the user.
    pub fn message(&self) -> (message: &'static str)
        ensures
            message@ == self.text(),
    {
        match self {
            FormatError::EmptySegment => "There needs to be a pronoun between each slash.",
            FormatError::Unrecognized =>
                "Pronouns must be in the form `subjective/objective/possessive/posessive/reflexive`. See `/help` for more info.",
        }
    }
}

/// The specification as the parser reads it: without the white space
/// around it, in lower case.
pub open spec fn normalized(raw: Seq<char>) -> Seq<char> {
    lowercase_of(trimmed(raw))
}

/// The part of a normalized specification that holds the pronouns: what
/// stands before the first colon, or all of it.
pub open spec fn pronoun_part(n: Seq<char>) -> Seq<char> {
    n.subrange(0, position_of(n, ':', 0))
}

/// The word for the number: what stands behind the first colon, without
/// the white space around it. Empty where there is no colon.
pub open spec fn modifier(n: Seq<char>) -> Seq<char> {
    let colon = position_of(n, ':', 0);
    if colon < n.len() {
        trimmed(n.subrange(colon + 1, n.len() as int))
    } else {
        Seq::empty()
    }
}

/// Whether the modifier asks for the plural. Any other modifier, known or
/// not, leaves the singular.
pub open spec fn asks_plural(n: Seq<char>) -> bool {
    let m = modifier(n);
    m == "p"@ || m == "pl"@ || m == "plural"@
}

/// Whether one of the pieces is empty.
pub open spec fn has_empty_piece(parts: Seq<Seq<char>>) -> bool {
    exists|i: int| 0 <= i < parts.len() && #[trigger] parts[i].len() == 0
}

/// The canonical set that a single word stands for.
pub open spec fn canonical_word(word: Seq<char>) -> Option<PronounForms> {
    if word == "he"@ {
        Some(he_him())
    } else if word == "she"@ {
        Some(she_her())
    } else if word == "they"@ {
        Some(they_them())
    } else if word == "it"@ {
        Some(it_it())
    } else {
        None
    }
}

/// The canonical set that a pair of subjective and objective stands for.
pub open spec fn canonical_pair(first: Seq<char>, second: Seq<char>) -> Option<PronounForms> {
    if first == "he"@ && second == "him"@ {
        Some(he_him())
    } else if first == "she"@ && second == "her"@ {
        Some(she_her())
    } else if first == "they"@ && second == "them"@ {
        Some(they_them())
    } else if first == "it"@ && (second == "it"@ || second == "its"@) {
        Some(it_it())
    } else {
        None
    }
}

/// What the pronouns between the slashes stand for, `plural` being what
/// the modifier asked. Three pronouns always give a plural set.
pub open spec fn set_of_pieces(parts: Seq<Seq<char>>, plural: bool) -> Result<
    PronounForms,
    FormatError,
> {
    if has_empty_piece(parts) {
        Err(FormatError::EmptySegment)
    } else if parts.len() == 1 {
        match canonical_word(parts[0]) {
            Some(set) => Ok(set),
            None => Err(FormatError::Unrecognized),
        }
    } else if parts.len() == 2 {
        match canonical_pair(parts[0], parts[1]) {
            Some(set) => Ok(set),
            None => Err(FormatError::Unrecognized),
        }
    } else if parts.len() == 3 {
        Ok(
            PronounForms {
                subjective: parts[0],
                objective: parts[1],
                possessive: parts[2],
                possessive2: second_possessive_of(parts[2]),
                reflexive: parts[0] + "self"@,
                plural: true,
            },
        )
    } else if parts.len() == 4 {
        Ok(
            PronounForms {
                subjective: parts[0],
                objective: parts[1],
                possessive: parts[2],
                possessive2: second_possessive_of(parts[2]),
                reflexive: parts[3],
                plural,
            },
        )
    } else if parts.len() == 5 {
        Ok(
            PronounForms {
                subjective: parts[0],
                objective: parts[1],
                possessive: parts[2],
                possessive2: parts[3],
                reflexive: parts[4],
                plural,
            },
        )
    } else {
        Err(FormatError::Unrecognized)
    }
}

/// What a normalized specification stands for.
pub open spec fn parsed(n: Seq<char>) -> Result<PronounForms, FormatError> {
    set_of_pieces(pieces(pronoun_part(n), '/'), asks_plural(n))
}

/// Tells whether one of the pieces is empty.
fn any_empty(parts: &Vec<Vec<char>>) -> (found: bool)
    ensures
        found == has_empty_piece(texts(parts@)),
{
    let mut i: usize = 0;
    while i < parts.len()
        invariant
            i <= parts.len(),
            forall|j: int| 0 <= j < i ==> (#[trigger] texts(parts@)[j]).len() != 0,
        decreases parts.len() - i,
    {
        if parts[i].len() == 0 {
            assert(texts(parts@)[i as int].len() == 0);
            return true;
        }
        i += 1;
    }
    false
}

/// Reads the canonical set that a single word stands for.
fn read_word(word: &Vec<char>) -> (set: Option<PronounSet>)
    ensures
        match canonical_word(word@) {
            Some(forms) => set is Some && set.unwrap()@ == forms,
            None => set is None,
        },
{
    if is_word(word, "he") {
        Some(PronounSet::he_him())
    } else if is_word(word, "she") {
        Some(PronounSet::she_her())
    } else if is_word(word, "they") {
        Some(PronounSet::they_them())
    } else if is_word(word, "it") {
        Some(PronounSet::it_it())
    } else {
        None
    }
}

/// Reads the canonical set that a pair stands for.
fn read_pair(first: &Vec<char>, second: &Vec<char>) -> (set: Option<PronounSet>)
    ensures
        match canonical_pair(first@, second@) {
            Some(forms) => set is Some && set.unwrap()@ == forms,
            None => set is None,
        },
{
    if is_word(first, "he") && is_word(second, "him") {
        Some(PronounSet::he_him())
    } else if is_word(first, "she") && is_word(second, "her") {
        Some(PronounSet::she_her())
    } else if is_word(first, "they") && is_word(second, "them") {
        Some(PronounSet::they_them())
    } else if is_word(first, "it") && (is_word(second, "it") || is_word(second, "its")) {
        Some(PronounSet::it_it())
    } else {
        None
    }
}

/// Builds the set that the pronouns between the slashes stand for.
pub fn read_pieces(parts: &Vec<Vec<char>>, plural: bool) -> (result: Result<
    PronounSet,
    FormatError,
>)
    ensures
        match set_of_pieces(texts(parts@), plural) {
            Ok(forms) => result is Ok && result.unwrap()@ == forms,
            Err(error) => result == Err::<PronounSet, FormatError>(error),
        },
        result is Ok ==> result.unwrap()@.populated(),
{
    if any_empty(parts) {
        return Err(FormatError::EmptySegment);
    }
    let ghost views = texts(parts@);
    assert(forall|i: int| 0 <= i < parts.len() ==> (#[trigger] views[i]).len() > 0);
    let count: usize = parts.len();
    if count == 1 {
        assert(views[0] == parts@[0]@);
        match read_word(&parts[0]) {
            Some(set) => {
                proof {
                    lemma_canonical_sets_populated();
                }
                Ok(set)
            },
            None => Err(FormatError::Unrecognized),
        }
    } else if count == 2 {
        assert(views[0] == parts@[0]@ && views[1] == parts@[1]@);
        match read_pair(&parts[0], &parts[1]) {
            Some(set) => {
                proof {
                    lemma_canonical_sets_populated();
                }
                Ok(set)
            },
            None => Err(FormatError::Unrecognized),
        }
    } else if count == 3 {
        assert(views[0] == parts@[0]@ && views[1] == parts@[1]@ && views[2] == parts@[2]@);
        let mut reflexive: Vec<char> = parts[0].clone();
        let ending = chars_of("self");
        crate::text::append(&mut reflexive, &ending);
        let possessive2 = derive_second_possessive(&parts[2]);
        Ok(PronounSet::of_texts(&parts[0], &parts[1], &parts[2], &possessive2, &reflexive, true))
    } else if count == 4 {
        assert(views[0] == parts@[0]@ && views[1] == parts@[1]@ && views[2] == parts@[2]@
            && views[3] == parts@[3]@);
        let possessive2 = derive_second_possessive(&parts[2]);
        Ok(
            PronounSet::of_texts(
                &parts[0],
                &parts[1],
                &parts[2],
                &possessive2,
                &parts[3],
                plural,
            ),
        )
    } else if count == 5 {
        assert(views[0] == parts@[0]@ && views[1] == parts@[1]@ && views[2] == parts@[2]@
            && views[3] == parts@[3]@ && views[4] == parts@[4]@);
        Ok(PronounSet::of_texts(&parts[0], &parts[1], &parts[2], &parts[3], &parts[4], plural))
    } else {
        Err(FormatError::Unrecognized)
    }
}

/// The four canonical sets have all their forms.
pub proof fn lemma_canonical_sets_populated()
    ensures
        he_him().populated(),
        she_her().populated(),
        they_them().populated(),
        it_it().populated(),
{
    reveal_strlit("he");
    reveal_strlit("him");
    reveal_strlit("his");
    reveal_strlit("himself");
    reveal_strlit("she");
    reveal_strlit("her");
    reveal_strlit("hers");
    reveal_strlit("herself");
    reveal_strlit("they");
    reveal_strlit("them");
    reveal_strlit("their");
    reveal_strlit("theirs");
    reveal_strlit("themself");
    reveal_strlit("it");
    reveal_strlit("its");
    reveal_strlit("itself");
}

/// Parses a specification that is already normalized: trimmed and in
/// lower case.
///
/// The pronouns stand before the first colon, the word for the number
/// behind it. The result is a set with all five forms, or the reason why
/// there is none.
pub fn parse_normalized(normal: &str) -> (result: Result<PronounSet, FormatError>)
    ensures
        match parsed(normal@) {
            Ok(forms) => result is Ok && result.unwrap()@ == forms,
            Err(error) => result == Err::<PronounSet, FormatError>(error),
        },
        result is Ok ==> result.unwrap()@.populated(),
{
    let n = chars_of(normal);
    parse_text(&n)
}

/// Parses a normalized specification given as a text.
fn parse_text(n: &Vec<char>) -> (result: Result<PronounSet, FormatError>)
    ensures
        match parsed(n@) {
            Ok(forms) => result is Ok && result.unwrap()@ == forms,
            Err(error) => result == Err::<PronounSet, FormatError>(error),
        },
        result is Ok ==> result.unwrap()@.populated(),
{
    let colon: usize = find(n, ':', 0);
    let mut plural = false;
    if colon < n.len() {
        let word = trim(&slice_of(n, colon + 1, n.len()));
        plural = is_word(&word, "p") || is_word(&word, "pl") || is_word(&word, "plural");
    } else {
        proof {
            reveal_strlit("p");
            reveal_strlit("pl");
            reveal_strlit("plural");
            assert("p"@.len() == 1 && "pl"@.len() == 2 && "plural"@.len() == 6);
        }
    }
    let pronouns = slice_of(n, 0, colon);
    let parts = split(&pronouns, '/');
    read_pieces(&parts, plural)
}

/// Parses a pronoun specification.
///
/// The input is trimmed and put in lower case, then read as
/// [`parse_normalized`] reads it. An error is returned as its message.
pub fn parse_set(raw: &str) -> (result: Result<PronounSet, &'static str>)
    ensures
        match parsed(normalized(raw@)) {
            Ok(forms) => result is Ok && result.unwrap()@ == forms,
            Err(error) => result is Err && result.unwrap_err()@ == error.text(),
        },
        result is Ok ==> result.unwrap()@.populated(),
{
    let n = lowercase(&trim(&chars_of(raw)));
    match parse_text(&n) {
        Ok(set) => Ok(set),
        Err(error) => Err(error.message()),
    }
}

/// The canonical set that a canonical spelling stands for: one of the
/// four words, or one of the five pairs.
pub open spec fn canonical_spelling(pronouns: Seq<char>) -> Option<PronounForms> {
    if pronouns == "he"@ || pronouns == "he/him"@ {
        Some(he_him())
    } else if pronouns == "she"@ || pronouns == "she/her"@ {
        Some(she_her())
    } else if pronouns == "they"@ || pronouns == "they/them"@ {
        Some(they_them())
    } else if pronouns == "it"@ || pronouns == "it/it"@ || pronouns == "it/its"@ {
        Some(it_it())
    } else {
        None
    }
}

/// A text without a slash is one piece.
pub proof fn lemma_one_piece(s: Seq<char>)
    requires
        forall|i: int| 0 <= i < s.len() ==> s[i] != '/',
    ensures
        pieces(s, '/') == seq![s],
{
    lemma_position_of_absent(s, '/', 0);
    assert(s.subrange(0, s.len() as int) == s);
}

/// Two texts without a slash, with a slash between them, are two pieces.
pub proof fn lemma_two_pieces(first: Seq<char>, second: Seq<char>)
    requires
        forall|i: int| 0 <= i < first.len() ==> first[i] != '/',
        forall|i: int| 0 <= i < second.len() ==> second[i] != '/',
    ensures
        pieces(first + seq!['/'] + second, '/') == seq![first, second],
{
    let s = first + seq!['/'] + second;
    let at = first.len() as int;
    assert forall|i: int| at + 1 <= i < s.len() implies s[i] != '/' by {
        assert(s[i] == second[i - at - 1]);
    }
    assert forall|i: int| 0 <= i < at implies s[i] != '/' by {
        assert(s[i] == first[i]);
    }
    lemma_position_of_first(s, '/', 0, at);
    lemma_position_of_absent(s, '/', at + 1);
    assert(s.subrange(0, at) == first);
    assert(s.subrange(at + 1, s.len() as int) == second);
    assert(pieces_from(s, '/', at + 1) == seq![second]);
    assert(pieces_from(s, '/', 0) == seq![first] + pieces_from(s, '/', at + 1));
}

/// Every canonical spelling parses to its canonical set: each of the
/// words `he`, `she`, `they` and `it`, and each of the pairs `he/him`,
/// `she/her`, `they/them`, `it/it` and `it/its`, whatever modifier
/// follows it.
pub proof fn lemma_canonical_spellings_parse(n: Seq<char>)
    requires
        canonical_spelling(pronoun_part(n)) is Some,
    ensures
        parsed(n) == Ok::<PronounForms, FormatError>(
            canonical_spelling(pronoun_part(n)).unwrap(),
        ),
{
    reveal_strlit("he");
    reveal_strlit("she");
    reveal_strlit("they");
    reveal_strlit("it");
    reveal_strlit("him");
    reveal_strlit("her");
    reveal_strlit("them");
    reveal_strlit("its");
    reveal_strlit("he/him");
    reveal_strlit("she/her");
    reveal_strlit("they/them");
    reveal_strlit("it/it");
    reveal_strlit("it/its");
    let s = pronoun_part(n);
    if s == "he"@ || s == "she"@ || s == "they"@ || s == "it"@ {
        lemma_one_piece(s);
        assert(pieces(s, '/')[0] == s);
    } else {
        let (first, second) = if s == "he/him"@ {
            ("he"@, "him"@)
        } else if s == "she/her"@ {
            ("she"@, "her"@)
        } else if s == "they/them"@ {
            ("they"@, "them"@)
        } else if s == "it/it"@ {
            ("it"@, "it"@)
        } else {
            ("it"@, "its"@)
        };
        assert(s == first + seq!['/'] + second);
        lemma_two_pieces(first, second);
        assert(pieces(s, '/')[0] == first && pieces(s, '/')[1] == second);
    }
}

/// The two messages differ, so the message tells the error.
pub proof fn lemma_messages_differ()
    ensures
        FormatError::EmptySegment.text() != FormatError::Unrecognized.text(),
{
    reveal_strlit("There needs to be a pronoun between each slash.");
    reveal_strlit(
        "Pronouns must be in the form `subjective/objective/possessive/posessive/reflexive`. See `/help` for more info.",
    );
    assert(FormatError::EmptySegment.text()[0] == 'T');
    assert(FormatError::Unrecognized.text()[0] == 'P');
}

/// Whether a slash stands where no pronoun can be before it or behind
/// it, from position `from` on: at the start, at the end, or right
/// behind another slash. An empty text counts.
pub open spec fn slash_misplaced_from(s: Seq<char>, from: int) -> bool {
    ||| from >= s.len()
    ||| s[from] == '/'
    ||| s.last() == '/'
    ||| exists|i: int| from <= i < s.len() - 1 && #[trigger] s[i] == '/' && s[i + 1] == '/'
}

/// A piece is empty exactly where a slash is misplaced.
pub proof fn lemma_empty_pieces(s: Seq<char>, from: int)
    requires
        0 <= from <= s.len(),
    ensures
        has_empty_piece(pieces_from(s, '/', from)) <==> slash_misplaced_from(s, from),
    decreases s.len() - from,
{
    let all = pieces_from(s, '/', from);
    let at = position_of(s, '/', from);
    lemma_position_of(s, '/', from);
    if at < s.len() {
        let rest = pieces_from(s, '/', at + 1);
        lemma_empty_pieces(s, at + 1);
        assert(all == seq![s.subrange(from, at)] + rest);
        assert(all[0] == s.subrange(from, at));
        assert forall|j: int| 0 <= j < rest.len() implies rest[j] == all[j + 1] by {}
        if has_empty_piece(all) {
            let j = choose|j: int| 0 <= j < all.len() && #[trigger] all[j].len() == 0;
            if j > 0 {
                assert(rest[j - 1].len() == 0);
                assert(slash_misplaced_from(s, at + 1));
                if at + 1 < s.len() && s[at + 1] == '/' {
                    assert(s[at] == '/' && s[at + 1] == '/');
                }
                if exists|i: int| at + 1 <= i < s.len() - 1 && #[trigger] s[i] == '/' && s[i + 1] == '/' {
                    let i = choose|i: int|
                        at + 1 <= i < s.len() - 1 && #[trigger] s[i] == '/' && s[i + 1] == '/';
                    assert(from <= i < s.len() - 1 && s[i] == '/');
                }
            }
        }
        if slash_misplaced_from(s, from) {
            if s[from] == '/' {
                assert(all[0].len() == 0);
            } else if s.last() == '/' {
                assert(slash_misplaced_from(s, at + 1));
                let j = choose|j: int| 0 <= j < rest.len() && #[trigger] rest[j].len() == 0;
                assert(all[j + 1].len() == 0);
            } else {
                let i = choose|i: int|
                    from <= i < s.len() - 1 && #[trigger] s[i] == '/' && s[i + 1] == '/';
                assert(i >= at);
                if i > at {
                    assert(at + 1 <= i < s.len() - 1 && s[i] == '/');
                }
                assert(slash_misplaced_from(s, at + 1));
                let j = choose|j: int| 0 <= j < rest.len() && #[trigger] rest[j].len() == 0;
                assert(all[j + 1].len() == 0);
            }
        }
    } else {
        assert(all == seq![s.subrange(from, s.len() as int)]);
        assert(all[0].len() == s.len() - from);
        if slash_misplaced_from(s, from) && from < s.len() {
            if s.last() == '/' {
                assert(s[s.len() - 1] == '/');
            }
        }
    }
}

/// A specification with a misplaced slash among its pronouns is refused
/// for its empty segment, and no other is: one that starts or ends with
/// a slash, holds two slashes in a row, or holds no pronouns at all.
pub proof fn lemma_empty_segment_error(n: Seq<char>)
    ensures
        parsed(n) == Err::<PronounForms, FormatError>(FormatError::EmptySegment)
            <==> slash_misplaced_from(pronoun_part(n), 0),
{
    lemma_empty_pieces(pronoun_part(n), 0);
}

/// A set that the parser gives has all five forms.
pub proof fn lemma_parsed_is_populated(n: Seq<char>)
    ensures
        parsed(n) matches Ok(forms) ==> forms.populated(),
{
    lemma_canonical_sets_populated();
    let parts = pieces(pronoun_part(n), '/');
    if !has_empty_piece(parts) {
        assert(forall|i: int| 0 <= i < parts.len() ==> (#[trigger] parts[i]).len() > 0);
        if parts.len() >= 3 {
            assert(parts[0].len() > 0 && parts[1].len() > 0 && parts[2].len() > 0);
        }
        if parts.len() >= 4 {
            assert(parts[3].len() > 0);
        }
        if parts.len() >= 5 {
            assert(parts[4].len() > 0);
        }
    }
}

} // verus!
