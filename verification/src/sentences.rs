//! Sample sentences: three sentences, drawn from a list, are set under
//! headings between an opening and a closing text, and rendered.

use vstd::prelude::*;
use crate::engine::{genderify_text, name_texts, rendered, set_forms};
use crate::pronouns::PronounSet;
use crate::random::index_below;
use rand::rngs::ThreadRng;
use crate::text::{append, chars_of, string_of};

verus! {

/// The kinds of sentences, by what their placeholders ask for.
#[derive(Clone, Copy, Debug, PartialEq, Eq, Structural)]
pub enum SentenceType {
    /// No kind of sentence.
    Invalid,
    /// Sentences with names and pronouns.
    NamesPronouns,
    /// Sentences with pronouns only.
    PronounsOnly,
    /// Sentences with names only.
    NamesOnly,
}

impl SentenceType {
    /// The number under which the kind is stored.
    pub open spec fn code_of(self) -> u8 {
        match self {
            SentenceType::Invalid => 255,
            SentenceType::NamesPronouns => 0,
            SentenceType::PronounsOnly => 1,
            SentenceType::NamesOnly => 2,
        }
    }

    /// The number under which the kind is stored.
    pub fn code(&self) -> (code: u8)
        ensures
            code == self.code_of(),
    {
        match self {
            SentenceType::Invalid => 255,
            SentenceType::NamesPronouns => 0,
            SentenceType::PronounsOnly => 1,
            SentenceType::NamesOnly => 2,
        }
    }

    /// The kind of sentence for so many names and so many sets; none
    /// where there are neither names nor sets.
    pub open spec fn suits(names: int, sets: int) -> Option<SentenceType> {
        if sets == 0 && names == 0 {
            None
        } else if sets == 0 {
            Some(SentenceType::NamesOnly)
        } else if names == 0 {
            Some(SentenceType::PronounsOnly)
        } else {
            Some(SentenceType::NamesPronouns)
        }
    }

    /// Tells which kind of sentence suits so many names and so many sets.
    pub fn for_candidates(names: usize, sets: usize) -> (kind: Option<SentenceType>)
        ensures
            kind == Self::suits(names as int, sets as int),
    {
        if sets == 0 && names == 0 {
            None
        } else if sets == 0 {
            Some(SentenceType::NamesOnly)
        } else if names == 0 {
            Some(SentenceType::PronounsOnly)
        } else {
            Some(SentenceType::NamesPronouns)
        }
    }
}

/// The opening: the text given, or a standard opening in place of an
/// empty one.
pub open spec fn opening(before: Seq<char>) -> Seq<char> {
    if before.len() == 0 {
        "Okay, how do these look?"@
    } else {
        before
    }
}

/// The three sentences under their headings, between the opening and the
/// closing text.
pub open spec fn letter(
    before: Seq<char>,
    first: Seq<char>,
    second: Seq<char>,
    third: Seq<char>,
    after: Seq<char>,
) -> Seq<char> {
    opening(before) + "\n\n**Sentence 1**\n"@ + first + "\n\n**Sentence 2**\n"@ + second
        + "\n\n**Sentence 3**\n"@ + third + after
}

/// Sets three sentences under their headings, between the opening and
/// the closing text.
pub fn compose_letter(before: &str, first: &str, second: &str, third: &str, after: &str) -> (text:
    String)
    ensures
        text@ == letter(before@, first@, second@, third@, after@),
{
    let mut text: Vec<char> = chars_of(before);
    if text.len() == 0 {
        text = chars_of("Okay, how do these look?");
    }
    append(&mut text, &chars_of("\n\n**Sentence 1**\n"));
    append(&mut text, &chars_of(first));
    append(&mut text, &chars_of("\n\n**Sentence 2**\n"));
    append(&mut text, &chars_of(second));
    append(&mut text, &chars_of("\n\n**Sentence 3**\n"));
    append(&mut text, &chars_of(third));
    append(&mut text, &chars_of(after));
    string_of(&text)
}

/// The pool holds sentences of the list `all`, each once: `origin` says
/// for each place in the pool where in `all` its sentence stands, and
/// none of them stands at a position in `taken`.
spec fn tracks(pool: Seq<String>, all: Seq<String>, origin: Seq<int>, taken: Set<int>) -> bool {
    &&& origin.len() == pool.len()
    &&& forall|j: int|
        0 <= j < pool.len() ==> 0 <= #[trigger] origin[j] < all.len() && pool[j] == all[origin[j]]
            && !taken.contains(origin[j])
    &&& forall|i: int, j: int|
        0 <= i < j < pool.len() ==> #[trigger] origin[i] != #[trigger] origin[j]
}

/// Takes one sentence out of the pool, at random.
fn take_sentence(
    pool: &mut Vec<String>,
    rng: &mut ThreadRng,
    Ghost(all): Ghost<Seq<String>>,
    Ghost(origin): Ghost<Seq<int>>,
    Ghost(taken): Ghost<Set<int>>,
) -> (drawn: (String, Ghost<int>, Ghost<Seq<int>>))
    requires
        old(pool).len() > 0,
        tracks(old(pool)@, all, origin, taken),
    ensures
        final(pool).len() == old(pool).len() - 1,
        0 <= drawn.1@ < all.len(),
        drawn.0 == all[drawn.1@],
        !taken.contains(drawn.1@),
        tracks(final(pool)@, all, drawn.2@, taken.insert(drawn.1@)),
{
    let index: usize = index_below(rng, pool.len());
    let ghost last = pool.len() - 1;
    let ghost from = origin[index as int];
    let ghost rest = origin.update(index as int, origin[last]).drop_last();
    let sentence = pool.swap_remove(index);
    proof {
        assert forall|j: int| 0 <= j < pool.len() implies 0 <= #[trigger] rest[j] < all.len()
            && pool@[j] == all[rest[j]] && !taken.insert(from).contains(rest[j]) by {
            if j == index {
                assert(rest[j] == origin[last]);
            } else {
                assert(rest[j] == origin[j]);
            }
        }
        assert forall|i: int, j: int| 0 <= i < j < pool.len() implies #[trigger] rest[i]
            != #[trigger] rest[j] by {
            let oi = if i == index { last } else { i };
            let oj = if j == index { last } else { j };
            assert(rest[i] == origin[oi] && rest[j] == origin[oj]);
        }
    }
    (sentence, Ghost(from), Ghost(rest))
}

/// Makes sample sentences for the given names and sets.
///
/// Without names and without sets there is nothing to show, and the
/// result says so. Else three of the sentences are drawn, none of them
/// twice, set under their headings between `before` and `after`, and the
/// whole is rendered with the names and sets. The list must hold three
/// sentences at least.
pub fn generate_sentences(
    names: Vec<String>,
    sets: Vec<PronounSet>,
    sentences: Vec<String>,
    before: &str,
    after: &str,
) -> (result: String)
    requires
        names.len() > 0 || sets.len() > 0 ==> sentences.len() >= 3,
    ensures
        names.len() == 0 && sets.len() == 0 ==> result@
            == "Can't make sentences with no names or pronouns :("@,
        names.len() > 0 || sets.len() > 0 ==> exists|
            i: int,
            j: int,
            k: int,
            draws: Seq<usize>,
        |
            {
                &&& 0 <= i < sentences.len() && 0 <= j < sentences.len() && 0 <= k
                    < sentences.len()
                &&& i != j && i != k && j != k
                &&& result@ == #[trigger] rendered(
                    letter(before@, sentences@[i]@, sentences@[j]@, sentences@[k]@, after@),
                    name_texts(names@),
                    set_forms(sets@),
                    draws,
                )
            },
{
    if sets.len() == 0 && names.len() == 0 {
        return "Can't make sentences with no names or pronouns :(".to_owned();
    }
    let ghost all = sentences@;
    let ghost origin = Seq::new(all.len(), |j: int| j);
    let mut pool = sentences;
    let mut rng = rand::thread_rng();
    let (first, Ghost(i), Ghost(origin)) = take_sentence(
        &mut pool,
        &mut rng,
        Ghost(all),
        Ghost(origin),
        Ghost(Set::empty()),
    );
    let (second, Ghost(j), Ghost(origin)) = take_sentence(
        &mut pool,
        &mut rng,
        Ghost(all),
        Ghost(origin),
        Ghost(Set::empty().insert(i)),
    );
    let (third, Ghost(k), Ghost(origin)) = take_sentence(
        &mut pool,
        &mut rng,
        Ghost(all),
        Ghost(origin),
        Ghost(Set::empty().insert(i).insert(j)),
    );
    let text = compose_letter(before, first.as_str(), second.as_str(), third.as_str(), after);
    let result = genderify_text(text.as_str(), names, sets);
    proof {
        let draws = choose|draws: Seq<usize>|
            result@ == rendered(text@, name_texts(names@), set_forms(sets@), draws);
        assert(result@ == rendered(
            letter(before@, all[i]@, all[j]@, all[k]@, after@),
            name_texts(names@),
            set_forms(sets@),
            draws,
        ));
    }
    result
}

} // verus!
