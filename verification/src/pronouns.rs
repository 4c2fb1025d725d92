//! Pronoun sets: the five grammatical forms of a pronoun and its number.

use vstd::prelude::*;
use crate::text::{chars_of, string_of};

verus! {

/// One person's pronouns: five forms and the grammatical number.
#[derive(Clone, Debug, PartialEq, Eq)]
pub struct PronounSet {
    /// As in "*they* went".
    pub subjective: String,
    /// As in "I saw *them*".
    pub objective: String,
    /// As in "*their* book".
    pub possessive: String,
    /// The independent possessive, as in "the book is *theirs*".
    pub possessive2: String,
    /// As in "they saw *themself*".
    pub reflexive: String,
    /// Whether verbs and affixes agree with the set in the plural.
    pub plural: bool,
}

/// What a pronoun set holds, as texts.
pub struct PronounForms {
    pub subjective: Seq<char>,
    pub objective: Seq<char>,
    pub possessive: Seq<char>,
    pub possessive2: Seq<char>,
    pub reflexive: Seq<char>,
    pub plural: bool,
}

impl PronounForms {
    /// All five forms are there: none is empty.
    pub open spec fn populated(self) -> bool {
        &&& self.subjective.len() > 0
        &&& self.objective.len() > 0
        &&& self.possessive.len() > 0
        &&& self.possessive2.len() > 0
        &&& self.reflexive.len() > 0
    }
}

impl View for PronounSet {
    type V = PronounForms;

    open spec fn view(&self) -> PronounForms {
        PronounForms {
            subjective: self.subjective@,
            objective: self.objective@,
            possessive: self.possessive@,
            possessive2: self.possessive2@,
            reflexive: self.reflexive@,
            plural: self.plural,
        }
    }
}

/// The set he/him.
pub open spec fn he_him() -> PronounForms {
    PronounForms {
        subjective: "he"@,
        objective: "him"@,
        possessive: "his"@,
        possessive2: "his"@,
        reflexive: "himself"@,
        plural: false,
    }
}

/// The set she/her.
pub open spec fn she_her() -> PronounForms {
    PronounForms {
        subjective: "she"@,
        objective: "her"@,
        possessive: "her"@,
        possessive2: "hers"@,
        reflexive: "herself"@,
        plural: false,
    }
}

/// The set they/them, the one canonical set that is plural.
pub open spec fn they_them() -> PronounForms {
    PronounForms {
        subjective: "they"@,
        objective: "them"@,
        possessive: "their"@,
        possessive2: "theirs"@,
        reflexive: "themself"@,
        plural: true,
    }
}

/// The set it/it.
pub open spec fn it_it() -> PronounForms {
    PronounForms {
        subjective: "it"@,
        objective: "it"@,
        possessive: "its"@,
        possessive2: "its"@,
        reflexive: "itself"@,
        plural: false,
    }
}

/// The second possessive that belongs to a possessive: the possessive
/// itself where it ends in `s` or `z`, else the possessive with an `s`.
pub open spec fn second_possessive_of(first: Seq<char>) -> Seq<char> {
    if first.len() > 0 && (first.last() == 's' || first.last() == 'z') {
        first
    } else {
        first.push('s')
    }
}

/// Derives the second possessive from a possessive, as a text.
pub fn derive_second_possessive(first: &Vec<char>) -> (second: Vec<char>)
    ensures
        second@ == second_possessive_of(first@),
{
    let mut second: Vec<char> = first.clone();
    let n: usize = first.len();
    if !(n > 0 && (first[n - 1] == 's' || first[n - 1] == 'z')) {
        second.push('s');
    }
    second
}

/// Derives the second possessive from a possessive: "her" gives "hers",
/// "his" stays "his".
pub fn second_possessive(first: &str) -> (second: String)
    ensures
        second@ == second_possessive_of(first@),
{
    let first = chars_of(first);
    string_of(&derive_second_possessive(&first))
}

impl PronounSet {
    /// The set made of the given forms.
    pub fn of_texts(
        subjective: &Vec<char>,
        objective: &Vec<char>,
        possessive: &Vec<char>,
        possessive2: &Vec<char>,
        reflexive: &Vec<char>,
        plural: bool,
    ) -> (set: PronounSet)
        ensures
            set@ == (PronounForms {
                subjective: subjective@,
                objective: objective@,
                possessive: possessive@,
                possessive2: possessive2@,
                reflexive: reflexive@,
                plural,
            }),
    {
        PronounSet {
            subjective: string_of(subjective),
            objective: string_of(objective),
            possessive: string_of(possessive),
            possessive2: string_of(possessive2),
            reflexive: string_of(reflexive),
            plural,
        }
    }

    /// The canonical set he/him.
    pub fn he_him() -> (set: PronounSet)
        ensures
            set@ == he_him(),
    {
        PronounSet {
            subjective: "he".to_owned(),
            objective: "him".to_owned(),
            possessive: "his".to_owned(),
            possessive2: "his".to_owned(),
            reflexive: "himself".to_owned(),
            plural: false,
        }
    }

    /// The canonical set she/her.
    pub fn she_her() -> (set: PronounSet)
        ensures
            set@ == she_her(),
    {
        PronounSet {
            subjective: "she".to_owned(),
            objective: "her".to_owned(),
            possessive: "her".to_owned(),
            possessive2: "hers".to_owned(),
            reflexive: "herself".to_owned(),
            plural: false,
        }
    }

    /// The canonical set they/them.
    pub fn they_them() -> (set: PronounSet)
        ensures
            set@ == they_them(),
    {
        PronounSet {
            subjective: "they".to_owned(),
            objective: "them".to_owned(),
            possessive: "their".to_owned(),
            possessive2: "theirs".to_owned(),
            reflexive: "themself".to_owned(),
            plural: true,
        }
    }

    /// The canonical set it/it.
    pub fn it_it() -> (set: PronounSet)
        ensures
            set@ == it_it(),
    {
        PronounSet {
            subjective: "it".to_owned(),
            objective: "it".to_owned(),
            possessive: "its".to_owned(),
            possessive2: "its".to_owned(),
            reflexive: "itself".to_owned(),
            plural: false,
        }
    }
}

/// A second possessive ends in `s` or `z`, so deriving from it again
/// changes nothing.
pub proof fn lemma_second_possessive_settles(first: Seq<char>)
    ensures
        second_possessive_of(first).len() > 0,
        second_possessive_of(first).last() == 's' || second_possessive_of(first).last() == 'z',
        second_possessive_of(second_possessive_of(first)) == second_possessive_of(first),
{
}

} // verus!
