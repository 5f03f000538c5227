//! Rules: which target id a block name is turned into.
//!
//! A rule pairs a glob pattern with a target id. Every rule's pattern is put to
//! the matcher, and the first rule, in the order given, that the matcher says
//! yes to wins. Air is never turned into anything, whatever the rules say.
//! Matching itself is the work of `glob_match`; what is taken on trust about it
//! is declared here.

use vstd::prelude::*;
use vstd::string::StringExecFns;
use vstd::utf8::encode_utf8;

verus! {

/// A pattern for block names and the target id for the names it matches.
#[derive(Clone, Debug, PartialEq, Eq)]
pub struct Rule {
    pub pattern: String,
    pub target: u16,
}

impl Rule {
    pub fn new(pattern: String, target: u16) -> (rule: Rule)
        ensures
            rule.pattern == pattern,
            rule.target == target,
    {
        Rule { pattern, target }
    }
}

/// The name of air, the block that never reaches the output.
pub open spec fn air() -> Seq<char> {
    "minecraft:air"@
}

/// Whether `glob_match::glob_match` finds that `pattern` matches `text`, for a
/// text that is portable.
pub uninterp spec fn glob_match_of(pattern: Seq<char>, text: Seq<char>) -> bool;

/// Whether a name can be handed to the matcher, which counts positions in 32
/// bits: its encoding is shorter than the largest 32-bit number. A longer name
/// matches no rule.
pub open spec fn fits_matcher(text: Seq<char>) -> bool {
    encode_utf8(text).len() < u32::MAX
}

/// Whether the matcher reads a name in the same way on every platform: the
/// name holds no backslash. The matcher reads a name as a path, and a backslash
/// is a separator on some platforms and an ordinary character on others.
pub open spec fn portable(text: Seq<char>) -> bool {
    forall|i: int| 0 <= i < encode_utf8(text).len() ==> encode_utf8(text)[i] != 0x5c
}

/// Calls `glob_match::glob_match`.
///
/// Claimed: for a portable text the answer depends on the pattern and the text
/// alone. Of the answer for any other text nothing is claimed. Left out: a text
/// of `u32::MAX` bytes or more, on which the matcher adds one to a 32-bit
/// position.
#[verifier::external_body]
fn glob_matches(pattern: &str, text: &str) -> (matched: bool)
    requires
        fits_matcher(text@),
    ensures
        portable(text@) ==> matched == glob_match_of(pattern@, text@),
{
    glob_match::glob_match(pattern, text)
}

/// Whether `answers` can be what the matcher says of `name` under the pattern
/// of each rule in turn: for a portable name they are what the matcher finds,
/// for any other name they can be anything.
pub open spec fn answers_for(rules: Seq<Rule>, name: Seq<char>, answers: Seq<bool>) -> bool {
    &&& answers.len() == rules.len()
    &&& portable(name) ==> forall|j: int|
        0 <= j < rules.len() ==> #[trigger] answers[j] == glob_match_of(rules[j].pattern@, name)
}

/// Whether answer `j` is the first yes among `answers`, and has a rule.
pub open spec fn leads(rules: Seq<Rule>, answers: Seq<bool>, j: int) -> bool {
    &&& 0 <= j < rules.len()
    &&& j < answers.len()
    &&& answers[j]
    &&& forall|k: int| 0 <= k < j ==> !#[trigger] answers[k]
}

/// The target id of the first rule that the matcher said yes to, if it said yes
/// to any.
pub open spec fn first_yes(rules: Seq<Rule>, answers: Seq<bool>) -> Option<u16> {
    if exists|j: int| leads(rules, answers, j) {
        Some(rules[choose|j: int| leads(rules, answers, j)].target)
    } else {
        None
    }
}

/// The target id that `rules` give a block name, given the matcher's answers:
/// none for air and for a name that does not fit the matcher, else that of the
/// first rule that the matcher said yes to.
pub open spec fn target_given(rules: Seq<Rule>, name: Seq<char>, answers: Seq<bool>) -> Option<
    u16,
> {
    if name == air() || !fits_matcher(name) {
        None
    } else {
        first_yes(rules, answers)
    }
}

/// Whether `target` is a target id that `rules` can give a block name: the one
/// that follows from some answers that the matcher can give.
pub open spec fn allowed(rules: Seq<Rule>, name: Seq<char>, target: Option<u16>) -> bool {
    exists|answers: Seq<bool>| #[trigger]
        answers_for(rules, name, answers) && target == target_given(rules, name, answers)
}

/// What the matcher finds of a portable name under the pattern of each rule.
pub open spec fn found(rules: Seq<Rule>, name: Seq<char>) -> Seq<bool> {
    Seq::new(rules.len(), |j: int| glob_match_of(rules[j].pattern@, name))
}

/// The target id that `rules` give a portable block name: none for air and for
/// a name that does not fit the matcher, else that of the first rule whose
/// pattern matches the name, and none where no pattern does.
pub open spec fn target_of(rules: Seq<Rule>, name: Seq<char>) -> Option<u16> {
    target_given(rules, name, found(rules, name))
}

/// At most one answer leads.
pub proof fn lemma_one_leader(rules: Seq<Rule>, answers: Seq<bool>, i: int, j: int)
    requires
        leads(rules, answers, i),
        leads(rules, answers, j),
    ensures
        i == j,
{
    if i < j {
        assert(!answers[i]);
    }
    if j < i {
        assert(!answers[j]);
    }
}

/// For a portable name the first matching rule wins: the only target id that
/// the rules can give it is that of the first rule whose pattern matches.
pub proof fn law_first_match_wins(rules: Seq<Rule>, name: Seq<char>, target: Option<u16>)
    requires
        portable(name),
    ensures
        allowed(rules, name, target) <==> target == target_of(rules, name),
{
    if allowed(rules, name, target) {
        let answers = choose|answers: Seq<bool>| #[trigger]
            answers_for(rules, name, answers) && target == target_given(rules, name, answers);
        assert(answers =~= found(rules, name));
    }
    assert(answers_for(rules, name, found(rules, name)));
}

/// Every name has a target id that the rules can give it.
pub proof fn lemma_some_target(rules: Seq<Rule>, name: Seq<char>)
    ensures
        exists|answers: Seq<bool>| #[trigger] answers_for(rules, name, answers),
        allowed(rules, name, target_of(rules, name)),
{
    assert(answers_for(rules, name, found(rules, name)));
}

/// Whether a name can be handed to the matcher.
pub fn fits(name: &str) -> (ok: bool)
    ensures
        ok == fits_matcher(name@),
{
    name.as_bytes().len() < 0xffff_ffff
}

/// What the matcher says of `name` under the pattern of each rule in turn.
fn ask_all(rules: &Vec<Rule>, name: &str) -> (answers: Vec<bool>)
    requires
        fits_matcher(name@),
    ensures
        answers_for(rules@, name@, answers@),
{
    let mut answers: Vec<bool> = Vec::new();
    let mut j: usize = 0;
    while j < rules.len()
        invariant
            j <= rules@.len(),
            fits_matcher(name@),
            answers@.len() == j,
            portable(name@) ==> forall|k: int|
                0 <= k < j ==> #[trigger] answers@[k] == glob_match_of(rules@[k].pattern@, name@),
        decreases rules@.len() - j,
    {
        let matched: bool = glob_matches(rules[j].pattern.as_str(), name);
        answers.push(matched);
        j = j + 1;
    }
    answers
}

/// The target id of the first rule that has a yes among `answers`, where
/// `answers[j]` is the matcher's answer for rule `j`. Answers without a rule and
/// rules without an answer count for nothing.
pub fn pick_first(rules: &Vec<Rule>, answers: &Vec<bool>) -> (target: Option<u16>)
    ensures
        target == first_yes(rules@, answers@),
{
    let mut j: usize = 0;
    while j < rules.len() && j < answers.len()
        invariant
            j <= rules@.len(),
            j <= answers@.len(),
            forall|k: int| 0 <= k < j ==> !#[trigger] answers@[k],
        decreases rules@.len() - j,
    {
        if answers[j] {
            proof {
                assert(leads(rules@, answers@, j as int));
                let w = choose|w: int| leads(rules@, answers@, w);
                lemma_one_leader(rules@, answers@, w, j as int);
            }
            return Some(rules[j].target);
        }
        j = j + 1;
    }
    proof {
        assert forall|w: int| !leads(rules@, answers@, w) by {
            if 0 <= w < rules@.len() && w < answers@.len() {
                assert(!answers@[w]);
            }
        }
    }
    None
}

/// The target id that `rules` give the block name `name`.
pub fn resolve(rules: &Vec<Rule>, name: &String) -> (target: Option<u16>)
    ensures
        allowed(rules@, name@, target),
        portable(name@) ==> target == target_of(rules@, name@),
{
    proof {
        lemma_some_target(rules@, name@);
    }
    let air_name = String::from_str("minecraft:air");
    if *name == air_name {
        proof {
            assert(answers_for(rules@, name@, found(rules@, name@)));
        }
        return None;
    }
    if !fits(name.as_str()) {
        proof {
            assert(answers_for(rules@, name@, found(rules@, name@)));
        }
        return None;
    }
    let answers = ask_all(rules, name.as_str());
    let target = pick_first(rules, &answers);
    proof {
        assert(answers_for(rules@, name@, answers@));
        assert(target == target_given(rules@, name@, answers@));
        if portable(name@) {
            law_first_match_wins(rules@, name@, target);
        }
    }
    target
}

} // verus!
