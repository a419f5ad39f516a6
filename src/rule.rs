//! One rule of the list: its labels, its kind and where it comes from.

use vstd::prelude::*;
use vstd::utf8::encode_utf8;

use crate::labels::DOT;
use crate::types::Type;

verus! {

/// How a rule matches.
#[derive(Copy, Clone, Eq, PartialEq, Structural, Hash, Debug)]
pub enum Kind {
    /// The labels themselves (`co.uk`).
    Normal,
    /// Any one label in front of the labels (`*.kawasaki.jp`).
    Wildcard,
    /// Carves the labels out of a wildcard (`!city.kawasaki.jp`): the suffix
    /// is the labels without the leftmost one.
    Exception,
}

/// Why a list could not be built.
#[derive(Copy, Clone, Eq, PartialEq, Structural, Hash, Debug)]
pub enum BuildError {
    /// No rules were given.
    NoRules,
    /// A rule has no labels.
    NoLabels,
    /// A label of a rule is empty or holds a dot.
    BadLabel,
    /// An exception rule has a single label, so that nothing would be left
    /// of it as a suffix.
    BareException,
}

/// One rule: its labels from left to right (the top-level label last), its
/// kind, and the section of the list it comes from. A wildcard rule's `*`
/// and an exception rule's `!` are not among the labels.
#[derive(Debug)]
pub struct Rule {
    pub labels: Vec<String>,
    pub kind: Kind,
    pub origin: Type,
}

/// A rule as bytes.
pub struct RuleModel {
    pub labels: Seq<Seq<u8>>,
    pub kind: Kind,
    pub origin: Type,
}

/// The bytes of a rule's labels.
pub open spec fn model_of(r: Rule) -> RuleModel {
    RuleModel {
        labels: r.labels@.map_values(|s: String| encode_utf8(s@)),
        kind: r.kind,
        origin: r.origin,
    }
}

/// A label is not empty and holds no dot.
pub open spec fn valid_label(l: Seq<u8>) -> bool {
    l.len() > 0 && forall|j: int| 0 <= j < l.len() ==> l[j] != DOT
}

/// What is wrong with a rule, if anything.
pub open spec fn rule_error(r: RuleModel) -> Option<BuildError> {
    if r.labels.len() == 0 {
        Some(BuildError::NoLabels)
    } else if exists|i: int| 0 <= i < r.labels.len() && !valid_label(#[trigger] r.labels[i]) {
        Some(BuildError::BadLabel)
    } else if r.kind == Kind::Exception && r.labels.len() < 2 {
        Some(BuildError::BareException)
    } else {
        None
    }
}

/// The error of the first faulty rule among `rs`, if any.
pub open spec fn first_error(rs: Seq<RuleModel>) -> Option<BuildError>
    decreases rs.len(),
{
    if rs.len() == 0 {
        None
    } else {
        match first_error(rs.drop_last()) {
            Some(e) => Some(e),
            None => rule_error(rs[rs.len() - 1]),
        }
    }
}

/// An error among the first `k` rules is the first error of all of them.
pub proof fn lemma_first_error_prefix(rs: Seq<RuleModel>, k: int)
    requires
        0 <= k <= rs.len(),
        first_error(rs.take(k)) is Some,
    ensures
        first_error(rs) == first_error(rs.take(k)),
    decreases rs.len(),
{
    if k == rs.len() {
        assert(rs.take(k) =~= rs);
    } else {
        assert(rs.drop_last().take(k) =~= rs.take(k));
        lemma_first_error_prefix(rs.drop_last(), k);
    }
}

/// Why a list of `rs` cannot be built: there are none, or one is faulty.
pub open spec fn build_error(rs: Seq<RuleModel>) -> Option<BuildError> {
    if rs.len() == 0 {
        Some(BuildError::NoRules)
    } else {
        first_error(rs)
    }
}

/// The labels joined by dots.
pub open spec fn join(ls: Seq<Seq<u8>>) -> Seq<u8>
    decreases ls.len(),
{
    if ls.len() == 0 {
        Seq::empty()
    } else if ls.len() == 1 {
        ls[0]
    } else {
        join(ls.drop_last()) + seq![DOT] + ls[ls.len() - 1]
    }
}

/// Non-empty labels joined by dots are at least as long as the first label,
/// and one dot and one byte for each further label.
pub proof fn lemma_join_len(ls: Seq<Seq<u8>>)
    requires
        ls.len() > 0,
        forall|i: int| 0 <= i < ls.len() ==> (#[trigger] ls[i]).len() > 0,
    ensures
        join(ls).len() >= ls[0].len() + 2 * (ls.len() - 1),
    decreases ls.len(),
{
    if ls.len() > 1 {
        lemma_join_len(ls.drop_last());
    }
}

/// A dot follows the first of two or more labels joined by dots.
pub proof fn lemma_join_dot_after_first(ls: Seq<Seq<u8>>)
    requires
        ls.len() >= 2,
        forall|i: int| 0 <= i < ls.len() ==> (#[trigger] ls[i]).len() > 0,
    ensures
        join(ls).len() > ls[0].len(),
        join(ls)[ls[0].len() as int] == DOT,
    decreases ls.len(),
{
    lemma_join_len(ls);
    let init = ls.drop_last();
    assert(init[0] == ls[0]);
    if ls.len() > 2 {
        lemma_join_dot_after_first(init);
    } else {
        assert(join(init) == ls[0]);
    }
    assert(join(ls) == join(init) + seq![DOT] + ls[ls.len() - 1]);
}

/// Where no rule is faulty, each rule is sound.
pub proof fn lemma_no_error_each(rs: Seq<RuleModel>)
    requires
        first_error(rs) is None,
    ensures
        forall|i: int| 0 <= i < rs.len() ==> rule_error(#[trigger] rs[i]) is None,
    decreases rs.len(),
{
    if rs.len() > 0 {
        lemma_no_error_each(rs.drop_last());
        assert forall|i: int| 0 <= i < rs.len() implies rule_error(#[trigger] rs[i]) is None by {
            if i < rs.len() - 1 {
                assert(rs[i] == rs.drop_last()[i]);
            }
        }
    }
}

} // verus!
