//! What holds of every lookup.

use vstd::prelude::*;
use vstd::string::StringSliceAdditionalSpecFns;
use vstd::utf8::{encode_utf8_valid_utf8, valid_utf8};

use crate::extract::{has_root, registrable_len, root_len, suffix_found};
use crate::labels::{
    dot_count, ends_with, last_label_len, lemma_boundary_after_ascii, lemma_last_label_start,
    no_empty_label, tail, DOT,
};
use crate::rule::{
    build_error, join, lemma_join_dot_after_first, lemma_join_len, lemma_no_error_each,
    rule_error, Kind, RuleModel,
};
use crate::store::{find_in, lemma_prevailing_in, lemma_prevailing_matches, prevailing};
use crate::types::Info;

verus! {

/// A lookup in a list of sound rules reports a suffix that fits in the name
/// and starts on a character boundary, and reports none only for a name with
/// an empty label.
proof fn lemma_find_fits(rules: Seq<RuleModel>, d: Seq<u8>)
    requires
        build_error(rules) is None,
        valid_utf8(d),
        d.len() <= usize::MAX,
    ensures
        find_in(rules, d).len <= d.len(),
        find_in(rules, d).len == 0 <==> !no_empty_label(d),
        find_in(rules, d).len > 0 ==> suffix_found(d, find_in(rules, d)),
{
    if no_empty_label(d) {
        let n = d.len() as int;
        lemma_no_error_each(rules);
        lemma_prevailing_in(rules, d);
        lemma_prevailing_matches(rules, d);
        match prevailing(rules, d) {
            None => {
                lemma_last_label_start(d);
                let k = last_label_len(d) as int;
                assert(k > 0);
                if k < n {
                    lemma_boundary_after_ascii(d, n - k);
                }
            },
            Some(r) => {
                assert(rule_error(r) is None);
                let path = join(r.labels);
                assert forall|i: int| 0 <= i < r.labels.len() implies (
                #[trigger] r.labels[i]).len() > 0 by {}
                lemma_join_len(r.labels);
                let pl = path.len() as int;
                match r.kind {
                    Kind::Normal => {
                        if pl < n {
                            lemma_boundary_after_ascii(d, n - pl);
                        }
                    },
                    Kind::Wildcard => {
                        let p = d.subrange(0, n - pl - 1);
                        lemma_last_label_start(p);
                        let k = last_label_len(p) as int;
                        assert(p[p.len() - 1] != DOT);
                        if k < p.len() {
                            assert(d[n - pl - 1 - k - 1] == p[p.len() - k - 1]);
                            lemma_boundary_after_ascii(d, n - pl - 1 - k);
                        }
                    },
                    Kind::Exception => {
                        lemma_join_dot_after_first(r.labels);
                        let f = r.labels[0].len() as int;
                        assert(d.subrange(n - pl, n) == path);
                        assert(d[n - pl + f] == path[f]);
                        lemma_boundary_after_ascii(d, n - pl + f + 1);
                    },
                }
            },
        }
    }
}

/// For every list that was built and every name, `suffix` finds nothing
/// exactly where `find` reports a suffix of length zero.
pub proof fn law_suffix_none_iff_empty_match(rules: Seq<RuleModel>, domain: &str)
    requires
        build_error(rules) is None,
        domain.spec_bytes().len() <= usize::MAX,
    ensures
        !suffix_found(domain.spec_bytes(), find_in(rules, domain.spec_bytes())) <==> find_in(
            rules,
            domain.spec_bytes(),
        ).len == 0,
{
    broadcast use encode_utf8_valid_utf8;

    lemma_find_fits(rules, domain.spec_bytes());
}

/// A registrable domain ends with its suffix and has exactly one label more:
/// one dot more.
pub proof fn law_domain_one_label_longer(d: Seq<u8>, s: nat)
    requires
        has_root(d, s),
    ensures
        ends_with(tail(d, registrable_len(d, s)), tail(d, s)),
        dot_count(tail(d, registrable_len(d, s))) == dot_count(tail(d, s)) + 1,
{
    let n = d.len() as int;
    let k = root_len(d, s) as int;
    let p = d.subrange(0, n - s - 1);
    lemma_last_label_start(p);
    let whole = tail(d, registrable_len(d, s));
    let suf = tail(d, s);
    let root = d.subrange(n - s - 1 - k, n - s - 1);
    assert(whole =~= root + seq![DOT] + suf);
    assert(tail(whole, s) =~= suf);
    lemma_no_dot_in_last_label(p);
    assert(root =~= p.subrange(p.len() - k, p.len() as int));
    assert(dot_count(root) == 0);
    assert(seq![DOT].drop_last() =~= Seq::<u8>::empty());
    assert(dot_count(Seq::<u8>::empty()) == 0);
    assert(seq![DOT][0] == DOT);
    assert(dot_count(seq![DOT]) == 1);
    lemma_dot_count_concat(root, seq![DOT]);
    lemma_dot_count_concat(root + seq![DOT], suf);
}

/// Two lookups of the same name in the same list report the same match.
pub proof fn law_find_idempotent(rules: Seq<RuleModel>, d: Seq<u8>, first: Info, second: Info)
    requires
        first == find_in(rules, d),
        second == find_in(rules, d),
    ensures
        first == second,
{
}

/// The last label of `p` holds no dot.
proof fn lemma_no_dot_in_last_label(p: Seq<u8>)
    ensures
        dot_count(p.subrange(p.len() - last_label_len(p), p.len() as int)) == 0,
    decreases p.len(),
{
    if p.len() > 0 && p[p.len() - 1] != DOT {
        let q = p.drop_last();
        lemma_no_dot_in_last_label(q);
        lemma_last_label_start(q);
        let lab = p.subrange(p.len() - last_label_len(p), p.len() as int);
        assert(lab.drop_last() =~= q.subrange(q.len() - last_label_len(q), q.len() as int));
    } else {
        assert(p.subrange(p.len() - last_label_len(p), p.len() as int).len() == 0);
    }
}

/// Dots of two pieces add up.
proof fn lemma_dot_count_concat(a: Seq<u8>, b: Seq<u8>)
    ensures
        dot_count(a + b) == dot_count(a) + dot_count(b),
    decreases b.len(),
{
    if b.len() == 0 {
        assert(a + b =~= a);
    } else {
        assert((a + b).drop_last() =~= a + b.drop_last());
        lemma_dot_count_concat(a, b.drop_last());
    }
}

} // verus!
