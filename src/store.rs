//! The compiled list of rules and the longest-match search over it.

use vstd::prelude::*;

use crate::extract::{registrable_len, Psl};
use crate::labels::{
    ends_at_label, ends_with_exec, last_label_len, last_label_len_exec, lemma_last_label_start,
    no_empty_label, no_empty_label_exec, push_bytes, DOT,
};
use crate::rule::{
    build_error, first_error, join, lemma_first_error_prefix, lemma_join_len, model_of, rule_error,
    valid_label, BuildError, Kind, Rule, RuleModel,
};
use crate::types::{Info, Type};

verus! {

/// The rule's labels are the last labels of `d`; a wildcard needs one more
/// label in front of them.
pub open spec fn rule_matches(r: RuleModel, d: Seq<u8>) -> bool {
    &&& ends_at_label(d, join(r.labels))
    &&& (r.kind == Kind::Wildcard ==> join(r.labels).len() < d.len())
}

/// How many labels of the name a match covers.
pub open spec fn depth(r: RuleModel) -> nat {
    if r.kind == Kind::Wildcard {
        r.labels.len() + 1
    } else {
        r.labels.len()
    }
}

/// `a` prevails over `b`: it covers more labels, or as many and is an
/// exception while `b` is not.
pub open spec fn outranks(a: RuleModel, b: RuleModel) -> bool {
    ||| depth(a) > depth(b)
    ||| (depth(a) == depth(b) && a.kind == Kind::Exception && b.kind != Kind::Exception)
}

/// The prevailing rule among `rules` that match `d`: the first of those that
/// no other outranks.
pub open spec fn prevailing(rules: Seq<RuleModel>, d: Seq<u8>) -> Option<RuleModel>
    decreases rules.len(),
{
    if rules.len() == 0 {
        None
    } else {
        let prev = prevailing(rules.drop_last(), d);
        let r = rules[rules.len() - 1];
        if rule_matches(r, d) && (prev is None || outranks(r, prev->0)) {
            Some(r)
        } else {
            prev
        }
    }
}

/// The prevailing rule matches.
pub proof fn lemma_prevailing_matches(rules: Seq<RuleModel>, d: Seq<u8>)
    ensures
        prevailing(rules, d) matches Some(r) ==> rule_matches(r, d),
    decreases rules.len(),
{
    if rules.len() > 0 {
        lemma_prevailing_matches(rules.drop_last(), d);
    }
}

/// The prevailing rule is one of the rules.
pub proof fn lemma_prevailing_in(rules: Seq<RuleModel>, d: Seq<u8>)
    ensures
        prevailing(rules, d) is Some ==> exists|i: int|
            0 <= i < rules.len() && rules[i] == prevailing(rules, d)->0,
    decreases rules.len(),
{
    if rules.len() > 0 {
        lemma_prevailing_in(rules.drop_last(), d);
        if prevailing(rules, d) != prevailing(rules.drop_last(), d) {
            assert(rules[rules.len() - 1] == prevailing(rules, d)->0);
        } else if prevailing(rules, d) is Some {
            let r = prevailing(rules, d)->0;
            let i = choose|i: int| 0 <= i < rules.len() - 1 && rules.drop_last()[i] == r;
            assert(rules[i] == r);
        }
    }
}

/// The suffix that the matching rule `r` gives `d`.
pub open spec fn rule_info(r: RuleModel, d: Seq<u8>) -> Info {
    let path = join(r.labels);
    let len = match r.kind {
        Kind::Normal => path.len(),
        Kind::Wildcard => registrable_len(d, path.len()),
        Kind::Exception => (path.len() - r.labels[0].len() - 1) as nat,
    };
    Info { len: len as usize, typ: Some(r.origin) }
}

/// The result of a lookup of `d` in `rules`: nothing for a name with an empty
/// label; else what the prevailing rule gives; else, where no rule matches,
/// the last label alone, of no known origin.
pub open spec fn find_in(rules: Seq<RuleModel>, d: Seq<u8>) -> Info {
    if !no_empty_label(d) {
        Info { len: 0, typ: None }
    } else {
        match prevailing(rules, d) {
            Some(r) => rule_info(r, d),
            None => Info { len: last_label_len(d) as usize, typ: None },
        }
    }
}

/// A rule ready for matching: its labels joined by dots.
struct Compiled {
    path: Vec<u8>,
    first: usize,
    count: usize,
    kind: Kind,
    origin: Type,
}

/// `c` is the compiled form of the valid rule `m`.
spec fn compiled_from(c: Compiled, m: RuleModel) -> bool {
    &&& rule_error(m) is None
    &&& c.path@ == join(m.labels)
    &&& c.first == m.labels[0].len()
    &&& c.count == m.labels.len()
    &&& c.kind == m.kind
    &&& c.origin == m.origin
}

/// A list of public suffix rules, built once and read by every lookup.
pub struct List {
    rules: Vec<Compiled>,
    model: Ghost<Seq<RuleModel>>,
}

impl View for List {
    type V = Seq<RuleModel>;

    closed spec fn view(&self) -> Seq<RuleModel> {
        self.model@
    }
}

impl List {
    #[verifier::type_invariant]
    spec fn inv(self) -> bool {
        &&& self.rules@.len() == self.model@.len()
        &&& forall|i: int|
            0 <= i < self.rules@.len() ==> compiled_from(
                #[trigger] self.rules@[i],
                self.model@[i],
            )
    }
}

/// Whether the non-empty labels of `d` end with `c`'s labels.
fn matches_exec(c: &Compiled, d: &[u8], m: Ghost<RuleModel>) -> (r: bool)
    requires
        compiled_from(*c, m@),
        no_empty_label(d@),
    ensures
        r == rule_matches(m@, d@),
{
    let p = c.path.as_slice();
    if !ends_with_exec(d, p) {
        return false;
    }
    if p.len() < d.len() && d[d.len() - p.len() - 1] != DOT {
        return false;
    }
    match c.kind {
        Kind::Wildcard => p.len() < d.len(),
        _ => true,
    }
}

/// Whether `a` prevails over `b`.
fn outranks_exec(a: &Compiled, b: &Compiled, ma: Ghost<RuleModel>, mb: Ghost<RuleModel>) -> (r:
    bool)
    requires
        compiled_from(*a, ma@),
        compiled_from(*b, mb@),
    ensures
        r == outranks(ma@, mb@),
{
    let da: u128 = match a.kind {
        Kind::Wildcard => a.count as u128 + 1,
        _ => a.count as u128,
    };
    let db: u128 = match b.kind {
        Kind::Wildcard => b.count as u128 + 1,
        _ => b.count as u128,
    };
    let ea = match a.kind {
        Kind::Exception => true,
        _ => false,
    };
    let eb = match b.kind {
        Kind::Exception => true,
        _ => false,
    };
    da > db || (da == db && ea && !eb)
}

/// What the matching rule `c` gives `d`.
fn info_exec(c: &Compiled, d: &[u8], m: Ghost<RuleModel>) -> (r: Info)
    requires
        compiled_from(*c, m@),
        rule_matches(m@, d@),
        no_empty_label(d@),
    ensures
        r == rule_info(m@, d@),
{
    let pl = c.path.len();
    match c.kind {
        Kind::Normal => Info { len: pl, typ: Some(c.origin) },
        Kind::Wildcard => {
            let n = d.len();
            let root = last_label_len_exec(d, n - pl - 1);
            proof {
                lemma_last_label_start(d@.subrange(0, n - pl - 1));
            }
            Info { len: root + 1 + pl, typ: Some(c.origin) }
        },
        Kind::Exception => {
            proof {
                assert forall|i: int| 0 <= i < m@.labels.len() implies (
                #[trigger] m@.labels[i]).len() > 0 by {
                    assert(rule_error(m@) is None);
                }
                lemma_join_len(m@.labels);
            }
            Info { len: pl - c.first - 1, typ: Some(c.origin) }
        },
    }
}

/// Whether `l` is a valid label.
fn valid_label_exec(l: &[u8]) -> (r: bool)
    ensures
        r == valid_label(l@),
{
    if l.len() == 0 {
        return false;
    }
    let mut i: usize = 0;
    while i < l.len()
        invariant
            i <= l@.len(),
            forall|j: int| 0 <= j < i ==> l@[j] != DOT,
        decreases l@.len() - i,
    {
        if l[i] == DOT {
            return false;
        }
        i = i + 1;
    }
    true
}

/// Checks `r` and joins its labels.
fn compile(r: &Rule) -> (res: Result<Compiled, BuildError>)
    ensures
        match res {
            Ok(c) => compiled_from(c, model_of(*r)),
            Err(e) => rule_error(model_of(*r)) == Some(e),
        },
{
    let ghost m = model_of(*r);
    let n = r.labels.len();
    if n == 0 {
        return Err(BuildError::NoLabels);
    }
    let mut i: usize = 0;
    while i < n
        invariant
            m == model_of(*r),
            n == m.labels.len(),
            i <= n,
            forall|k: int| 0 <= k < i ==> valid_label(#[trigger] m.labels[k]),
        decreases n - i,
    {
        if !valid_label_exec(r.labels[i].as_str().as_bytes()) {
            assert(!valid_label(m.labels[i as int]));
            return Err(BuildError::BadLabel);
        }
        i = i + 1;
    }
    let bare = match r.kind {
        Kind::Exception => n < 2,
        _ => false,
    };
    if bare {
        return Err(BuildError::BareException);
    }
    let mut path: Vec<u8> = Vec::new();
    let mut i: usize = 0;
    while i < n
        invariant
            m == model_of(*r),
            n == m.labels.len(),
            i <= n,
            path@ == join(m.labels.take(i as int)),
        decreases n - i,
    {
        let ghost before = path@;
        if i > 0 {
            path.push(DOT);
        }
        push_bytes(&mut path, r.labels[i].as_str().as_bytes());
        assert(m.labels.take(i + 1).drop_last() =~= m.labels.take(i as int));
        proof {
            if i == 0 {
                assert(path@ =~= join(m.labels.take(1)));
            } else {
                assert(path@ =~= before + seq![DOT] + m.labels[i as int]);
            }
        }
        i = i + 1;
    }
    assert(m.labels.take(n as int) =~= m.labels);
    let first = r.labels[0].as_str().as_bytes().len();
    Ok(Compiled { path, first, count: n, kind: r.kind, origin: r.origin })
}

impl List {
    /// Compiles `rules` into a list. Fails where there are no rules, or on
    /// the first faulty rule.
    pub fn build(rules: &Vec<Rule>) -> (r: Result<List, BuildError>)
        ensures
            match r {
                Ok(l) => build_error(rules@.map_values(|x: Rule| model_of(x))) is None && l@
                    == rules@.map_values(|x: Rule| model_of(x)),
                Err(e) => build_error(rules@.map_values(|x: Rule| model_of(x))) == Some(e),
            },
    {
        let ghost models = rules@.map_values(|x: Rule| model_of(x));
        let n = rules.len();
        if n == 0 {
            return Err(BuildError::NoRules);
        }
        let mut compiled: Vec<Compiled> = Vec::new();
        let mut i: usize = 0;
        while i < n
            invariant
                models == rules@.map_values(|x: Rule| model_of(x)),
                n == rules@.len(),
                i <= n,
                compiled@.len() == i,
                forall|k: int| 0 <= k < i ==> compiled_from(#[trigger] compiled@[k], models[k]),
                first_error(models.take(i as int)) is None,
            decreases n - i,
        {
            assert(models.take(i + 1).drop_last() =~= models.take(i as int));
            match compile(&rules[i]) {
                Err(e) => {
                    proof {
                        lemma_first_error_prefix(models, i as int + 1);
                    }
                    return Err(e);
                },
                Ok(c) => {
                    compiled.push(c);
                },
            }
            i = i + 1;
        }
        assert(models.take(n as int) =~= models);
        Ok(List { rules: compiled, model: Ghost(models) })
    }
}

impl Psl for List {
    open spec fn find_spec(&self, d: Seq<u8>) -> Info {
        find_in(self@, d)
    }

    fn find(&self, domain: &str) -> (r: Info) {
        proof {
            use_type_invariant(self);
        }
        let d = domain.as_bytes();
        if !no_empty_label_exec(d) {
            return Info { len: 0, typ: None };
        }
        let ghost rules = self@;
        let mut best: Option<usize> = None;
        let mut i: usize = 0;
        while i < self.rules.len()
            invariant
                rules == self@,
                no_empty_label(d@),
                i <= self.rules@.len(),
                self.rules@.len() == rules.len(),
                forall|k: int|
                    0 <= k < self.rules@.len() ==> compiled_from(#[trigger] self.rules@[k], rules[k]),
                best matches Some(j) ==> j < i && prevailing(rules.take(i as int), d@) == Some(
                    rules[j as int],
                ),
                best is None ==> prevailing(rules.take(i as int), d@) is None,
            decreases self.rules@.len() - i,
        {
            assert(rules.take(i + 1).drop_last() =~= rules.take(i as int));
            let c = &self.rules[i];
            if matches_exec(c, d, Ghost(rules[i as int])) {
                let prevails = match best {
                    None => true,
                    Some(j) => outranks_exec(c, &self.rules[j], Ghost(rules[i as int]), Ghost(rules[j as int])),
                };
                if prevails {
                    best = Some(i);
                }
            }
            i = i + 1;
        }
        assert(rules.take(i as int) =~= rules);
        proof {
            lemma_prevailing_matches(rules, d@);
            assert(d@.subrange(0, d@.len() as int) =~= d@);
        }
        match best {
            None => Info { len: last_label_len_exec(d, d.len()), typ: None },
            Some(j) => info_exec(&self.rules[j], d, Ghost(rules[j as int])),
        }
    }
}

} // verus!
