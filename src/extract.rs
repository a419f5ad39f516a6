//! From a match to the borrowed views: the suffix at the end of the name, and
//! the registrable domain that is one label longer.

use vstd::prelude::*;
use vstd::string::StringSliceAdditionalSpecFns;
use vstd::utf8::{encode_utf8_valid_utf8, is_char_boundary, valid_utf8};

use crate::labels::{
    ends_with, ends_with_exec, last_label_len, last_label_len_exec, lemma_boundary_after_ascii,
    lemma_last_label_start, tail, DOT,
};
use crate::types::{Domain, Info, Suffix};

verus! {

/// A match of `info` gives a suffix of `d`: it is not empty, fits in `d`,
/// and starts on a character boundary.
pub open spec fn suffix_found(d: Seq<u8>, info: Info) -> bool {
    0 < info.len <= d.len() && is_char_boundary(d, d.len() - info.len)
}

/// Byte length of the label in front of the last `s` bytes of `d` and the dot
/// that separates them.
pub open spec fn root_len(d: Seq<u8>, s: nat) -> nat {
    last_label_len(d.subrange(0, d.len() - s - 1))
}

/// In front of the last `s` bytes of `d` stand a dot and a non-empty label.
pub open spec fn has_root(d: Seq<u8>, s: nat) -> bool {
    &&& s + 2 <= d.len()
    &&& d[d.len() - s - 1] == DOT
    &&& root_len(d, s) > 0
}

/// Byte length of the registrable domain whose suffix is the last `s` bytes.
pub open spec fn registrable_len(d: Seq<u8>, s: nat) -> nat {
    root_len(d, s) + 1 + s
}

/// The suffix that the match `info` gives in `domain`: `None` where the
/// match is empty, longer than the name, or would split a character.
pub fn suffix_from_info<'a>(domain: &'a str, info: Info) -> (r: Option<Suffix<'a>>)
    ensures
        r.is_some() == suffix_found(domain.spec_bytes(), info),
        r matches Some(s) ==> s.text() == tail(domain.spec_bytes(), info.len as nat) && s.kind()
            == info.typ,
{
    let b = domain.as_bytes();
    let n = b.len();
    if info.len == 0 || info.len > n {
        return None;
    }
    let off = n - info.len;
    if !domain.is_char_boundary(off) {
        return None;
    }
    let (_, t) = domain.split_at(off);
    Some(Suffix::new(t, info.typ))
}

/// The registrable domain of `domain` over the suffix `suf`: `None` where
/// `suf` does not stand at the end of `domain`, or no non-empty label stands
/// in front of it.
pub fn domain_from_suffix<'a>(domain: &'a str, suf: Suffix<'a>) -> (r: Option<Domain<'a>>)
    ensures
        r.is_some() == (ends_with(domain.spec_bytes(), suf.text()) && has_root(
            domain.spec_bytes(),
            suf.text().len(),
        )),
        r matches Some(x) ==> x.text() == tail(
            domain.spec_bytes(),
            registrable_len(domain.spec_bytes(), suf.text().len()),
        ) && x.suffix_of() == suf,
{
    let ghost d = domain.spec_bytes();
    let b = domain.as_bytes();
    let sb = suf.as_str().as_bytes();
    if !ends_with_exec(b, sb) {
        return None;
    }
    let n = b.len();
    let s = sb.len();
    if n - s < 2 || b[n - s - 1] != DOT {
        return None;
    }
    let root = last_label_len_exec(b, n - s - 1);
    if root == 0 {
        return None;
    }
    let ghost p = d.subrange(0, d.len() - s - 1);
    proof {
        lemma_last_label_start(p);
    }
    let off = n - s - 1 - root;
    proof {
        broadcast use encode_utf8_valid_utf8;

        assert(valid_utf8(d));
        if off > 0 {
            assert(d[off - 1] == p[p.len() - root - 1]);
            lemma_boundary_after_ascii(d, off as int);
        }
    }
    let (_, t) = domain.split_at(off);
    Some(Domain::new(t, suf))
}

/// A list of public suffixes, searched through `find`.
pub trait Psl {
    /// What `find` reports for the bytes of a name.
    spec fn find_spec(&self, d: Seq<u8>) -> Info;

    /// Finds the suffix of `domain`, which is lowercase and normalised.
    fn find(&self, domain: &str) -> (r: Info)
        ensures
            r == self.find_spec(domain.spec_bytes()),
    ;

    /// The public suffix of `domain`, which is lowercase and normalised.
    fn suffix<'a>(&self, domain: &'a str) -> (r: Option<Suffix<'a>>)
        ensures
            r.is_some() == suffix_found(domain.spec_bytes(), self.find_spec(domain.spec_bytes())),
            r matches Some(s) ==> s.text() == tail(
                domain.spec_bytes(),
                self.find_spec(domain.spec_bytes()).len as nat,
            ) && s.kind() == self.find_spec(domain.spec_bytes()).typ,
    {
        suffix_from_info(domain, self.find(domain))
    }

    /// The registrable domain of `domain`, which is lowercase and normalised.
    fn domain<'a>(&self, domain: &'a str) -> (r: Option<Domain<'a>>)
        ensures
            r.is_some() == (suffix_found(domain.spec_bytes(), self.find_spec(domain.spec_bytes()))
                && has_root(domain.spec_bytes(), self.find_spec(domain.spec_bytes()).len as nat)),
            r matches Some(x) ==> {
                let d = domain.spec_bytes();
                let info = self.find_spec(d);
                &&& x.text() == tail(d, registrable_len(d, info.len as nat))
                &&& x.suffix_of().text() == tail(d, info.len as nat)
                &&& x.suffix_of().kind() == info.typ
            },
    {
        match self.suffix(domain) {
            None => None,
            Some(s) => domain_from_suffix(domain, s),
        }
    }
}

} // verus!
