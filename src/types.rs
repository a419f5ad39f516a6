//! The results of a lookup: the kind of a suffix, the raw match, and the
//! borrowed views of a suffix and of a registrable domain.

use vstd::prelude::*;
use vstd::string::StringSliceAdditionalSpecFns;
use vstd::utf8::encode_utf8;

verus! {

/// Where a suffix comes from.
#[derive(Copy, Clone, Eq, PartialEq, Structural, Ord, PartialOrd, Hash, Debug)]
pub enum Type {
    /// The ICANN-managed section of the list.
    Icann,
    /// The section contributed by private organisations.
    Private,
}

impl Default for Type {
    fn default() -> (r: Self)
        ensures
            r == Type::Icann,
    {
        Type::Icann
    }
}

/// What a lookup found: the byte length of the suffix at the end of the
/// input, and where the rule that decided it comes from. `len == 0` means
/// that no suffix was found.
#[derive(Copy, Clone, Eq, PartialEq, Structural, Ord, PartialOrd, Hash, Debug)]
pub struct Info {
    pub len: usize,
    pub typ: Option<Type>,
}

/// The suffix of a domain name: a trailing part of the name that was looked
/// up, and where it comes from.
#[derive(Copy, Clone, Eq, PartialEq, Ord, PartialOrd, Hash, Debug)]
pub struct Suffix<'a> {
    str: &'a str,
    typ: Option<Type>,
}

/// A registrable domain: the suffix with one label in front of it.
#[derive(Copy, Clone, Eq, PartialEq, Ord, PartialOrd, Hash, Debug)]
pub struct Domain<'a> {
    str: &'a str,
    suf: Suffix<'a>,
}

impl<'a> Suffix<'a> {
    /// The bytes of the suffix.
    pub closed spec fn text(&self) -> Seq<u8> {
        self.str.spec_bytes()
    }

    /// Where the suffix comes from.
    pub closed spec fn kind(&self) -> Option<Type> {
        self.typ
    }

    pub(crate) fn new(str: &'a str, typ: Option<Type>) -> (r: Self)
        ensures
            r.text() == str.spec_bytes(),
            r.kind() == typ,
    {
        Suffix { str, typ }
    }

    pub fn as_str(&self) -> (r: &str)
        ensures
            r.spec_bytes() == self.text(),
    {
        self.str
    }

    pub fn typ(&self) -> (r: Option<Type>)
        ensures
            r == self.kind(),
    {
        self.typ
    }

    /// Whether a rule of the list decided the suffix.
    pub fn is_known(&self) -> (r: bool)
        ensures
            r == self.kind().is_some(),
    {
        self.typ.is_some()
    }

    /// An owned copy of the suffix's text.
    pub fn to_string(&self) -> (r: String)
        ensures
            encode_utf8(r@) == self.text(),
    {
        self.str.to_owned()
    }
}

impl<'a> Domain<'a> {
    /// The bytes of the registrable domain.
    pub closed spec fn text(&self) -> Seq<u8> {
        self.str.spec_bytes()
    }

    /// The suffix of the registrable domain.
    pub closed spec fn suffix_of(&self) -> Suffix<'a> {
        self.suf
    }

    pub(crate) fn new(str: &'a str, suf: Suffix<'a>) -> (r: Self)
        ensures
            r.text() == str.spec_bytes(),
            r.suffix_of() == suf,
    {
        Domain { str, suf }
    }

    pub fn as_str(&self) -> (r: &str)
        ensures
            r.spec_bytes() == self.text(),
    {
        self.str
    }

    pub fn suffix(&self) -> (r: Suffix<'a>)
        ensures
            r == self.suffix_of(),
    {
        self.suf
    }

    /// An owned copy of the registrable domain's text.
    pub fn to_string(&self) -> (r: String)
        ensures
            encode_utf8(r@) == self.text(),
    {
        self.str.to_owned()
    }
}

} // verus!
