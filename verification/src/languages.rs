//! The languages the catalog is served in, and the fixed request-limit
//! figures of the surrounding service.

use vstd::prelude::*;

verus! {

/// A language of the quote catalog.
#[derive(Debug, Clone, Copy, PartialEq, Eq, Structural)]
pub enum Language {
    English,
    RomanUrdu,
    Arabic,
}

impl Language {
    /// The IETF tag under which this language is keyed.
    pub fn as_str(&self) -> (r: &'static str)
        ensures
            r@ == self.spec_tag(),
    {
        match self {
            Language::English => "en",
            Language::RomanUrdu => "ur-Latn",
            Language::Arabic => "ar",
        }
    }

    /// The tag of this language, as a sequence of characters.
    pub open spec fn spec_tag(self) -> Seq<char> {
        match self {
            Language::English => "en"@,
            Language::RomanUrdu => "ur-Latn"@,
            Language::Arabic => "ar"@,
        }
    }

    /// The languages that rotation serves each cycle.
    pub fn variants() -> (r: Vec<Language>)
        ensures
            r@ == seq![Language::English, Language::RomanUrdu],
    {
        let mut v: Vec<Language> = Vec::new();
        v.push(Language::English);
        v.push(Language::RomanUrdu);
        proof {
            assert(v@ =~= seq![Language::English, Language::RomanUrdu]);
        }
        v
    }
}

/// Distinct languages are keyed by distinct tags.
pub proof fn lemma_tag_injective(a: Language, b: Language)
    requires
        a != b,
    ensures
        a.spec_tag() != b.spec_tag(),
{
    reveal_strlit("en");
    reveal_strlit("ur-Latn");
    reveal_strlit("ar");
    assert("en"@.len() == 2);
    assert("ur-Latn"@.len() == 7);
    assert("ar"@.len() == 2);
    assert("en"@[0] == 'e');
    assert("ar"@[0] == 'a');
    assert("en"@ != "ur-Latn"@);
    assert("en"@ != "ar"@);
    assert("ur-Latn"@ != "ar"@);
}

/// The per-key quota figures of the service's API limiter.
#[derive(Debug, Clone, Copy, PartialEq, Eq, Structural)]
pub enum APILimit {
    TotalRequest,
    RefillRate,
    RefillInterval,
}

impl APILimit {
    pub fn as_usize(&self) -> (r: usize)
        ensures
            self is TotalRequest ==> r == 4,
            self is RefillRate ==> r == 4,
            self is RefillInterval ==> r == 86400000,
    {
        match self {
            APILimit::TotalRequest => 4,
            APILimit::RefillRate => 4,
            APILimit::RefillInterval => 86400000,
        }
    }
}

/// The per-address request-rate figures of the service.
#[derive(Debug, Clone, Copy, PartialEq, Eq, Structural)]
pub enum RequestLimit {
    RPS,
    BurstSize,
}

impl RequestLimit {
    pub fn as_u64(&self) -> (r: u64)
        ensures
            self is RPS ==> r == 2,
            self is BurstSize ==> r == 3,
    {
        match self {
            RequestLimit::RPS => 2,
            RequestLimit::BurstSize => 3,
        }
    }
}

} // verus!
