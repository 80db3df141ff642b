//! The data the catalog serves: quotes and their mathematical content.

use vstd::prelude::*;

verus! {

/// The mathematical content of a quote: what contracts speak about.
pub struct QuoteModel {
    pub id: int,
    pub content: Seq<char>,
    pub author: Seq<char>,
    pub reference: Seq<char>,
    pub language: Seq<char>,
}

impl QuoteModel {
    /// The sizes every quote this library handles respects: a
    /// non-negative catalog id and fields short enough for the
    /// fixed-width payload header.
    pub open spec fn wf(self) -> bool {
        &&& 0 <= self.id <= 0x7FFF_FFFF
        &&& self.content.len() < 100_000_000
        &&& self.author.len() < 100_000_000
        &&& self.reference.len() < 100_000_000
        &&& self.language.len() < 100_000_000
    }
}

/// A quote as served to callers, joined from the catalog.
#[derive(Debug, Clone, PartialEq, Eq)]
pub struct ResponseQuote {
    pub id: i32,
    pub content: String,
    pub author: String,
    pub reference: String,
    pub language: String,
}

impl View for ResponseQuote {
    type V = QuoteModel;

    open spec fn view(&self) -> QuoteModel {
        QuoteModel {
            id: self.id as int,
            content: self.content@,
            author: self.author@,
            reference: self.reference@,
            language: self.language@,
        }
    }
}

impl ResponseQuote {
    /// A field-for-field copy whose content provably equals this one's.
    pub fn duplicate(&self) -> (r: ResponseQuote)
        ensures
            r@ == self@,
    {
        ResponseQuote {
            id: self.id,
            content: self.content.clone(),
            author: self.author.clone(),
            reference: self.reference.clone(),
            language: self.language.clone(),
        }
    }

    /// Checks the size bounds that `QuoteModel::wf` states.
    pub fn well_formed(&self) -> (r: bool)
        ensures
            r == self@.wf(),
    {
        self.id >= 0 && self.content.as_str().unicode_len() < 100_000_000
            && self.author.as_str().unicode_len() < 100_000_000
            && self.reference.as_str().unicode_len() < 100_000_000
            && self.language.as_str().unicode_len() < 100_000_000
    }
}

/// A quote as submitted to the catalog, before it has an id.
#[derive(Debug, Clone, PartialEq, Eq)]
pub struct Quote {
    pub content: String,
    pub author: String,
    pub category: Option<String>,
    pub reference: String,
}

/// The category a submitted quote falls under when none is given.
pub fn default_category() -> (r: Option<String>)
    ensures
        r matches Some(s) && s@ == "Uncategorized"@,
{
    Some("Uncategorized".to_owned())
}

/// The calendar day the catalog was last refreshed, as recorded by the
/// update monitor.
#[derive(Debug, Clone, PartialEq, Eq)]
pub struct LastUpdate {
    pub last_update: String,
}

} // verus!
