//! Daily selection: one quote, uniformly, for a language.
//!
//! The draw is by index into the enumerated id list, never by sampling
//! the numeric id range: ids left non-contiguous by deletions would
//! make a range draw biased, and could land on an id nobody holds.

use vstd::prelude::*;

use crate::errors::StoreError;
use crate::model::ResponseQuote;
use crate::store::{
    find_quote, ids_for, lemma_find_quote_unique, lemma_ids_for_member, QuoteStore,
};

verus! {

/// Relies on rand's `random_range`: a draw from `0 .. bound` lies in
/// that range. Nothing else is assumed of the value.
#[verifier::external_body]
pub(crate) fn draw_index(bound: usize) -> (r: usize)
    requires
        bound > 0,
    ensures
        r < bound,
{
    rand::random_range(0..bound)
}

/// The quote a selection ordinal lands on: the catalog quote holding
/// the `pick`-th listed id for the language.
///
/// Precise and deterministic; `pick_quote` supplies the randomness.
/// With ids listed, succeeds always: the listing came from the catalog.
pub fn pick_quote_at(store: &QuoteStore, language: &str, pick: usize) -> (r: Result<
    ResponseQuote,
    StoreError,
>)
    requires
        store.wf(),
        ids_for(store.catalog_view(), language@).len() == 0 || (pick as int) < ids_for(
            store.catalog_view(),
            language@,
        ).len(),
    ensures
        !store.is_available() ==> r == Err::<ResponseQuote, StoreError>(StoreError::Unavailable),
        store.is_available() && ids_for(store.catalog_view(), language@).len() == 0 ==> r == Err::<
            ResponseQuote,
            StoreError,
        >(StoreError::NotFound),
        store.is_available() && ids_for(store.catalog_view(), language@).len() > 0 ==> (r matches
            Ok(q) && Some(q@) == find_quote(
            store.catalog_view(),
            ids_for(store.catalog_view(), language@)[pick as int],
        ) && q@.wf() && q@.language == language@),
{
    proof {
        store.lemma_wf_facts();
    }
    let ghost ids = ids_for(store.catalog_view(), language@);
    let listed = match store.list_ids(language) {
        Ok(v) => v,
        Err(e) => {
            return Err(e);
        },
    };
    if listed.len() == 0 {
        return Err(StoreError::NotFound);
    }
    let id = listed[pick];
    proof {
        assert(id as int == ids[pick as int]);
        lemma_ids_for_member(store.catalog_view(), language@, pick as int);
        let i = choose|i: int|
            0 <= i < store.catalog_view().len() && (#[trigger] store.catalog_view()[i]).id
                == ids[pick as int] && store.catalog_view()[i].language == language@;
        lemma_find_quote_unique(store.catalog_view(), id as int, i);
    }
    match store.get_by_id(id) {
        Ok(q) => Ok(q),
        Err(e) => {
            // The listed id was proved present, so the lookup cannot miss.
            proof {
                assert(false);
            }
            Err(e)
        },
    }
}

/// Pick one quote uniformly for a language: enumerate the ids, fail
/// `NotFound` when there are none, and draw by index into the list.
pub fn pick_quote(store: &QuoteStore, language: &str) -> (r: Result<ResponseQuote, StoreError>)
    requires
        store.wf(),
    ensures
        !store.is_available() ==> r == Err::<ResponseQuote, StoreError>(StoreError::Unavailable),
        store.is_available() && ids_for(store.catalog_view(), language@).len() == 0 ==> r == Err::<
            ResponseQuote,
            StoreError,
        >(StoreError::NotFound),
        store.is_available() && ids_for(store.catalog_view(), language@).len() > 0 ==> (r matches
            Ok(q) && q@.wf() && q@.language == language@ && exists|k: int|
            0 <= k < ids_for(store.catalog_view(), language@).len() && Some(q@) == find_quote(
                store.catalog_view(),
                #[trigger] ids_for(store.catalog_view(), language@)[k],
            )),
{
    let listed = match store.list_ids(language) {
        Ok(v) => v,
        Err(e) => {
            return Err(e);
        },
    };
    if listed.len() == 0 {
        return Err(StoreError::NotFound);
    }
    let pick = draw_index(listed.len());
    let r = pick_quote_at(store, language, pick);
    proof {
        let ids = ids_for(store.catalog_view(), language@);
        assert(listed@.map_values(|x: i32| x as int).len() == ids.len());
        if r is Ok {
            assert(0 <= (pick as int) < ids.len() && Some(r->Ok_0@) == find_quote(
                store.catalog_view(),
                ids[pick as int],
            ));
        }
    }
    r
}

} // verus!
