//! The read path: cache-aside with self-repair.
//!
//! A read serves from the cache when a live, well-formed payload is
//! there; on a miss, an expired or corrupted payload, or an unreachable
//! cache, it falls back to the store, writes the answer through, and
//! refreshes the reset marker. No mutual exclusion is needed anywhere:
//! simultaneous misses each repair the cache with the same value, since
//! they all serve the one current quote-of-the-day record.

use vstd::prelude::*;

use crate::cache::{entry_live, CacheKey, CacheRead, EntryModel, QotdCache};
use crate::clock::{next_midnight_epoch, next_midnight_valid, spec_next_midnight, MAX_EPOCH};
use crate::codec::{dec, enc, decode_quote, encode_quote, lemma_round_trip};
use crate::digits::{padded, push_padded, lemma_pow10_values};
use crate::errors::{ResolveError, StoreError};
use crate::languages::Language;
use crate::model::{QuoteModel, ResponseQuote};
use crate::store::{latest_row, lemma_find_quote_member, qotd_spec, QuoteStore};

verus! {

/// How long a repaired or rotated payload lives: one day of seconds.
pub const TTL_SECONDS: i64 = 86400;

/// The quote the cache fast path yields at instant `now`: the decoded
/// payload when the cache is reachable and holds a live, well-formed
/// encoding under the language's key — nothing otherwise.
pub open spec fn cache_hit_quote(cache: QotdCache, language: Language, now: int) -> Option<
    QuoteModel,
> {
    if !cache.is_available() {
        None
    } else {
        match cache.live_value(CacheKey::Qotd(language), now) {
            Some(v) => dec(v),
            None => None,
        }
    }
}

/// What a read resolves to: the cache fast path when it yields, else
/// the store's current quote of the day — `NotFound` when none exists,
/// `ServiceUnavailable` when the store cannot answer either.
pub open spec fn resolve_spec(
    cache: QotdCache,
    store: QuoteStore,
    language: Language,
    now: int,
) -> Result<QuoteModel, ResolveError> {
    match cache_hit_quote(cache, language, now) {
        Some(m) => Ok(m),
        None => if !store.is_available() {
            Err(ResolveError::ServiceUnavailable)
        } else {
            match qotd_spec(store.catalog_view(), store.rows_view(), language.spec_tag()) {
                Some(m) => Ok(m),
                None => Err(ResolveError::NotFound),
            }
        },
    }
}

/// Serve the quote of the day for a language, reading at instant `now`.
///
/// The result is exactly `resolve_spec` of the states walked in; on the
/// fallback path the cache is repaired: the served quote's encoding is
/// stored under the language's key for a day, the reset marker is
/// refreshed where the clock answers, and no other key moves.
pub fn resolve(cache: &mut QotdCache, store: &QuoteStore, language: Language, now: i64) -> (r:
    Result<ResponseQuote, ResolveError>)
    requires
        old(cache).wf(),
        store.wf(),
        0 <= now < MAX_EPOCH,
    ensures
        final(cache).wf(),
        final(cache).is_available() == old(cache).is_available(),
        match r {
            Ok(q) => resolve_spec(*old(cache), *store, language, now as int) == Ok::<
                QuoteModel,
                ResolveError,
            >(q@),
            Err(e) => resolve_spec(*old(cache), *store, language, now as int) == Err::<
                QuoteModel,
                ResolveError,
            >(e),
        },
        cache_hit_quote(*old(cache), language, now as int) is Some ==> final(cache).entries_view()
            == old(cache).entries_view(),
        r is Err ==> final(cache).entries_view() == old(cache).entries_view(),
        !old(cache).is_available() ==> final(cache).entries_view() == old(cache).entries_view(),
        ({
            let repaired = cache_hit_quote(*old(cache), language, now as int) is None
                && old(cache).is_available() && store.is_available();
            repaired ==> (match qotd_spec(
                store.catalog_view(),
                store.rows_view(),
                language.spec_tag(),
            ) {
                Some(m) => {
                    &&& final(cache).lookup(CacheKey::Qotd(language)) == Some(
                        EntryModel {
                            key: CacheKey::Qotd(language),
                            value: enc(m),
                            expires_at: Some(now as int + TTL_SECONDS as int),
                        },
                    )
                    &&& final(cache).lookup(CacheKey::Reset(language)) == (if
                        next_midnight_valid(now as int) {
                        Some(
                            EntryModel {
                                key: CacheKey::Reset(language),
                                value: padded(spec_next_midnight(now as int)->Some_0, 12),
                                expires_at: None::<int>,
                            },
                        )
                    } else {
                        old(cache).lookup(CacheKey::Reset(language))
                    })
                    &&& forall|k2: CacheKey|
                        k2 != CacheKey::Qotd(language) && k2 != CacheKey::Reset(language)
                            ==> #[trigger] final(cache).lookup(k2) == old(cache).lookup(k2)
                },
                None => final(cache).entries_view() == old(cache).entries_view(),
            })
        }),
{
    let key = CacheKey::Qotd(language);
    match cache.get(key, now) {
        CacheRead::Hit(payload) => {
            match decode_quote(payload.as_str()) {
                Some(q) => {
                    return Ok(q);
                },
                None => {},
            }
        },
        CacheRead::Miss => {},
        CacheRead::Unavailable => {},
    }
    match store.get_quote_of_day(language.as_str()) {
        Err(e) => {
            match e {
                StoreError::Unavailable => Err(ResolveError::ServiceUnavailable),
                StoreError::NotFound => Err(ResolveError::NotFound),
            }
        },
        Ok(q) => {
            proof {
                store.lemma_wf_facts();
                lemma_find_quote_member(
                    store.catalog_view(),
                    latest_row(store.rows_view(), language.spec_tag())->Some_0.quote_id,
                );
            }
            let payload = encode_quote(&q);
            let _stored = cache.put(key, payload, Some(now + TTL_SECONDS));
            match next_midnight_epoch(now) {
                Ok(mid) => {
                    proof {
                        lemma_pow10_values();
                    }
                    let mut marker = String::new();
                    push_padded(&mut marker, mid as u64, 12);
                    let _marked = cache.put(CacheKey::Reset(language), marker, None);
                },
                Err(_) => {},
            }
            Ok(q)
        },
    }
}

/// A reachable cache holding a live encoding of a well-formed quote
/// answers a read with exactly that quote — whatever the store holds
/// and without consulting it. Repeated reads within the payload's
/// lifetime therefore return an identical quote.
pub proof fn lemma_cached_read_hits(
    cache: QotdCache,
    store: QuoteStore,
    language: Language,
    now: int,
    m: QuoteModel,
    expires_at: Option<int>,
)
    requires
        cache.is_available(),
        m.wf(),
        cache.lookup(CacheKey::Qotd(language)) == Some(
            EntryModel { key: CacheKey::Qotd(language), value: enc(m), expires_at },
        ),
        entry_live(
            EntryModel { key: CacheKey::Qotd(language), value: enc(m), expires_at },
            now,
        ),
    ensures
        cache_hit_quote(cache, language, now) == Some(m),
        resolve_spec(cache, store, language, now) == Ok::<QuoteModel, ResolveError>(m),
{
    lemma_round_trip(m);
}

/// Self-repair: once a fallback read has written the served quote
/// through — as `resolve` guarantees — the very next read, any time
/// within the payload's day of life, is a cache hit with identical
/// content.
pub proof fn lemma_self_repair(
    cache: QotdCache,
    store: QuoteStore,
    language: Language,
    now: int,
    later: int,
    m: QuoteModel,
)
    requires
        cache.is_available(),
        m.wf(),
        cache.lookup(CacheKey::Qotd(language)) == Some(
            EntryModel {
                key: CacheKey::Qotd(language),
                value: enc(m),
                expires_at: Some(now + TTL_SECONDS as int),
            },
        ),
        now <= later < now + TTL_SECONDS as int,
    ensures
        cache_hit_quote(cache, language, later) == Some(m),
        resolve_spec(cache, store, language, later) == Ok::<QuoteModel, ResolveError>(m),
{
    lemma_cached_read_hits(cache, store, language, later, m, Some(now + TTL_SECONDS as int));
}

/// A corrupted payload is never served and never surfaces as an error:
/// a cached text behind which no well-formed quote stands makes the
/// read fall back to the store, whose answer alone decides the result.
pub proof fn lemma_corrupt_payload_falls_back(
    cache: QotdCache,
    store: QuoteStore,
    language: Language,
    now: int,
    junk: Seq<char>,
    expires_at: Option<int>,
)
    requires
        cache.lookup(CacheKey::Qotd(language)) == Some(
            EntryModel { key: CacheKey::Qotd(language), value: junk, expires_at },
        ),
        dec(junk) is None,
    ensures
        cache_hit_quote(cache, language, now) is None,
        resolve_spec(cache, store, language, now) == (if !store.is_available() {
            Err::<QuoteModel, ResolveError>(ResolveError::ServiceUnavailable)
        } else {
            match qotd_spec(store.catalog_view(), store.rows_view(), language.spec_tag()) {
                Some(m) => Ok::<QuoteModel, ResolveError>(m),
                None => Err::<QuoteModel, ResolveError>(ResolveError::NotFound),
            }
        }),
{
}

} // verus!
