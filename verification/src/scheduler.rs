//! The write path: daily rotation, scheduled or on demand.
//!
//! Per language, a rotation picks one quote uniformly, records it
//! idempotently under (language, day), and writes the recorded quote
//! and the next reset instant through to the cache. A conflict on the
//! day's record is not an error: the pre-existing record wins, and the
//! cache is rewritten with that record's quote, so concurrent triggers
//! converge. The reset instant is computed before anything is written,
//! so a clock failure is surfaced with the cache untouched. A failure
//! for one language never blocks another: the cycle driver reports
//! each language's outcome separately.

use vstd::prelude::*;

use crate::cache::{CacheKey, EntryModel, QotdCache};
use crate::clock::{
    next_midnight_epoch, next_midnight_valid, now_epoch, spec_next_midnight, utc_civil_of,
    utc_date, MAX_EPOCH,
};
use crate::codec::{enc, encode_quote};
use crate::digits::{padded, push_padded, lemma_pow10_values};
use crate::errors::{RotationError, StoreError};
use crate::languages::{lemma_tag_injective, Language};
use crate::resolver::{cache_hit_quote, resolve_spec, TTL_SECONDS};
use crate::selector::{draw_index, pick_quote_at};
use crate::model::QuoteModel;
use crate::store::{
    find_quote, find_row, ids_for, lemma_find_quote_member, lemma_find_row_push_other,
    lemma_upsert_finds, lemma_upsert_idempotent, lemma_upsert_unique, sole_match_at,
    upsert_row_spec, upsert_spec, QuoteStore, RowModel,
};

verus! {

/// Whether the language's record for `now`'s day, as it stands before
/// a rotation, points at a quote the catalog no longer holds. Only a
/// pre-existing record can dangle: a fresh one records a listed id.
pub open spec fn existing_record_dangles(s0: QuoteStore, language: Language, now: int) -> bool {
    match find_row(s0.rows_view(), language.spec_tag(), utc_civil_of(now)) {
        Some(row) => find_quote(s0.catalog_view(), row.quote_id) is None,
        None => false,
    }
}

/// The outcome a rotation for one language owes on the states it walks
/// in at instant `now` — success unless one of the five spelled-out
/// obstacles stands, each mapped to its error:
/// an unreachable store; nothing listed for the language; a day record
/// pointing at a vanished quote; a rotation boundary the timezone
/// database cannot place; an unreachable cache.
pub open spec fn rotation_verdict(
    store: QuoteStore,
    cache: QotdCache,
    language: Language,
    now: int,
) -> Result<(), RotationError> {
    if !store.is_available() {
        Err(RotationError::StoreUnavailable)
    } else if ids_for(store.catalog_view(), language.spec_tag()).len() == 0 {
        Err(RotationError::NotFound)
    } else if existing_record_dangles(store, language, now) {
        Err(RotationError::NotFound)
    } else if !next_midnight_valid(now) {
        Err(RotationError::Clock)
    } else if !cache.is_available() {
        Err(RotationError::CacheUnavailable)
    } else {
        Ok(())
    }
}

/// Everything a completed rotation leaves behind, with `pick` the
/// selection ordinal the draw landed on: the day's record upserted
/// with the picked id, the recorded quote's encoding cached for a day,
/// the reset marker set to the next Berlin midnight — strictly in the
/// future — and no other cache key moved.
pub open spec fn rotation_effect(
    s0: QuoteStore,
    s1: QuoteStore,
    c0: QotdCache,
    c1: QotdCache,
    language: Language,
    now: int,
    pick: int,
) -> bool {
    let tag = language.spec_tag();
    let ids = ids_for(s0.catalog_view(), tag);
    let today = utc_civil_of(now);
    let row = upsert_row_spec(s0.rows_view(), tag, ids[pick], today);
    let served = find_quote(s0.catalog_view(), row.quote_id);
    let mid = spec_next_midnight(now)->Some_0;
    &&& s1.catalog_view() == s0.catalog_view()
    &&& s1.rows_view() == upsert_spec(s0.rows_view(), tag, ids[pick], today)
    &&& served matches Some(m) && c1.lookup(CacheKey::Qotd(language)) == Some(
        EntryModel {
            key: CacheKey::Qotd(language),
            value: enc(m),
            expires_at: Some(now + TTL_SECONDS as int),
        },
    )
    &&& next_midnight_valid(now)
    &&& c1.lookup(CacheKey::Reset(language)) == Some(
        EntryModel {
            key: CacheKey::Reset(language),
            value: padded(mid, 12),
            expires_at: None::<int>,
        },
    )
    &&& now < mid
    &&& forall|k2: CacheKey|
        k2 != CacheKey::Qotd(language) && k2 != CacheKey::Reset(language)
            ==> #[trigger] c1.lookup(k2) == c0.lookup(k2)
}

/// Rotate one language at instant `now` with the selection ordinal
/// already drawn: record the picked quote for the day — or keep the
/// day's pre-existing record — and write the recorded quote and the
/// next reset instant through to the cache.
///
/// The result is exactly `rotation_verdict` of the states walked in.
/// On any error the cache is untouched; the day's record is upserted
/// whenever the store answered and the language had ids listed, and
/// then exists exactly once.
pub fn rotate_language_with_index(
    store: &mut QuoteStore,
    cache: &mut QotdCache,
    language: Language,
    now: i64,
    pick: usize,
) -> (r: Result<(), RotationError>)
    requires
        old(store).wf(),
        old(cache).wf(),
        0 <= now < MAX_EPOCH,
        ids_for(old(store).catalog_view(), language.spec_tag()).len() == 0 || (pick as int)
            < ids_for(old(store).catalog_view(), language.spec_tag()).len(),
    ensures
        final(store).wf(),
        final(cache).wf(),
        final(store).catalog_view() == old(store).catalog_view(),
        final(store).is_available() == old(store).is_available(),
        final(cache).is_available() == old(cache).is_available(),
        r == rotation_verdict(*old(store), *old(cache), language, now as int),
        r is Err ==> final(cache).entries_view() == old(cache).entries_view(),
        forall|k2: CacheKey|
            k2 != CacheKey::Qotd(language) && k2 != CacheKey::Reset(language)
                ==> #[trigger] final(cache).lookup(k2) == old(cache).lookup(k2),
        !(old(store).is_available() && ids_for(
            old(store).catalog_view(),
            language.spec_tag(),
        ).len() > 0) ==> final(store).rows_view() == old(store).rows_view(),
        old(store).is_available() && ids_for(
            old(store).catalog_view(),
            language.spec_tag(),
        ).len() > 0 ==> ({
            let tag = language.spec_tag();
            let ids = ids_for(old(store).catalog_view(), tag);
            let today = utc_civil_of(now as int);
            &&& final(store).rows_view() == upsert_spec(
                old(store).rows_view(),
                tag,
                ids[pick as int],
                today,
            )
            &&& exists|i: int| sole_match_at(final(store).rows_view(), tag, today, i)
        }),
        r is Ok ==> rotation_effect(
            *old(store),
            *final(store),
            *old(cache),
            *final(cache),
            language,
            now as int,
            pick as int,
        ),
{
    let tag = language.as_str();
    let picked = match pick_quote_at(store, tag, pick) {
        Ok(q) => q,
        Err(StoreError::Unavailable) => {
            return Err(RotationError::StoreUnavailable);
        },
        Err(StoreError::NotFound) => {
            return Err(RotationError::NotFound);
        },
    };
    let today = utc_date(now);
    let row = match store.upsert_quote_of_day(tag, picked.id, today) {
        Ok(row) => row,
        Err(_) => {
            // The selection already proved the store reachable.
            proof {
                assert(false);
            }
            return Err(RotationError::StoreUnavailable);
        },
    };
    proof {
        store.lemma_wf_facts();
        old(store).lemma_wf_facts();
        let ids = ids_for(old(store).catalog_view(), language.spec_tag());
        assert(Some(picked@) == find_quote(old(store).catalog_view(), ids[pick as int]));
        crate::store::lemma_find_quote_id(old(store).catalog_view(), ids[pick as int]);
        lemma_upsert_unique(
            old(store).rows_view(),
            language.spec_tag(),
            picked@.id,
            utc_civil_of(now as int),
        );
    }
    let served = match store.get_by_id(row.quote_id) {
        Ok(q) => q,
        Err(_) => {
            // Only a pre-existing record can point at a vanished quote:
            // a fresh one records the picked id, which the catalog holds.
            proof {
                if find_row(
                    old(store).rows_view(),
                    language.spec_tag(),
                    utc_civil_of(now as int),
                ) is None {
                    assert(false);
                }
            }
            return Err(RotationError::NotFound);
        },
    };
    let mid = match next_midnight_epoch(now) {
        Ok(mid) => mid,
        Err(_) => {
            return Err(RotationError::Clock);
        },
    };
    proof {
        lemma_find_quote_member(store.catalog_view(), row@.quote_id);
    }
    let payload = encode_quote(&served);
    if !cache.put(CacheKey::Qotd(language), payload, Some(now + TTL_SECONDS)) {
        return Err(RotationError::CacheUnavailable);
    }
    proof {
        lemma_pow10_values();
    }
    let mut marker = String::new();
    push_padded(&mut marker, mid as u64, 12);
    if !cache.put(CacheKey::Reset(language), marker, None) {
        // The payload write already proved the cache reachable.
        proof {
            assert(false);
        }
        return Err(RotationError::CacheUnavailable);
    }
    Ok(())
}

/// Rotate one language at instant `now`, drawing the selection
/// uniformly by index into the language's id list.
///
/// The result is exactly `rotation_verdict` of the states walked in;
/// which quote the day's fresh record holds is the draw's alone.
pub fn rotate_language(
    store: &mut QuoteStore,
    cache: &mut QotdCache,
    language: Language,
    now: i64,
) -> (r: Result<(), RotationError>)
    requires
        old(store).wf(),
        old(cache).wf(),
        0 <= now < MAX_EPOCH,
    ensures
        final(store).wf(),
        final(cache).wf(),
        final(store).catalog_view() == old(store).catalog_view(),
        final(store).is_available() == old(store).is_available(),
        final(cache).is_available() == old(cache).is_available(),
        r == rotation_verdict(*old(store), *old(cache), language, now as int),
        r is Err ==> final(cache).entries_view() == old(cache).entries_view(),
        forall|k2: CacheKey|
            k2 != CacheKey::Qotd(language) && k2 != CacheKey::Reset(language)
                ==> #[trigger] final(cache).lookup(k2) == old(cache).lookup(k2),
        !(old(store).is_available() && ids_for(
            old(store).catalog_view(),
            language.spec_tag(),
        ).len() > 0) ==> final(store).rows_view() == old(store).rows_view(),
        old(store).is_available() && ids_for(
            old(store).catalog_view(),
            language.spec_tag(),
        ).len() > 0 ==> exists|p: int|
            0 <= p < ids_for(old(store).catalog_view(), language.spec_tag()).len() && final(store).rows_view() == upsert_spec(
                old(store).rows_view(),
                language.spec_tag(),
                #[trigger] ids_for(old(store).catalog_view(), language.spec_tag())[p],
                utc_civil_of(now as int),
            ),
        r is Ok ==> exists|p: int|
            0 <= p < ids_for(old(store).catalog_view(), language.spec_tag()).len()
                && rotation_effect(
                *old(store),
                *final(store),
                *old(cache),
                *final(cache),
                language,
                now as int,
                p,
            ),
{
    let tag = language.as_str();
    let listed = match store.list_ids(tag) {
        Ok(v) => v,
        Err(_) => {
            return Err(RotationError::StoreUnavailable);
        },
    };
    if listed.is_empty() {
        return Err(RotationError::NotFound);
    }
    let pick = draw_index(listed.len());
    rotate_language_with_index(store, cache, language, now, pick)
}

/// What a completed rotation leaves serving for a language: a record
/// for the day, a cached payload — the encoding of some well-formed
/// quote — that lives for a day, and the reset marker at the next
/// Berlin midnight, which is valid and strictly in the future.
pub open spec fn language_serving(
    store: QuoteStore,
    cache: QotdCache,
    language: Language,
    now: int,
) -> bool {
    let mid = spec_next_midnight(now)->Some_0;
    &&& find_row(store.rows_view(), language.spec_tag(), utc_civil_of(now)) is Some
    &&& (cache.lookup(CacheKey::Qotd(language)) matches Some(e) && e.expires_at == Some(
        now + TTL_SECONDS as int,
    ) && exists|m: QuoteModel| m.wf() && e.value == #[trigger] enc(m))
    &&& next_midnight_valid(now)
    &&& cache.lookup(CacheKey::Reset(language)) == Some(
        EntryModel {
            key: CacheKey::Reset(language),
            value: padded(mid, 12),
            expires_at: None::<int>,
        },
    )
}

/// The records after rotating each language of `langs` in order with
/// the selection ordinals `picks`: one insert-or-ignore per language
/// that has ids listed, nothing for one that has none.
pub open spec fn rows_after(
    catalog: Seq<QuoteModel>,
    rows: Seq<RowModel>,
    langs: Seq<Language>,
    picks: Seq<int>,
    today: crate::date::Date,
) -> Seq<RowModel>
    decreases langs.len(),
{
    if langs.len() == 0 {
        rows
    } else {
        let prev = rows_after(catalog, rows, langs.drop_last(), picks.drop_last(), today);
        let tag = langs.last().spec_tag();
        let ids = ids_for(catalog, tag);
        if ids.len() > 0 {
            upsert_spec(prev, tag, ids[picks.last()], today)
        } else {
            prev
        }
    }
}

/// One in-bounds selection ordinal per language.
pub open spec fn picks_valid(
    catalog: Seq<QuoteModel>,
    langs: Seq<Language>,
    picks: Seq<int>,
) -> bool {
    &&& picks.len() == langs.len()
    &&& forall|k: int|
        0 <= k < langs.len() ==> 0 <= #[trigger] picks[k] && (ids_for(
            catalog,
            langs[k].spec_tag(),
        ).len() > 0 ==> picks[k] < ids_for(catalog, langs[k].spec_tag()).len())
}

/// Everything one rotation pass at `instant` leaves behind, walked in
/// on `(s0, c0)` and out on `(s1, c1)`: one outcome per configured
/// language, each equal to its verdict on the walked-in states; the
/// records the in-order composition of the per-language upserts (and
/// untouched where the store was dark); and every language reported
/// `Ok` left serving.
pub open spec fn cycle_outcome(
    s0: QuoteStore,
    c0: QotdCache,
    s1: QuoteStore,
    c1: QotdCache,
    results: Seq<(Language, Result<(), RotationError>)>,
    instant: int,
) -> bool {
    let langs = seq![Language::English, Language::RomanUrdu];
    &&& results.len() == langs.len()
    &&& forall|j: int| 0 <= j < results.len() ==> (#[trigger] results[j]).0 == langs[j]
    &&& forall|j: int|
        0 <= j < results.len() ==> (#[trigger] results[j]).1 == rotation_verdict(
            s0,
            c0,
            results[j].0,
            instant,
        )
    &&& forall|j: int|
        0 <= j < results.len() && (#[trigger] results[j]).1 is Ok ==> language_serving(
            s1,
            c1,
            results[j].0,
            instant,
        )
    &&& s0.is_available() ==> exists|picks: Seq<int>|
        #[trigger] picks_valid(s0.catalog_view(), langs, picks) && s1.rows_view() == rows_after(
            s0.catalog_view(),
            s0.rows_view(),
            langs,
            picks,
            utc_civil_of(instant),
        )
    &&& !s0.is_available() ==> s1.rows_view() == s0.rows_view()
}

/// One rotation pass over every configured language at instant `now`.
///
/// The pass leaves behind exactly `cycle_outcome`: each language's
/// result is its own verdict on the walked-in states — so a failure
/// for one language neither aborts nor alters another's rotation —
/// the records are the composition of the per-language upserts, and
/// every language reported `Ok` is left serving.
pub fn run_rotation_cycle(store: &mut QuoteStore, cache: &mut QotdCache, now: i64) -> (results:
    Vec<(Language, Result<(), RotationError>)>)
    requires
        old(store).wf(),
        old(cache).wf(),
        0 <= now < MAX_EPOCH,
    ensures
        final(store).wf(),
        final(cache).wf(),
        final(store).catalog_view() == old(store).catalog_view(),
        final(store).is_available() == old(store).is_available(),
        final(cache).is_available() == old(cache).is_available(),
        cycle_outcome(
            *old(store),
            *old(cache),
            *final(store),
            *final(cache),
            results@,
            now as int,
        ),
{
    let languages = Language::variants();
    let mut results: Vec<(Language, Result<(), RotationError>)> = Vec::new();
    let mut i: usize = 0;
    proof {
        assert(old(store).is_available() ==> picks_valid(
            old(store).catalog_view(),
            languages@.subrange(0, 0),
            Seq::<int>::empty(),
        ) && old(store).rows_view() == rows_after(
            old(store).catalog_view(),
            old(store).rows_view(),
            languages@.subrange(0, 0),
            Seq::<int>::empty(),
            utc_civil_of(now as int),
        ));
    }
    while i < languages.len()
        invariant
            0 <= i <= languages.len(),
            languages@ == seq![Language::English, Language::RomanUrdu],
            store.wf(),
            cache.wf(),
            store.catalog_view() == old(store).catalog_view(),
            store.is_available() == old(store).is_available(),
            cache.is_available() == old(cache).is_available(),
            0 <= now < MAX_EPOCH,
            results@.len() == i,
            forall|j: int| 0 <= j < i ==> (#[trigger] results@[j]).0 == languages@[j],
            forall|j: int|
                0 <= j < i ==> (#[trigger] results@[j]).1 == rotation_verdict(
                    *old(store),
                    *old(cache),
                    results@[j].0,
                    now as int,
                ),
            forall|j: int|
                0 <= j < i && (#[trigger] results@[j]).1 is Ok ==> language_serving(
                    *store,
                    *cache,
                    results@[j].0,
                    now as int,
                ),
            forall|l: Language|
                (forall|k: int| 0 <= k < i ==> languages@[k] != l) ==> #[trigger] find_row(
                    store.rows_view(),
                    l.spec_tag(),
                    utc_civil_of(now as int),
                ) == find_row(old(store).rows_view(), l.spec_tag(), utc_civil_of(now as int)),
            old(store).is_available() ==> exists|picks: Seq<int>|
                #[trigger] picks_valid(
                    old(store).catalog_view(),
                    languages@.subrange(0, i as int),
                    picks,
                ) && store.rows_view() == rows_after(
                    old(store).catalog_view(),
                    old(store).rows_view(),
                    languages@.subrange(0, i as int),
                    picks,
                    utc_civil_of(now as int),
                ),
            !old(store).is_available() ==> store.rows_view() == old(store).rows_view(),
        decreases languages.len() - i,
    {
        let language = languages[i];
        let ghost pre_store = *store;
        let ghost pre_cache = *cache;
        let outcome = rotate_language(store, cache, language, now);
        proof {
            let today = utc_civil_of(now as int);
            let tag_new = language.spec_tag();
            let ids_new = ids_for(pre_store.catalog_view(), tag_new);
            assert forall|k: int| 0 <= k < i implies languages@[k] != language by {
                assert(languages@[0] != languages@[1]);
            }
            // The verdict for this language is unchanged from the
            // walked-in states: earlier rotations touched other keys.
            assert(find_row(pre_store.rows_view(), tag_new, today) == find_row(
                old(store).rows_view(),
                tag_new,
                today,
            ));
            assert(existing_record_dangles(pre_store, language, now as int)
                == existing_record_dangles(*old(store), language, now as int));
            assert(outcome == rotation_verdict(*old(store), *old(cache), language, now as int));
            // Earlier languages keep serving: this step moved neither
            // their cache keys nor their day records.
            assert forall|j: int| 0 <= j < i && (#[trigger] results@[j]).1 is Ok implies
                language_serving(*store, *cache, results@[j].0, now as int) by {
                let lang_j = results@[j].0;
                assert(lang_j == languages@[j] && lang_j != language);
                lemma_tag_injective(lang_j, language);
                assert(cache.lookup(CacheKey::Qotd(lang_j)) == pre_cache.lookup(
                    CacheKey::Qotd(lang_j),
                ));
                assert(cache.lookup(CacheKey::Reset(lang_j)) == pre_cache.lookup(
                    CacheKey::Reset(lang_j),
                ));
                if pre_store.is_available() && ids_new.len() > 0 {
                    let p = choose|p: int|
                        0 <= p < ids_new.len() && store.rows_view() == upsert_spec(
                            pre_store.rows_view(),
                            tag_new,
                            #[trigger] ids_new[p],
                            today,
                        );
                    if find_row(pre_store.rows_view(), tag_new, today) is Some {
                        assert(store.rows_view() == pre_store.rows_view());
                    } else {
                        let fresh = RowModel {
                            language: tag_new,
                            quote_id: ids_new[p],
                            date: today,
                        };
                        assert(store.rows_view() == pre_store.rows_view().push(fresh));
                        lemma_find_row_push_other(
                            pre_store.rows_view(),
                            fresh,
                            lang_j.spec_tag(),
                            today,
                        );
                    }
                } else {
                    assert(store.rows_view() == pre_store.rows_view());
                }
            }
            // Languages not yet rotated keep their walked-in records.
            assert forall|l: Language|
                (forall|k: int| 0 <= k < i + 1 ==> languages@[k] != l) implies #[trigger] find_row(
                store.rows_view(),
                l.spec_tag(),
                utc_civil_of(now as int),
            ) == find_row(old(store).rows_view(), l.spec_tag(), utc_civil_of(now as int)) by {
                assert(l != language);
                lemma_tag_injective(l, language);
                if pre_store.is_available() && ids_new.len() > 0 {
                    let p = choose|p: int|
                        0 <= p < ids_new.len() && store.rows_view() == upsert_spec(
                            pre_store.rows_view(),
                            tag_new,
                            #[trigger] ids_new[p],
                            today,
                        );
                    if find_row(pre_store.rows_view(), tag_new, today) is Some {
                        assert(store.rows_view() == pre_store.rows_view());
                    } else {
                        let fresh = RowModel {
                            language: tag_new,
                            quote_id: ids_new[p],
                            date: today,
                        };
                        assert(store.rows_view() == pre_store.rows_view().push(fresh));
                        lemma_find_row_push_other(
                            pre_store.rows_view(),
                            fresh,
                            l.spec_tag(),
                            today,
                        );
                    }
                } else {
                    assert(store.rows_view() == pre_store.rows_view());
                }
            }
            // The records stay the in-order composition of the upserts.
            if old(store).is_available() {
                let prefix = languages@.subrange(0, i as int);
                let longer = languages@.subrange(0, i as int + 1);
                let picks = choose|picks: Seq<int>|
                    #[trigger] picks_valid(old(store).catalog_view(), prefix, picks)
                        && pre_store.rows_view() == rows_after(
                        old(store).catalog_view(),
                        old(store).rows_view(),
                        prefix,
                        picks,
                        today,
                    );
                let p_new: int = if ids_new.len() > 0 {
                    choose|p: int|
                        0 <= p < ids_new.len() && store.rows_view() == upsert_spec(
                            pre_store.rows_view(),
                            tag_new,
                            #[trigger] ids_new[p],
                            today,
                        )
                } else {
                    0
                };
                let picks2 = picks.push(p_new);
                assert(longer.drop_last() =~= prefix);
                assert(picks2.drop_last() =~= picks);
                assert(longer.last() == language);
                assert(ids_for(old(store).catalog_view(), tag_new) == ids_new);
                if ids_new.len() > 0 {
                    assert(store.rows_view() == upsert_spec(
                        pre_store.rows_view(),
                        tag_new,
                        ids_new[p_new],
                        today,
                    ));
                } else {
                    assert(store.rows_view() == pre_store.rows_view());
                }
                assert(store.rows_view() == rows_after(
                    old(store).catalog_view(),
                    old(store).rows_view(),
                    longer,
                    picks2,
                    today,
                ));
                assert forall|k: int| 0 <= k < longer.len() implies 0 <= #[trigger] picks2[k] && (
                ids_for(old(store).catalog_view(), longer[k].spec_tag()).len() > 0 ==> picks2[k]
                    < ids_for(old(store).catalog_view(), longer[k].spec_tag()).len()) by {
                    if k < i {
                        assert(longer[k] == prefix[k]);
                        assert(picks2[k] == picks[k]);
                    } else {
                        assert(longer[k] == language && picks2[k] == p_new);
                    }
                }
                assert(picks_valid(old(store).catalog_view(), longer, picks2));
            }
            // Where this language rotated, it is now serving.
            if outcome is Ok {
                let p = choose|p: int|
                    0 <= p < ids_new.len() && rotation_effect(
                        pre_store,
                        *store,
                        pre_cache,
                        *cache,
                        language,
                        now as int,
                        p,
                    );
                lemma_upsert_finds(pre_store.rows_view(), tag_new, ids_new[p], today);
                let row = upsert_row_spec(pre_store.rows_view(), tag_new, ids_new[p], today);
                pre_store.lemma_wf_facts();
                lemma_find_quote_member(pre_store.catalog_view(), row.quote_id);
                let m = find_quote(pre_store.catalog_view(), row.quote_id)->Some_0;
                assert(m.wf() && cache.lookup(CacheKey::Qotd(language))->Some_0.value == enc(m));
                assert(language_serving(*store, *cache, language, now as int));
            }
        }
        results.push((language, outcome));
        i = i + 1;
    }
    proof {
        assert(languages@.subrange(0, 2) =~= seq![Language::English, Language::RomanUrdu]);
    }
    results
}

/// The administrative trigger: rotate every configured language now,
/// by the system clock. Succeeds exactly when the clock reads an
/// instant inside the supported range, and then hands back that
/// instant beside one whole rotation pass — `cycle_outcome` at it.
/// Idempotent within a calendar day: a repeated trigger keeps each
/// language's record and serves the same quote.
pub fn trigger_rotation(store: &mut QuoteStore, cache: &mut QotdCache) -> (r: Result<
    (i64, Vec<(Language, Result<(), RotationError>)>),
    RotationError,
>)
    requires
        old(store).wf(),
        old(cache).wf(),
    ensures
        final(store).wf(),
        final(cache).wf(),
        final(store).catalog_view() == old(store).catalog_view(),
        final(store).is_available() == old(store).is_available(),
        final(cache).is_available() == old(cache).is_available(),
        r is Err ==> final(store).rows_view() == old(store).rows_view() && final(cache).entries_view() == old(cache).entries_view(),
        r matches Ok(pair) ==> 0 <= pair.0 < MAX_EPOCH && cycle_outcome(
            *old(store),
            *old(cache),
            *final(store),
            *final(cache),
            pair.1@,
            pair.0 as int,
        ),
{
    let now = now_epoch();
    if now < 0 || now >= MAX_EPOCH {
        return Err(RotationError::Clock);
    }
    let results = run_rotation_cycle(store, cache, now);
    Ok((now, results))
}

/// Whether a cache whose reset marker reads `last_timestamp` is due
/// for rotation at instant `now`: exactly when the marked instant has
/// been reached.
pub fn should_update_cache(last_timestamp: i64, now: i64) -> (r: bool)
    ensures
        r == (now >= last_timestamp),
{
    now >= last_timestamp
}

/// Rotations for one language on one calendar day collapse into one
/// record: whatever quote the second draw picked and whenever within
/// the day it ran, the records after the second rotation are the
/// records after the first, and the cached payload still encodes the
/// first rotation's recorded quote.
pub proof fn lemma_rotation_idempotent(
    s0: QuoteStore,
    s1: QuoteStore,
    s2: QuoteStore,
    c0: QotdCache,
    c1: QotdCache,
    c2: QotdCache,
    language: Language,
    now1: int,
    now2: int,
    first_pick: int,
    second_pick: int,
)
    requires
        rotation_effect(s0, s1, c0, c1, language, now1, first_pick),
        rotation_effect(s1, s2, c1, c2, language, now2, second_pick),
        utc_civil_of(now2) == utc_civil_of(now1),
    ensures
        s2.rows_view() == s1.rows_view(),
        c2.lookup(CacheKey::Qotd(language)) matches Some(e2) && c1.lookup(
            CacheKey::Qotd(language),
        ) matches Some(e1) && e2.value == e1.value,
{
    let tag = language.spec_tag();
    let ids = ids_for(s0.catalog_view(), tag);
    let today = utc_civil_of(now1);
    lemma_upsert_idempotent(s0.rows_view(), tag, ids[first_pick], ids[second_pick], today);
    assert(ids_for(s1.catalog_view(), tag) == ids);
    assert(upsert_row_spec(s1.rows_view(), tag, ids[second_pick], today) == upsert_row_spec(
        s0.rows_view(),
        tag,
        ids[first_pick],
        today,
    ));
}

/// Between a rotation and the next reset, every read serves the
/// rotated quote from the cache alone — identically, whatever happens
/// to the store meanwhile.
pub proof fn lemma_rotation_then_read(
    s0: QuoteStore,
    s1: QuoteStore,
    c0: QotdCache,
    c1: QotdCache,
    later_store: QuoteStore,
    language: Language,
    now: int,
    pick: int,
    later: int,
)
    requires
        s0.wf(),
        rotation_effect(s0, s1, c0, c1, language, now, pick),
        c1.is_available(),
        now <= later < now + TTL_SECONDS as int,
    ensures
        ({
            let tag = language.spec_tag();
            let ids = ids_for(s0.catalog_view(), tag);
            let row = upsert_row_spec(s0.rows_view(), tag, ids[pick], utc_civil_of(now));
            let served = find_quote(s0.catalog_view(), row.quote_id);
            &&& cache_hit_quote(c1, language, later) == Some(served->Some_0)
            &&& resolve_spec(c1, later_store, language, later) == Ok::<
                crate::model::QuoteModel,
                crate::errors::ResolveError,
            >(served->Some_0)
        }),
{
    let tag = language.spec_tag();
    let ids = ids_for(s0.catalog_view(), tag);
    let row = upsert_row_spec(s0.rows_view(), tag, ids[pick], utc_civil_of(now));
    let served = find_quote(s0.catalog_view(), row.quote_id);
    let m = served->Some_0;
    s0.lemma_wf_facts();
    lemma_find_quote_member(s0.catalog_view(), row.quote_id);
    crate::resolver::lemma_cached_read_hits(
        c1,
        later_store,
        language,
        later,
        m,
        Some(now + TTL_SECONDS as int),
    );
}

} // verus!
