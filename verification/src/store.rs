//! The persistent side: the quote catalog and the per-language,
//! per-day quote-of-the-day records.
//!
//! The store models exactly the semantics the rest of the core relies
//! on: an atomic insert-or-ignore keyed by language and date, a join of
//! the most recent record with the catalog, and a transient-unavailable
//! state that every operation surfaces instead of answering.

use vstd::prelude::*;

use crate::date::{spec_date_le, date_le, Date};
use crate::errors::StoreError;
use crate::model::{QuoteModel, ResponseQuote};

verus! {

/// One quote-of-the-day record: which catalog quote a language serves
/// on a calendar day.
#[derive(Debug, Clone, PartialEq, Eq)]
pub struct QotdRow {
    pub language: String,
    pub quote_id: i32,
    pub date: Date,
}

/// The mathematical content of a record.
pub struct RowModel {
    pub language: Seq<char>,
    pub quote_id: int,
    pub date: Date,
}

impl View for QotdRow {
    type V = RowModel;

    open spec fn view(&self) -> RowModel {
        RowModel { language: self.language@, quote_id: self.quote_id as int, date: self.date }
    }
}

impl QotdRow {
    /// A field-for-field copy whose content provably equals this one's.
    pub fn duplicate(&self) -> (r: QotdRow)
        ensures
            r@ == self@,
    {
        QotdRow { language: self.language.clone(), quote_id: self.quote_id, date: self.date }
    }
}

/// The record keyed by this language and date.
pub open spec fn row_matches(r: RowModel, language: Seq<char>, date: Date) -> bool {
    r.language == language && r.date == date
}

/// The first record for a language and date, scanning front to back.
pub open spec fn find_row(rows: Seq<RowModel>, language: Seq<char>, date: Date) -> Option<
    RowModel,
>
    decreases rows.len(),
{
    if rows.len() == 0 {
        None
    } else if row_matches(rows[0], language, date) {
        Some(rows[0])
    } else {
        find_row(rows.drop_first(), language, date)
    }
}

/// Insert-or-ignore: the records after an upsert keyed by language and
/// date. A conflicting record leaves the whole sequence untouched.
pub open spec fn upsert_spec(
    rows: Seq<RowModel>,
    language: Seq<char>,
    quote_id: int,
    date: Date,
) -> Seq<RowModel> {
    if find_row(rows, language, date) is Some {
        rows
    } else {
        rows.push(RowModel { language, quote_id, date })
    }
}

/// The record an upsert keyed by language and date hands back: the
/// pre-existing record on conflict, the fresh one otherwise.
pub open spec fn upsert_row_spec(
    rows: Seq<RowModel>,
    language: Seq<char>,
    quote_id: int,
    date: Date,
) -> RowModel {
    match find_row(rows, language, date) {
        Some(existing) => existing,
        None => RowModel { language, quote_id, date },
    }
}

/// At most one record per language and date.
pub open spec fn rows_unique(rows: Seq<RowModel>) -> bool {
    forall|i: int, j: int|
        0 <= i < j < rows.len() ==> !(#[trigger] rows[i].language == #[trigger] rows[j].language
            && rows[i].date == rows[j].date)
}

/// The most recent record for a language: the one with the greatest
/// date, with a later position winning a tie (there is none once the
/// records are unique per language and date).
pub open spec fn latest_row(rows: Seq<RowModel>, language: Seq<char>) -> Option<RowModel>
    decreases rows.len(),
{
    if rows.len() == 0 {
        None
    } else {
        let rest = latest_row(rows.drop_last(), language);
        let last = rows.last();
        if last.language == language {
            match rest {
                None => Some(last),
                Some(r) => if spec_date_le(r.date, last.date) {
                    Some(last)
                } else {
                    Some(r)
                },
            }
        } else {
            rest
        }
    }
}

/// The catalog ids available for a language, in catalog order.
pub open spec fn ids_for(catalog: Seq<QuoteModel>, language: Seq<char>) -> Seq<int>
    decreases catalog.len(),
{
    if catalog.len() == 0 {
        Seq::empty()
    } else {
        let front = ids_for(catalog.drop_last(), language);
        if catalog.last().language == language {
            front.push(catalog.last().id)
        } else {
            front
        }
    }
}

/// The first catalog quote with this id, scanning front to back.
pub open spec fn find_quote(catalog: Seq<QuoteModel>, id: int) -> Option<QuoteModel>
    decreases catalog.len(),
{
    if catalog.len() == 0 {
        None
    } else if catalog[0].id == id {
        Some(catalog[0])
    } else {
        find_quote(catalog.drop_first(), id)
    }
}

/// The quote of the day a language currently has: the most recent
/// record joined with the catalog. Nothing when the language has no
/// record yet or the recorded id has left the catalog.
pub open spec fn qotd_spec(
    catalog: Seq<QuoteModel>,
    rows: Seq<RowModel>,
    language: Seq<char>,
) -> Option<QuoteModel> {
    match latest_row(rows, language) {
        None => None,
        Some(row) => find_quote(catalog, row.quote_id),
    }
}

/// A record for the key exists exactly where `find_row` says so.
pub proof fn lemma_find_row_some(rows: Seq<RowModel>, language: Seq<char>, date: Date, i: int)
    requires
        0 <= i < rows.len(),
        row_matches(rows[i], language, date),
        forall|j: int| 0 <= j < i ==> !row_matches(#[trigger] rows[j], language, date),
    ensures
        find_row(rows, language, date) == Some(rows[i]),
    decreases i,
{
    if i > 0 {
        let rest = rows.drop_first();
        assert(forall|j: int| 0 <= j < i - 1 ==> rest[j] == #[trigger] rows[j + 1]);
        lemma_find_row_some(rest, language, date, i - 1);
    }
}

pub proof fn lemma_find_row_none(rows: Seq<RowModel>, language: Seq<char>, date: Date)
    requires
        forall|j: int| 0 <= j < rows.len() ==> !row_matches(#[trigger] rows[j], language, date),
    ensures
        find_row(rows, language, date) is None,
    decreases rows.len(),
{
    if rows.len() > 0 {
        lemma_find_row_none(rows.drop_first(), language, date);
    }
}

/// Where `find_row` finds nothing, no record has the key.
pub proof fn lemma_find_row_absent(rows: Seq<RowModel>, language: Seq<char>, date: Date)
    requires
        find_row(rows, language, date) is None,
    ensures
        forall|j: int| 0 <= j < rows.len() ==> !row_matches(#[trigger] rows[j], language, date),
    decreases rows.len(),
{
    if rows.len() > 0 {
        lemma_find_row_absent(rows.drop_first(), language, date);
        assert forall|j: int| 0 <= j < rows.len() implies !row_matches(
            #[trigger] rows[j],
            language,
            date,
        ) by {
            if j > 0 {
                assert(rows[j] == rows.drop_first()[j - 1]);
            }
        }
    }
}

pub proof fn lemma_find_quote_some(catalog: Seq<QuoteModel>, id: int, i: int)
    requires
        0 <= i < catalog.len(),
        catalog[i].id == id,
        forall|j: int| 0 <= j < i ==> (#[trigger] catalog[j]).id != id,
    ensures
        find_quote(catalog, id) == Some(catalog[i]),
    decreases i,
{
    if i > 0 {
        let rest = catalog.drop_first();
        assert(forall|j: int| 0 <= j < i - 1 ==> rest[j] == #[trigger] catalog[j + 1]);
        lemma_find_quote_some(rest, id, i - 1);
    }
}

pub proof fn lemma_find_quote_none(catalog: Seq<QuoteModel>, id: int)
    requires
        forall|j: int| 0 <= j < catalog.len() ==> (#[trigger] catalog[j]).id != id,
    ensures
        find_quote(catalog, id) is None,
    decreases catalog.len(),
{
    if catalog.len() > 0 {
        lemma_find_quote_none(catalog.drop_first(), id);
    }
}

/// An upsert is idempotent: repeating it for the same language and
/// date — with whatever quote the second attempt picked — changes
/// nothing. Concurrent rotation triggers therefore collapse into one
/// record however their store calls interleave.
pub proof fn lemma_upsert_idempotent(
    rows: Seq<RowModel>,
    language: Seq<char>,
    first_id: int,
    second_id: int,
    date: Date,
)
    ensures
        upsert_spec(upsert_spec(rows, language, first_id, date), language, second_id, date)
            == upsert_spec(rows, language, first_id, date),
        upsert_row_spec(upsert_spec(rows, language, first_id, date), language, second_id, date)
            == upsert_row_spec(rows, language, first_id, date),
{
    let once = upsert_spec(rows, language, first_id, date);
    match find_row(rows, language, date) {
        Some(existing) => {
            assert(once == rows);
        },
        None => {
            let fresh = RowModel { language, quote_id: first_id, date };
            assert(once == rows.push(fresh));
            lemma_find_row_absent(rows, language, date);
            assert(forall|j: int| 0 <= j < rows.len() ==> once[j] == #[trigger] rows[j]);
            assert(row_matches(once[rows.len() as int], language, date));
            lemma_find_row_some(once, language, date, rows.len() as int);
        },
    }
}

/// Position `i` holds the only record for the key.
pub open spec fn sole_match_at(
    rows: Seq<RowModel>,
    language: Seq<char>,
    date: Date,
    i: int,
) -> bool {
    &&& 0 <= i < rows.len()
    &&& row_matches(rows[i], language, date)
    &&& forall|j: int|
        0 <= j < rows.len() && j != i ==> !row_matches(#[trigger] rows[j], language, date)
}

/// After an upsert there is exactly one record for the key, provided
/// the records were unique to begin with; and they stay unique.
pub proof fn lemma_upsert_unique(
    rows: Seq<RowModel>,
    language: Seq<char>,
    quote_id: int,
    date: Date,
)
    requires
        rows_unique(rows),
    ensures
        rows_unique(upsert_spec(rows, language, quote_id, date)),
        exists|i: int| sole_match_at(upsert_spec(rows, language, quote_id, date), language, date, i),
{
    let after = upsert_spec(rows, language, quote_id, date);
    match find_row(rows, language, date) {
        Some(existing) => {
            assert(after == rows);
            lemma_find_row_witness(rows, language, date);
            let i = choose|i: int|
                0 <= i < rows.len() && row_matches(#[trigger] rows[i], language, date) && forall|
                    j: int,
                |
                    0 <= j < i ==> !row_matches(#[trigger] rows[j], language, date);
            assert(row_matches(after[i], language, date));
            assert(forall|j: int|
                0 <= j < after.len() && j != i ==> !row_matches(
                    #[trigger] after[j],
                    language,
                    date,
                ));
            assert(sole_match_at(after, language, date, i));
        },
        None => {
            lemma_find_row_absent(rows, language, date);
            let i = rows.len() as int;
            assert(row_matches(after[i], language, date));
            assert(forall|j: int| 0 <= j < i ==> after[j] == #[trigger] rows[j]);
            assert(forall|j: int|
                0 <= j < after.len() && j != i ==> !row_matches(
                    #[trigger] after[j],
                    language,
                    date,
                ));
            assert(rows_unique(after)) by {
                assert(forall|a: int, b: int|
                    0 <= a < b < after.len() && b < i ==> !(#[trigger] after[a].language
                        == #[trigger] after[b].language && after[a].date == after[b].date));
            }
            assert(sole_match_at(after, language, date, i));
        },
    }
}

/// Where `find_row` finds a record, some position holds the first one.
proof fn lemma_find_row_witness(rows: Seq<RowModel>, language: Seq<char>, date: Date)
    requires
        find_row(rows, language, date) is Some,
    ensures
        exists|i: int|
            0 <= i < rows.len() && row_matches(#[trigger] rows[i], language, date) && forall|
                j: int,
            |
                0 <= j < i ==> !row_matches(#[trigger] rows[j], language, date),
    decreases rows.len(),
{
    if rows.len() > 0 {
        if row_matches(rows[0], language, date) {
            assert(row_matches(rows[0int], language, date));
        } else {
            lemma_find_row_witness(rows.drop_first(), language, date);
            let rest = rows.drop_first();
            let k = choose|i: int|
                0 <= i < rest.len() && row_matches(#[trigger] rest[i], language, date) && forall|
                    j: int,
                |
                    0 <= j < i ==> !row_matches(#[trigger] rest[j], language, date);
            assert(rows[k + 1] == rest[k]);
            assert(row_matches(rows[k + 1], language, date));
            assert forall|j: int| 0 <= j < k + 1 implies !row_matches(
                #[trigger] rows[j],
                language,
                date,
            ) by {
                if j > 0 {
                    assert(rows[j] == rest[j - 1]);
                }
            }
        }
    }
}


/// Appending a record with another key leaves every search untouched.
pub proof fn lemma_find_row_push_other(
    rows: Seq<RowModel>,
    fresh: RowModel,
    language: Seq<char>,
    date: Date,
)
    requires
        !row_matches(fresh, language, date),
    ensures
        find_row(rows.push(fresh), language, date) == find_row(rows, language, date),
    decreases rows.len(),
{
    let after = rows.push(fresh);
    if rows.len() == 0 {
        assert(after.len() == 1);
        assert(after[0] == fresh);
        assert(after.drop_first() =~= Seq::<RowModel>::empty());
        assert(find_row(Seq::<RowModel>::empty(), language, date) is None);
    } else {
        assert(after[0] == rows[0]);
        if !row_matches(rows[0], language, date) {
            assert(after.drop_first() =~= rows.drop_first().push(fresh));
            lemma_find_row_push_other(rows.drop_first(), fresh, language, date);
        }
    }
}

/// An upsert leaves a record under its own key behind.
pub proof fn lemma_upsert_finds(
    rows: Seq<RowModel>,
    language: Seq<char>,
    quote_id: int,
    date: Date,
)
    ensures
        find_row(upsert_spec(rows, language, quote_id, date), language, date) is Some,
{
    match find_row(rows, language, date) {
        Some(_) => {},
        None => {
            lemma_find_row_absent(rows, language, date);
            let after = rows.push(RowModel { language, quote_id, date });
            assert(row_matches(after[rows.len() as int], language, date));
            lemma_find_row_some(after, language, date, rows.len() as int);
        },
    }
}

/// A found quote carries the id it was found by.
pub proof fn lemma_find_quote_id(catalog: Seq<QuoteModel>, id: int)
    requires
        find_quote(catalog, id) is Some,
    ensures
        find_quote(catalog, id)->Some_0.id == id,
    decreases catalog.len(),
{
    if catalog.len() > 0 && catalog[0].id != id {
        lemma_find_quote_id(catalog.drop_first(), id);
    }
}

/// A found quote is a catalog member.
pub proof fn lemma_find_quote_member(catalog: Seq<QuoteModel>, id: int)
    requires
        find_quote(catalog, id) is Some,
    ensures
        exists|j: int|
            0 <= j < catalog.len() && #[trigger] catalog[j] == find_quote(catalog, id)->Some_0,
    decreases catalog.len(),
{
    if catalog.len() > 0 {
        if catalog[0].id == id {
            assert(catalog[0int] == find_quote(catalog, id)->Some_0);
        } else {
            lemma_find_quote_member(catalog.drop_first(), id);
            let rest = catalog.drop_first();
            let j = choose|j: int|
                0 <= j < rest.len() && #[trigger] rest[j] == find_quote(rest, id)->Some_0;
            assert(catalog[j + 1] == rest[j]);
        }
    }
}

/// With distinct catalog ids the search lands exactly on the holder.
pub proof fn lemma_find_quote_unique(catalog: Seq<QuoteModel>, id: int, i: int)
    requires
        0 <= i < catalog.len(),
        catalog[i].id == id,
        forall|a: int, b: int|
            0 <= a < b < catalog.len() ==> (#[trigger] catalog[a]).id != (
            #[trigger] catalog[b]).id,
    ensures
        find_quote(catalog, id) == Some(catalog[i]),
{
    assert(forall|j: int| 0 <= j < i ==> (#[trigger] catalog[j]).id != id);
    lemma_find_quote_some(catalog, id, i);
}

/// Every listed id belongs to a catalog quote of that language.
pub proof fn lemma_ids_for_member(catalog: Seq<QuoteModel>, language: Seq<char>, k: int)
    requires
        0 <= k < ids_for(catalog, language).len(),
    ensures
        exists|i: int|
            0 <= i < catalog.len() && (#[trigger] catalog[i]).id == ids_for(catalog, language)[k]
                && catalog[i].language == language,
    decreases catalog.len(),
{
    let ids = ids_for(catalog, language);
    let front = catalog.drop_last();
    let front_ids = ids_for(front, language);
    if catalog.last().language == language && k == front_ids.len() {
        let i = catalog.len() - 1;
        assert(catalog[i].id == ids[k] && catalog[i].language == language);
    } else {
        lemma_ids_for_member(front, language, k);
        let i = choose|i: int|
            0 <= i < front.len() && (#[trigger] front[i]).id == front_ids[k] && front[i].language
                == language;
        assert(catalog[i] == front[i]);
        assert(catalog[i].id == ids[k] && catalog[i].language == language);
    }
}

/// The catalog and the per-day records, with a reachability flag that
/// models the connection to the backing database.
pub struct QuoteStore {
    catalog: Vec<ResponseQuote>,
    rows: Vec<QotdRow>,
    available: bool,
}

impl QuoteStore {
    /// The catalog's mathematical content.
    pub closed spec fn catalog_view(&self) -> Seq<QuoteModel> {
        self.catalog@.map_values(|q: ResponseQuote| q@)
    }

    /// The records' mathematical content.
    pub closed spec fn rows_view(&self) -> Seq<RowModel> {
        self.rows@.map_values(|r: QotdRow| r@)
    }

    /// Whether the store answers at all.
    pub closed spec fn is_available(&self) -> bool {
        self.available
    }

    /// Every catalog quote well formed with a distinct id, and at most
    /// one record per language and date.
    pub closed spec fn wf(&self) -> bool {
        &&& forall|i: int|
            0 <= i < self.catalog_view().len() ==> (#[trigger] self.catalog_view()[i]).wf()
        &&& forall|i: int, j: int|
            0 <= i < j < self.catalog_view().len() ==> (#[trigger] self.catalog_view()[i]).id != (
            #[trigger] self.catalog_view()[j]).id
        &&& rows_unique(self.rows_view())
    }

    /// What well-formedness provides, spelled out for callers: every
    /// catalog quote well formed, catalog ids distinct, records unique
    /// per language and date.
    pub proof fn lemma_wf_facts(&self)
        requires
            self.wf(),
        ensures
            forall|i: int|
                0 <= i < self.catalog_view().len() ==> (#[trigger] self.catalog_view()[i]).wf(),
            forall|a: int, b: int|
                0 <= a < b < self.catalog_view().len() ==> (#[trigger] self.catalog_view()[a]).id
                    != (#[trigger] self.catalog_view()[b]).id,
            rows_unique(self.rows_view()),
    {
    }

    /// An empty, reachable store.
    pub fn new() -> (s: QuoteStore)
        ensures
            s.wf(),
            s.catalog_view() =~= Seq::<QuoteModel>::empty(),
            s.rows_view() =~= Seq::<RowModel>::empty(),
            s.is_available(),
    {
        QuoteStore { catalog: Vec::new(), rows: Vec::new(), available: true }
    }

    /// Make the store reachable or unreachable; the contents stay.
    pub fn set_available(&mut self, up: bool)
        ensures
            final(self).catalog_view() == old(self).catalog_view(),
            final(self).rows_view() == old(self).rows_view(),
            final(self).is_available() == up,
            old(self).wf() ==> final(self).wf(),
    {
        self.available = up;
        proof {
            assert(self.catalog_view() =~= old(self).catalog_view());
            assert(self.rows_view() =~= old(self).rows_view());
        }
    }

    /// Seed the catalog with a quote. Accepted exactly when the quote
    /// is well formed and its id is untaken; rejected otherwise,
    /// leaving the store untouched.
    pub fn add_quote(&mut self, q: ResponseQuote) -> (r: bool)
        requires
            old(self).wf(),
        ensures
            final(self).wf(),
            final(self).rows_view() == old(self).rows_view(),
            final(self).is_available() == old(self).is_available(),
            r == (q@.wf() && forall|i: int|
                0 <= i < old(self).catalog_view().len() ==> (
                #[trigger] old(self).catalog_view()[i]).id != q@.id),
            r ==> final(self).catalog_view() =~= old(self).catalog_view().push(q@),
            !r ==> final(self).catalog_view() == old(self).catalog_view(),
    {
        if !q.well_formed() {
            return false;
        }
        let mut i: usize = 0;
        while i < self.catalog.len()
            invariant
                0 <= i <= self.catalog.len(),
                self.catalog_view() == old(self).catalog_view(),
                self.rows_view() == old(self).rows_view(),
                self.is_available() == old(self).is_available(),
                self.wf(),
                forall|j: int| 0 <= j < i ==> (#[trigger] self.catalog_view()[j]).id != q@.id,
            decreases self.catalog.len() - i,
        {
            if self.catalog[i].id == q.id {
                proof {
                    assert(old(self).catalog_view()[i as int].id == q@.id);
                }
                return false;
            }
            i = i + 1;
        }
        self.catalog.push(q);
        proof {
            assert(self.catalog_view() =~= old(self).catalog_view().push(q@));
        }
        true
    }

    /// How many per-day records exist in all.
    pub fn row_count(&self) -> (r: usize)
        ensures
            r == self.rows_view().len(),
    {
        self.rows.len()
    }

    /// The catalog ids available for a language, in catalog order.
    /// An empty list is a valid answer: it is the caller's signal that
    /// there is nothing to pick from.
    pub fn list_ids(&self, language: &str) -> (r: Result<Vec<i32>, StoreError>)
        ensures
            self.is_available() ==> (r matches Ok(v) && v@.map_values(|x: i32| x as int)
                =~= ids_for(self.catalog_view(), language@)),
            !self.is_available() ==> r == Err::<Vec<i32>, StoreError>(StoreError::Unavailable),
    {
        if !self.available {
            return Err(StoreError::Unavailable);
        }
        let wanted = language.to_owned();
        let mut out: Vec<i32> = Vec::new();
        let mut i: usize = 0;
        while i < self.catalog.len()
            invariant
                0 <= i <= self.catalog.len(),
                wanted@ == language@,
                out@.map_values(|x: i32| x as int) =~= ids_for(
                    self.catalog_view().subrange(0, i as int),
                    language@,
                ),
            decreases self.catalog.len() - i,
        {
            let ghost prefix = self.catalog_view().subrange(0, i as int);
            let ghost longer = self.catalog_view().subrange(0, i as int + 1);
            proof {
                assert(longer.drop_last() =~= prefix);
                assert(longer.last() == self.catalog_view()[i as int]);
            }
            if self.catalog[i].language == wanted {
                out.push(self.catalog[i].id);
            }
            proof {
                assert(out@.map_values(|x: i32| x as int) =~= ids_for(longer, language@));
            }
            i = i + 1;
        }
        proof {
            assert(self.catalog_view().subrange(0, self.catalog.len() as int)
                =~= self.catalog_view());
        }
        Ok(out)
    }

    /// The catalog quote with this id.
    pub fn get_by_id(&self, id: i32) -> (r: Result<ResponseQuote, StoreError>)
        ensures
            self.is_available() ==> (match find_quote(self.catalog_view(), id as int) {
                Some(m) => r matches Ok(q) && q@ == m,
                None => r == Err::<ResponseQuote, StoreError>(StoreError::NotFound),
            }),
            !self.is_available() ==> r == Err::<ResponseQuote, StoreError>(
                StoreError::Unavailable,
            ),
    {
        if !self.available {
            return Err(StoreError::Unavailable);
        }
        let mut i: usize = 0;
        while i < self.catalog.len()
            invariant
                0 <= i <= self.catalog.len(),
                self.is_available(),
                forall|j: int| 0 <= j < i ==> (#[trigger] self.catalog_view()[j]).id != id as int,
            decreases self.catalog.len() - i,
        {
            if self.catalog[i].id == id {
                proof {
                    lemma_find_quote_some(self.catalog_view(), id as int, i as int);
                }
                return Ok(self.catalog[i].duplicate());
            }
            i = i + 1;
        }
        proof {
            lemma_find_quote_none(self.catalog_view(), id as int);
        }
        Err(StoreError::NotFound)
    }

    /// Atomic insert-or-ignore keyed by language and date: on conflict
    /// the pre-existing record is returned unchanged, so the call is
    /// safe under unlimited concurrent invocation for the same key.
    pub fn upsert_quote_of_day(&mut self, language: &str, quote_id: i32, date: Date) -> (r:
        Result<QotdRow, StoreError>)
        requires
            old(self).wf(),
        ensures
            final(self).wf(),
            final(self).catalog_view() == old(self).catalog_view(),
            final(self).is_available() == old(self).is_available(),
            !old(self).is_available() ==> r == Err::<QotdRow, StoreError>(StoreError::Unavailable)
                && final(self).rows_view() == old(self).rows_view(),
            old(self).is_available() ==> ({
                &&& final(self).rows_view() =~= upsert_spec(
                    old(self).rows_view(),
                    language@,
                    quote_id as int,
                    date,
                )
                &&& r matches Ok(row) && row@ == upsert_row_spec(
                    old(self).rows_view(),
                    language@,
                    quote_id as int,
                    date,
                )
            }),
    {
        if !self.available {
            return Err(StoreError::Unavailable);
        }
        let wanted = language.to_owned();
        let mut i: usize = 0;
        while i < self.rows.len()
            invariant
                0 <= i <= self.rows.len(),
                wanted@ == language@,
                self.catalog_view() == old(self).catalog_view(),
                self.rows_view() == old(self).rows_view(),
                self.is_available() == old(self).is_available(),
                old(self).is_available(),
                self.wf(),
                forall|j: int|
                    0 <= j < i ==> !row_matches(#[trigger] self.rows_view()[j], language@, date),
            decreases self.rows.len() - i,
        {
            if self.rows[i].language == wanted && self.rows[i].date == date {
                proof {
                    lemma_find_row_some(self.rows_view(), language@, date, i as int);
                }
                return Ok(self.rows[i].duplicate());
            }
            i = i + 1;
        }
        proof {
            lemma_find_row_none(self.rows_view(), language@, date);
        }
        let fresh = QotdRow { language: wanted, quote_id, date };
        let result = fresh.duplicate();
        self.rows.push(fresh);
        proof {
            assert(self.rows_view() =~= old(self).rows_view().push(
                RowModel { language: language@, quote_id: quote_id as int, date },
            ));
            lemma_upsert_unique(old(self).rows_view(), language@, quote_id as int, date);
        }
        Ok(result)
    }

    /// The quote the language serves today: the most recent record
    /// joined with the catalog.
    pub fn get_quote_of_day(&self, language: &str) -> (r: Result<ResponseQuote, StoreError>)
        ensures
            self.is_available() ==> (match qotd_spec(
                self.catalog_view(),
                self.rows_view(),
                language@,
            ) {
                Some(m) => r matches Ok(q) && q@ == m,
                None => r == Err::<ResponseQuote, StoreError>(StoreError::NotFound),
            }),
            !self.is_available() ==> r == Err::<ResponseQuote, StoreError>(
                StoreError::Unavailable,
            ),
    {
        if !self.available {
            return Err(StoreError::Unavailable);
        }
        let wanted = language.to_owned();
        let mut best: Option<usize> = None;
        let mut i: usize = 0;
        while i < self.rows.len()
            invariant
                0 <= i <= self.rows.len(),
                wanted@ == language@,
                match best {
                    None => latest_row(self.rows_view().subrange(0, i as int), language@)
                        is None,
                    Some(b) => b < i && latest_row(
                        self.rows_view().subrange(0, i as int),
                        language@,
                    ) == Some(self.rows_view()[b as int]),
                },
            decreases self.rows.len() - i,
        {
            let ghost prefix = self.rows_view().subrange(0, i as int);
            let ghost longer = self.rows_view().subrange(0, i as int + 1);
            proof {
                assert(longer.drop_last() =~= prefix);
                assert(longer.last() == self.rows_view()[i as int]);
            }
            if self.rows[i].language == wanted {
                match best {
                    None => {
                        best = Some(i);
                    },
                    Some(b) => {
                        if date_le(&self.rows[b].date, &self.rows[i].date) {
                            best = Some(i);
                        }
                    },
                }
            }
            i = i + 1;
        }
        proof {
            assert(self.rows_view().subrange(0, self.rows.len() as int) =~= self.rows_view());
        }
        match best {
            None => Err(StoreError::NotFound),
            Some(b) => {
                let row_quote_id = self.rows[b].quote_id;
                match self.get_by_id(row_quote_id) {
                    Ok(q) => Ok(q),
                    Err(_) => Err(StoreError::NotFound),
                }
            },
        }
    }
}

} // verus!
