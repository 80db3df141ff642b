//! The update monitor's bookkeeping: when was the catalog last
//! refreshed, written and read as a `YYYY-MM-DD` text.

use vstd::prelude::*;

use crate::date::{days_in_month, spec_date_lt, date_lt, Date};
use crate::digits::{
    lemma_padded_digits, lemma_padded_injective, lemma_padded_len, lemma_pow10_values, padded,
    parse_padded, push_padded,
};
use crate::model::LastUpdate;

verus! {

/// The `YYYY-MM-DD` text of a date.
pub open spec fn date_text(d: Date) -> Seq<char> {
    padded(d.year as int, 4) + seq!['-'] + padded(d.month as int, 2) + seq!['-'] + padded(
        d.day as int,
        2,
    )
}

pub proof fn lemma_date_text_parts(d: Date)
    ensures
        date_text(d).len() == 10,
        date_text(d).subrange(0, 4) =~= padded(d.year as int, 4),
        date_text(d)[4] == '-',
        date_text(d).subrange(5, 7) =~= padded(d.month as int, 2),
        date_text(d)[7] == '-',
        date_text(d).subrange(8, 10) =~= padded(d.day as int, 2),
{
    lemma_padded_len(d.year as int, 4);
    lemma_padded_len(d.month as int, 2);
    lemma_padded_len(d.day as int, 2);
}

/// Write the day a refresh ran, as the monitor records it.
pub fn format_last_update(d: &Date) -> (r: LastUpdate)
    requires
        d.wf(),
        d.year < 10000,
    ensures
        r.last_update@ == date_text(*d),
{
    proof {
        lemma_pow10_values();
    }
    let mut out = String::new();
    push_padded(&mut out, d.year as u64, 4);
    out.append("-");
    push_padded(&mut out, d.month as u64, 2);
    out.append("-");
    push_padded(&mut out, d.day as u64, 2);
    proof {
        reveal_strlit("-");
        assert(out@ =~= date_text(*d));
    }
    LastUpdate { last_update: out }
}

/// Read a recorded refresh day back. Returns the unique real calendar
/// date (with a four-digit year) whose text this is, or nothing for
/// any other text.
pub fn parse_last_update(last: &LastUpdate) -> (r: Option<Date>)
    ensures
        match r {
            Some(d) => d.wf() && d.year < 10000 && last.last_update@ == date_text(d),
            None => !exists|d: Date|
                d.wf() && d.year < 10000 && last.last_update@ == #[trigger] date_text(d),
        },
{
    proof {
        lemma_pow10_values();
    }
    let s = last.last_update.as_str();
    let ghost text = s@;
    let n = s.unicode_len();
    proof {
        if exists|d: Date| d.wf() && d.year < 10000 && text == #[trigger] date_text(d) {
            let d = choose|d: Date| d.wf() && d.year < 10000 && text == #[trigger] date_text(d);
            lemma_date_text_parts(d);
            lemma_padded_digits(d.year as int, 4);
            lemma_padded_digits(d.month as int, 2);
            lemma_padded_digits(d.day as int, 2);
        }
    }
    if n != 10 {
        return None;
    }
    let year_parsed = parse_padded(s, 0, 4);
    let month_parsed = parse_padded(s, 5, 2);
    let day_parsed = parse_padded(s, 8, 2);
    if s.get_char(4) != '-' || s.get_char(7) != '-' {
        return None;
    }
    let (year, month, day) = match (year_parsed, month_parsed, day_parsed) {
        (Some(y), Some(m), Some(dd)) => (y, m, dd),
        _ => {
            return None;
        },
    };
    proof {
        if exists|d: Date| d.wf() && d.year < 10000 && text == #[trigger] date_text(d) {
            let d = choose|d: Date| d.wf() && d.year < 10000 && text == #[trigger] date_text(d);
            lemma_date_text_parts(d);
            lemma_padded_injective(d.year as int, year as int, 4);
            lemma_padded_injective(d.month as int, month as int, 2);
            lemma_padded_injective(d.day as int, day as int, 2);
        }
    }
    if month < 1 || month > 12 {
        return None;
    }
    let candidate = Date { year: year as u16, month: month as u8, day: day as u8 };
    if day < 1 || day as u8 > days_in_month(candidate.year, candidate.month) {
        return None;
    }
    proof {
        assert(text =~= date_text(candidate));
    }
    Some(candidate)
}

/// Whether a refresh recorded on `last` is due again on `today`: only
/// when the recorded day lies strictly in the past.
pub fn is_update_needed(last: &LastUpdate, today: &Date) -> (r: Option<bool>)
    ensures
        match r {
            Some(due) => exists|d: Date|
                d.wf() && d.year < 10000 && last.last_update@ == #[trigger] date_text(d) && due
                    == spec_date_lt(d, *today),
            None => !exists|d: Date|
                d.wf() && d.year < 10000 && last.last_update@ == #[trigger] date_text(d),
        },
{
    match parse_last_update(last) {
        Some(d) => {
            let due = date_lt(&d, today);
            proof {
                assert(d.wf() && d.year < 10000 && last.last_update@ == date_text(d) && due
                    == spec_date_lt(d, *today));
            }
            Some(due)
        },
        None => None,
    }
}

} // verus!
