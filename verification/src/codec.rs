//! The cache payload form of a quote, and its proofs.
//!
//! A cached quote is one text: a fixed-width header of five decimal
//! numerals — the catalog id and the four field lengths — followed by
//! the four fields themselves. Every field is found by position, so a
//! reader needs no escaping and no scanning, and any truncation or
//! tampering that leaves no well-formed encoding behind is detected.

use vstd::prelude::*;

use crate::digits::{
    lemma_padded_digits, lemma_padded_injective, lemma_padded_len, lemma_pow10_values, padded,
    parse_padded, push_padded,
};
use crate::model::{QuoteModel, ResponseQuote};

verus! {

/// The payload text that encodes a quote.
pub open spec fn enc(q: QuoteModel) -> Seq<char> {
    padded(q.id, 10) + padded(q.content.len() as int, 8) + padded(q.author.len() as int, 8)
        + padded(q.reference.len() as int, 8) + padded(q.language.len() as int, 8) + q.content
        + q.author + q.reference + q.language
}

/// The quote a payload text encodes, if any.
///
/// A text decodes to the unique well-formed quote whose encoding it is;
/// any other text — truncated, tampered with, or of a foreign format —
/// decodes to nothing.
pub open spec fn dec(s: Seq<char>) -> Option<QuoteModel> {
    if exists|q: QuoteModel| q.wf() && enc(q) == s {
        Some(choose|q: QuoteModel| q.wf() && enc(q) == s)
    } else {
        None
    }
}

pub proof fn lemma_enc_len(q: QuoteModel)
    ensures
        enc(q).len() == 42 + q.content.len() + q.author.len() + q.reference.len()
            + q.language.len(),
{
    lemma_padded_len(q.id, 10);
    lemma_padded_len(q.content.len() as int, 8);
    lemma_padded_len(q.author.len() as int, 8);
    lemma_padded_len(q.reference.len() as int, 8);
    lemma_padded_len(q.language.len() as int, 8);
}

/// Where each piece of the encoding stands in the whole text.
pub proof fn lemma_enc_parts(q: QuoteModel)
    ensures
        enc(q).subrange(0, 10) =~= padded(q.id, 10),
        enc(q).subrange(10, 18) =~= padded(q.content.len() as int, 8),
        enc(q).subrange(18, 26) =~= padded(q.author.len() as int, 8),
        enc(q).subrange(26, 34) =~= padded(q.reference.len() as int, 8),
        enc(q).subrange(34, 42) =~= padded(q.language.len() as int, 8),
        enc(q).subrange(42, 42 + q.content.len() as int) =~= q.content,
        enc(q).subrange(
            42 + q.content.len() as int,
            42 + q.content.len() as int + q.author.len() as int,
        ) =~= q.author,
        enc(q).subrange(
            42 + q.content.len() as int + q.author.len() as int,
            42 + q.content.len() as int + q.author.len() as int + q.reference.len() as int,
        ) =~= q.reference,
        enc(q).subrange(
            42 + q.content.len() as int + q.author.len() as int + q.reference.len() as int,
            42 + q.content.len() as int + q.author.len() as int + q.reference.len() as int
                + q.language.len() as int,
        ) =~= q.language,
{
    lemma_enc_len(q);
    lemma_padded_len(q.id, 10);
    lemma_padded_len(q.content.len() as int, 8);
    lemma_padded_len(q.author.len() as int, 8);
    lemma_padded_len(q.reference.len() as int, 8);
    lemma_padded_len(q.language.len() as int, 8);
}

/// No two well-formed quotes share an encoding.
pub proof fn lemma_enc_injective(a: QuoteModel, b: QuoteModel)
    requires
        a.wf(),
        b.wf(),
        enc(a) == enc(b),
    ensures
        a == b,
{
    lemma_enc_parts(a);
    lemma_enc_parts(b);
    lemma_pow10_values();
    lemma_padded_injective(a.id, b.id, 10);
    lemma_padded_injective(a.content.len() as int, b.content.len() as int, 8);
    lemma_padded_injective(a.author.len() as int, b.author.len() as int, 8);
    lemma_padded_injective(a.reference.len() as int, b.reference.len() as int, 8);
    lemma_padded_injective(a.language.len() as int, b.language.len() as int, 8);
    assert(a.content =~= b.content);
    assert(a.author =~= b.author);
    assert(a.reference =~= b.reference);
    assert(a.language =~= b.language);
}

/// Decoding returns exactly the quote that was encoded.
///
/// This is the round trip behind cache self-repair: a payload written
/// from a well-formed quote is never read back as anything else.
pub proof fn lemma_round_trip(q: QuoteModel)
    requires
        q.wf(),
    ensures
        dec(enc(q)) == Some(q),
{
    assert(q.wf() && enc(q) == enc(q));
    let m = choose|m: QuoteModel| m.wf() && enc(m) == enc(q);
    lemma_enc_injective(m, q);
}

/// Whatever a payload decodes to, it encodes back to that payload.
pub proof fn lemma_dec_sound(s: Seq<char>)
    ensures
        dec(s) matches Some(q) ==> q.wf() && enc(q) == s,
{
}

/// Write a quote in its payload form.
pub fn encode_quote(q: &ResponseQuote) -> (r: String)
    requires
        q@.wf(),
    ensures
        r@ == enc(q@),
{
    proof {
        lemma_pow10_values();
    }
    let mut out = String::new();
    push_padded(&mut out, q.id as u64, 10);
    let content_len = q.content.as_str().unicode_len();
    let author_len = q.author.as_str().unicode_len();
    let reference_len = q.reference.as_str().unicode_len();
    let language_len = q.language.as_str().unicode_len();
    push_padded(&mut out, content_len as u64, 8);
    push_padded(&mut out, author_len as u64, 8);
    push_padded(&mut out, reference_len as u64, 8);
    push_padded(&mut out, language_len as u64, 8);
    out.append(q.content.as_str());
    out.append(q.author.as_str());
    out.append(q.reference.as_str());
    out.append(q.language.as_str());
    proof {
        assert(out@ =~= enc(q@));
    }
    out
}

/// Read a payload back into a quote, or detect that it is corrupted.
pub fn decode_quote(s: &str) -> (r: Option<ResponseQuote>)
    ensures
        match r {
            Some(q) => q@.wf() && dec(s@) == Some(q@),
            None => dec(s@) is None,
        },
{
    proof {
        lemma_pow10_values();
    }
    let n = s.unicode_len();
    if n < 42 {
        proof {
            assert(dec(s@) is None) by {
                if exists|q: QuoteModel| q.wf() && enc(q) == s@ {
                    let q = choose|q: QuoteModel| q.wf() && enc(q) == s@;
                    lemma_enc_len(q);
                }
            }
        }
        return None;
    }
    let id_parsed = parse_padded(s, 0, 10);
    let l1_parsed = parse_padded(s, 10, 8);
    let l2_parsed = parse_padded(s, 18, 8);
    let l3_parsed = parse_padded(s, 26, 8);
    let l4_parsed = parse_padded(s, 34, 8);
    proof {
        if exists|q: QuoteModel| q.wf() && enc(q) == s@ {
            let q = choose|q: QuoteModel| q.wf() && enc(q) == s@;
            lemma_enc_parts(q);
            lemma_padded_digits(q.id, 10);
            lemma_padded_digits(q.content.len() as int, 8);
            lemma_padded_digits(q.author.len() as int, 8);
            lemma_padded_digits(q.reference.len() as int, 8);
            lemma_padded_digits(q.language.len() as int, 8);
        }
    }
    let (id_v, l1, l2, l3, l4) = match (id_parsed, l1_parsed, l2_parsed, l3_parsed, l4_parsed) {
        (Some(a), Some(b), Some(c), Some(d), Some(e)) => (a, b, c, d, e),
        _ => {
            return None;
        },
    };
    proof {
        if exists|q: QuoteModel| q.wf() && enc(q) == s@ {
            let q = choose|q: QuoteModel| q.wf() && enc(q) == s@;
            lemma_enc_parts(q);
            lemma_padded_injective(q.id, id_v as int, 10);
            lemma_padded_injective(q.content.len() as int, l1 as int, 8);
            lemma_padded_injective(q.author.len() as int, l2 as int, 8);
            lemma_padded_injective(q.reference.len() as int, l3 as int, 8);
            lemma_padded_injective(q.language.len() as int, l4 as int, 8);
            lemma_enc_len(q);
        }
    }
    if id_v > 0x7FFF_FFFF {
        return None;
    }
    let total: u64 = 42 + l1 + l2 + l3 + l4;
    if total != n as u64 {
        return None;
    }
    let o1: usize = 42;
    let o2: usize = o1 + l1 as usize;
    let o3: usize = o2 + l2 as usize;
    let o4: usize = o3 + l3 as usize;
    let content = s.substring_char(o1, o2).to_owned();
    let author = s.substring_char(o2, o3).to_owned();
    let reference = s.substring_char(o3, o4).to_owned();
    let language = s.substring_char(o4, n).to_owned();
    let q = ResponseQuote { id: id_v as i32, content, author, reference, language };
    proof {
        assert(enc(q@) =~= s@);
        lemma_round_trip(q@);
    }
    Some(q)
}

/// Read a reset marker back: the epoch second a twelve-digit text
/// denotes, or nothing for any other text.
pub fn parse_reset_marker(s: &str) -> (r: Option<i64>)
    ensures
        match r {
            Some(v) => 0 <= v < 1_000_000_000_000 && s@ == padded(v as int, 12),
            None => !exists|v: int| 0 <= v < 1_000_000_000_000 && s@ == #[trigger] padded(v, 12),
        },
{
    proof {
        lemma_pow10_values();
    }
    let n = s.unicode_len();
    proof {
        if exists|v: int| 0 <= v < 1_000_000_000_000 && s@ == #[trigger] padded(v, 12) {
            let v = choose|v: int| 0 <= v < 1_000_000_000_000 && s@ == #[trigger] padded(v, 12);
            lemma_padded_len(v, 12);
            lemma_padded_digits(v, 12);
        }
    }
    if n != 12 {
        return None;
    }
    match parse_padded(s, 0, 12) {
        Some(v) => {
            proof {
                assert(s@.subrange(0, 12) =~= s@);
            }
            Some(v as i64)
        },
        None => None,
    }
}

} // verus!
