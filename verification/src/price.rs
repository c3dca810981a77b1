//! Approximate price resolution: a free-text model name is matched against a
//! reference table of (name, price) pairs by the smallest edit distance
//! between a reference name and any whitespace token of the query.

use vstd::prelude::*;

use crate::text::{scaled_milli_of, split_tokens, tokens, parse_scaled};
use crate::PRICE_UNRESOLVED;

verus! {

/// One row of the reference price table.
pub struct PriceEntry {
    pub name: Vec<u8>,
    /// Price in milli-units, or `PRICE_UNRESOLVED` when the source field was
    /// not a numeral.
    pub price_milli: u64,
}

/// Levenshtein edit distance: the least number of single-element insertions,
/// deletions and substitutions that turn `a` into `b`.
pub open spec fn lev(a: Seq<u8>, b: Seq<u8>) -> nat
    decreases a.len() + b.len(),
{
    if a.len() == 0 {
        b.len()
    } else if b.len() == 0 {
        a.len()
    } else {
        let del = lev(a.drop_first(), b) + 1;
        let ins = lev(a, b.drop_first()) + 1;
        let sub = lev(a.drop_first(), b.drop_first()) + if a[0] == b[0] {
            0nat
        } else {
            1nat
        };
        min_nat(del, min_nat(ins, sub))
    }
}

pub open spec fn min_nat(a: nat, b: nat) -> nat {
    if a < b {
        a
    } else {
        b
    }
}

/// Relies on `levenshtein::levenshtein`, which computes the Levenshtein
/// distance between two strings; each input byte is decoded as one character,
/// so the character-level distance equals the byte-level distance.
#[verifier::external_body]
fn edit_distance(a: &Vec<u8>, b: &Vec<u8>) -> (r: usize)
    ensures
        r == lev(a@, b@),
{
    let sa: String = a.iter().map(|&x| x as char).collect();
    let sb: String = b.iter().map(|&x| x as char).collect();
    levenshtein::levenshtein(&sa, &sb)
}

/// Smallest edit distance between a reference name and any of the tokens.
pub open spec fn min_tok_dist(rname: Seq<u8>, toks: Seq<Seq<u8>>) -> nat
    decreases toks.len(),
{
    if toks.len() == 0 {
        0
    } else if toks.len() == 1 {
        lev(rname, toks[0])
    } else {
        min_nat(min_tok_dist(rname, toks.drop_last()), lev(rname, toks.last()))
    }
}

/// Index of the table entry whose token distance is smallest among the first
/// `n` entries; on ties the earlier entry wins.
pub open spec fn best_entry(toks: Seq<Seq<u8>>, table: Seq<PriceEntry>, n: int) -> int
    decreases n,
{
    if n <= 1 {
        0
    } else {
        let p = best_entry(toks, table, n - 1);
        if min_tok_dist(table[n - 1].name@, toks) < min_tok_dist(table[p].name@, toks) {
            n - 1
        } else {
            p
        }
    }
}

/// The resolved price of a name: the price of the reference entry closest in
/// edit distance to some token of the name.  A name without tokens, or an
/// empty table, resolves to the unresolved sentinel.
pub open spec fn resolve_spec(name: Seq<u8>, table: Seq<PriceEntry>) -> u64 {
    if tokens(name).len() == 0 || table.len() == 0 {
        PRICE_UNRESOLVED
    } else {
        table[best_entry(tokens(name), table, table.len() as int)].price_milli
    }
}

/// Smallest edit distance between one reference name and any token.
#[verifier::loop_isolation(false)]
fn token_distance(rname: &Vec<u8>, toks: &Vec<Vec<u8>>) -> (d: usize)
    requires
        toks@.len() > 0,
    ensures
        d == min_tok_dist(rname@, toks.deep_view()),
{
    let ghost dv = toks.deep_view();
    let mut d = edit_distance(rname, &toks[0]);
    assert(dv[0] =~= toks@[0]@);
    assert(dv.take(1) =~= seq![dv[0]]);
    assert(d == min_tok_dist(rname@, dv.take(1)));
    let mut k: usize = 1;
    while k < toks.len()
        invariant
            1 <= k <= dv.len(),
            d == min_tok_dist(rname@, dv.take(k as int)),
        decreases dv.len() - k,
    {
        let dk = edit_distance(rname, &toks[k]);
        proof {
            assert(dv[k as int] =~= toks@[k as int]@);
            assert(dv.take(k + 1).drop_last() =~= dv.take(k as int));
            assert(dv.take(k + 1).last() == dv[k as int]);
        }
        if dk < d {
            d = dk;
        }
        k += 1;
    }
    assert(dv.take(dv.len() as int) =~= dv);
    d
}

/// Resolves an approximate price for a free-text name against the reference
/// table: the entry with the globally smallest token distance wins, earlier
/// entries winning ties.
#[verifier::loop_isolation(false)]
pub fn resolve(name: &[u8], table: &Vec<PriceEntry>) -> (r: u64)
    ensures
        r == resolve_spec(name@, table@),
{
    let toks = split_tokens(name);
    let ghost dv = toks.deep_view();
    if toks.len() == 0 || table.len() == 0 {
        return PRICE_UNRESOLVED;
    }
    let mut best_i: usize = 0;
    let mut best_d = token_distance(&table[0].name, &toks);
    let mut e: usize = 1;
    while e < table.len()
        invariant
            1 <= e <= table@.len(),
            best_i < e,
            best_i == best_entry(dv, table@, e as int),
            best_d == min_tok_dist(table@[best_i as int].name@, dv),
        decreases table@.len() - e,
    {
        let d = token_distance(&table[e].name, &toks);
        if d < best_d {
            best_i = e;
            best_d = d;
        }
        e += 1;
    }
    table[best_i].price_milli
}

/// Reads a price field of the reference table: a numeral becomes its
/// milli-value, anything else the unresolved sentinel.
pub fn price_of_field(s: &[u8]) -> (r: u64)
    ensures
        r == price_field_spec(s@),
{
    match parse_scaled(s) {
        Some(v) => v,
        None => PRICE_UNRESOLVED,
    }
}

/// The price recorded for a reference-table field.
pub open spec fn price_field_spec(s: Seq<u8>) -> u64 {
    match scaled_milli_of(s) {
        Some(v) => v,
        None => PRICE_UNRESOLVED,
    }
}

} // verus!
