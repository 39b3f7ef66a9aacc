//! Bulk remapping of thing types and special numbers across the map, and the report of values
//! the loaded definitions do not know.

use vstd::prelude::*;
use vstd::string::{StringExecFns, StringSliceAdditionalSpecFns};

use crate::things::{default_things, default_things_table, ThingType};

verus! {

/// What a remap pair renames.
#[derive(Debug, Clone, Copy, PartialEq, Eq, Structural)]
pub enum RemapKind {
    Thing,
    Texture,
    Flat,
    LineSpecial,
    SectorSpecial,
}

/// One `from -> to` rename, as typed by the user.
#[derive(Debug, Clone, PartialEq)]
pub struct RemapPair {
    pub from: String,
    pub to: String,
}

/// Value of a non-empty run of decimal digits.
pub open spec fn digits_value(s: Seq<char>) -> int
    decreases s.len(),
{
    if s.len() == 0 {
        0
    } else {
        digits_value(s.drop_last()) * 10 + (s.last() as int - '0' as int)
    }
}

pub open spec fn all_digits(s: Seq<char>) -> bool {
    forall|i: int| 0 <= i < s.len() ==> '0' <= #[trigger] s[i] <= '9'
}

/// `i32::from_str`: an optional `+` or `-`, then one or more ASCII digits, in range.
pub open spec fn decimal_i32(s: Seq<char>) -> Option<i32> {
    let neg = s.len() > 0 && s[0] == '-';
    let body = if s.len() > 0 && (s[0] == '-' || s[0] == '+') {
        s.skip(1)
    } else {
        s
    };
    if body.len() == 0 || !all_digits(body) {
        None
    } else {
        let v = if neg {
            -digits_value(body)
        } else {
            digits_value(body)
        };
        if i32::MIN <= v <= i32::MAX {
            Some(v as i32)
        } else {
            None
        }
    }
}

proof fn lemma_digits_value_prefix(t: Seq<char>, k: int)
    requires
        all_digits(t),
        0 <= k <= t.len(),
    ensures
        0 <= digits_value(t.take(k)) <= digits_value(t),
    decreases t.len(),
{
    if k < t.len() {
        let u = t.drop_last();
        assert(t.take(k) =~= u.take(k));
        assert(all_digits(u)) by {
            assert forall|i: int| 0 <= i < u.len() implies '0' <= #[trigger] u[i] <= '9' by {
                assert(u[i] == t[i]);
            }
        }
        lemma_digits_value_prefix(u, k);
        lemma_digits_value_prefix(u, u.len() as int);
        assert(u.take(u.len() as int) =~= u);
        assert('0' <= t[t.len() - 1] <= '9');
    } else {
        assert(t.take(k) =~= t);
        if t.len() > 0 {
            let u = t.drop_last();
            assert(all_digits(u)) by {
                assert forall|i: int| 0 <= i < u.len() implies '0' <= #[trigger] u[i] <= '9' by {
                    assert(u[i] == t[i]);
                }
            }
            lemma_digits_value_prefix(u, u.len() as int);
            assert(u.take(u.len() as int) =~= u);
            assert('0' <= t[t.len() - 1] <= '9');
        }
    }
}

/// `str::parse::<i32>`: an optional `+` or `-`, then one or more ASCII digits, in range; see
/// [`decimal_i32`].
fn parse_i32(s: &str) -> (v: Option<i32>)
    ensures
        v == decimal_i32(s@),
{
    let n: usize = s.unicode_len();
    if n == 0 {
        return None;
    }
    let c0: char = s.get_char(0);
    let neg: bool = c0 == '-';
    let start: usize = if c0 == '-' || c0 == '+' {
        1
    } else {
        0
    };
    let ghost body = if s@.len() > 0 && (s@[0] == '-' || s@[0] == '+') {
        s@.skip(1)
    } else {
        s@
    };
    assert(body =~= s@.subrange(start as int, n as int));
    if start == n {
        return None;
    }
    let mut mag: u64 = 0;
    let mut i: usize = start;
    while i < n
        invariant
            start <= i <= n,
            n == s@.len(),
            body == s@.subrange(start as int, n as int),
            body == (if s@.len() > 0 && (s@[0] == '-' || s@[0] == '+') {
                s@.skip(1)
            } else {
                s@
            }),
            neg == (s@.len() > 0 && s@[0] == '-'),
            all_digits(s@.subrange(start as int, i as int)),
            mag == digits_value(s@.subrange(start as int, i as int)),
            mag <= 0x8000_0000,
        decreases n - i,
    {
        let c: char = s.get_char(i);
        let ghost pre = s@.subrange(start as int, i as int);
        let ghost next = s@.subrange(start as int, i as int + 1);
        assert(next.drop_last() =~= pre);
        assert(body[i - start] == c);
        if !('0' <= c && c <= '9') {
            assert(!all_digits(body));
            return None;
        }
        let d: u64 = (c as u32 - '0' as u32) as u64;
        mag = mag * 10 + d;
        assert(all_digits(next)) by {
            assert forall|j: int| 0 <= j < next.len() implies '0' <= #[trigger] next[j] <= '9' by {
                if j < pre.len() {
                    assert(next[j] == pre[j]);
                }
            }
        }
        if mag > 0x8000_0000 {
            proof {
                if all_digits(body) {
                    assert(body.take(i + 1 - start) =~= next);
                    lemma_digits_value_prefix(body, i + 1 - start);
                }
            }
            return None;
        }
        i = i + 1;
    }
    assert(s@.subrange(start as int, n as int) =~= body);
    if neg {
        if mag == 0x8000_0000 {
            Some(i32::MIN)
        } else {
            Some(-(mag as i32))
        }
    } else if mag > 0x7fff_ffff {
        None
    } else {
        Some(mag as i32)
    }
}

/// `fields` with every `from` replaced by `to`.
pub open spec fn rename<T>(fields: Seq<T>, from: T, to: T) -> Seq<T> {
    Seq::new(fields.len(), |i: int| if fields[i] == from { to } else { fields[i] })
}

/// How many of `fields` equal `v`.
pub open spec fn occurrences<T>(fields: Seq<T>, v: T) -> nat
    decreases fields.len(),
{
    if fields.len() == 0 {
        0
    } else {
        occurrences(fields.drop_last(), v) + if fields.last() == v { 1nat } else { 0 }
    }
}

/// `fields` after the first `n` pairs, each a full pass, in pair order.
pub open spec fn rename_all<T>(fields: Seq<T>, pairs: Seq<(T, T)>, n: int) -> Seq<T>
    decreases n,
{
    if n <= 0 {
        fields
    } else {
        let before = rename_all(fields, pairs, n - 1);
        rename(before, pairs[n - 1].0, pairs[n - 1].1)
    }
}

/// Fields changed by the first `n` passes (a field changed by two passes counts twice).
pub open spec fn renamed_count<T>(fields: Seq<T>, pairs: Seq<(T, T)>, n: int) -> int
    decreases n,
{
    if n <= 0 {
        0
    } else {
        renamed_count(fields, pairs, n - 1) + occurrences(rename_all(fields, pairs, n - 1), pairs[n - 1].0)
    }
}

proof fn lemma_occurrences_bound<T>(fields: Seq<T>, v: T)
    ensures
        occurrences(fields, v) <= fields.len(),
    decreases fields.len(),
{
    if fields.len() > 0 {
        lemma_occurrences_bound(fields.drop_last(), v);
    }
}

proof fn lemma_renamed_count_bound<T>(fields: Seq<T>, pairs: Seq<(T, T)>, n: int)
    requires
        0 <= n,
    ensures
        rename_all(fields, pairs, n).len() == fields.len(),
        0 <= renamed_count(fields, pairs, n) <= n * fields.len(),
    decreases n,
{
    if n > 0 {
        lemma_renamed_count_bound(fields, pairs, n - 1);
        lemma_occurrences_bound(rename_all(fields, pairs, n - 1), pairs[n - 1].0);
        assert((n - 1) * fields.len() + fields.len() == n * fields.len()) by (nonlinear_arith);
    }
}

/// One full pass per pair, in pair order, so chained pairs (a->b then b->c) cascade a to c.
/// Returns how many field values were changed.
pub fn remap_values(fields: &mut Vec<i32>, pairs: &[(i32, i32)]) -> (changed: usize)
    requires
        pairs@.len() * old(fields)@.len() <= usize::MAX,
    ensures
        final(fields)@ == rename_all(old(fields)@, pairs@, pairs@.len() as int),
        changed == renamed_count(old(fields)@, pairs@, pairs@.len() as int),
{
    let ghost start = fields@;
    let mut changed: usize = 0;
    let mut p: usize = 0;
    while p < pairs.len()
        invariant
            pairs@.len() * start.len() <= usize::MAX,
            p <= pairs@.len(),
            fields@ == rename_all(start, pairs@, p as int),
            changed == renamed_count(start, pairs@, p as int),
        decreases pairs@.len() - p,
    {
        proof {
            lemma_renamed_count_bound(start, pairs@, p + 1);
            assert((p + 1) * start.len() <= pairs@.len() * start.len()) by (nonlinear_arith)
                requires p + 1 <= pairs@.len();
        }
        let (from, to): (i32, i32) = pairs[p];
        let ghost before = fields@;
        let mut i: usize = 0;
        while i < fields.len()
            invariant
                before.len() == fields@.len(),
                i <= fields@.len(),
                forall|k: int| 0 <= k < i ==> #[trigger] fields@[k] == rename(before, from, to)[k],
                forall|k: int| i <= k < fields@.len() ==> #[trigger] fields@[k] == before[k],
                changed == renamed_count(start, pairs@, p as int) + occurrences(
                    before.subrange(0, i as int),
                    from,
                ),
                renamed_count(start, pairs@, p as int) + occurrences(before, from) <= usize::MAX,
                before == rename_all(start, pairs@, p as int),
            decreases fields@.len() - i,
        {
            proof {
                assert(before.subrange(0, i + 1).drop_last() =~= before.subrange(0, i as int));
                lemma_occurrences_prefix(before, from, i + 1);
            }
            if fields[i] == from {
                fields.set(i, to);
                changed = changed + 1;
            }
            i = i + 1;
        }
        proof {
            assert(fields@ =~= rename(before, from, to));
            assert(before.subrange(0, before.len() as int) =~= before);
        }
        p = p + 1;
    }
    changed
}

proof fn lemma_occurrences_prefix<T>(s: Seq<T>, v: T, n: int)
    requires
        0 <= n <= s.len(),
    ensures
        occurrences(s.subrange(0, n), v) <= occurrences(s, v),
    decreases s.len() - n,
{
    if n < s.len() {
        lemma_occurrences_prefix(s, v, n + 1);
        assert(s.subrange(0, n + 1).drop_last() =~= s.subrange(0, n));
    } else {
        assert(s.subrange(0, n) =~= s);
    }
}

/// The bytes of each 8-byte lump name.
pub open spec fn name_views(names: Seq<[u8; 8]>) -> Seq<Seq<u8>> {
    names.map_values(|a: [u8; 8]| a@)
}

/// The bytes of each name pair.
pub open spec fn name_pair_views(pairs: Seq<([u8; 8], [u8; 8])>) -> Seq<(Seq<u8>, Seq<u8>)> {
    pairs.map_values(|p: ([u8; 8], [u8; 8])| (p.0@, p.1@))
}

fn same_name(a: &[u8; 8], b: &[u8; 8]) -> (same: bool)
    ensures
        same == (a@ == b@),
{
    let mut i: usize = 0;
    while i < 8
        invariant
            i <= 8,
            forall|k: int| 0 <= k < i ==> a@[k] == b@[k],
        decreases 8 - i,
    {
        if a[i] != b[i] {
            return false;
        }
        i = i + 1;
    }
    assert(a@ =~= b@);
    true
}

/// Apply texture or flat name pairs (8-byte lump names) to `fields`: one full pass per pair, in
/// pair order, so chained pairs cascade. Returns how many field values were changed.
pub fn remap_names(fields: &mut Vec<[u8; 8]>, pairs: &[([u8; 8], [u8; 8])]) -> (changed: usize)
    requires
        pairs@.len() * old(fields)@.len() <= usize::MAX,
    ensures
        name_views(final(fields)@) == rename_all(
            name_views(old(fields)@),
            name_pair_views(pairs@),
            pairs@.len() as int,
        ),
        changed == renamed_count(name_views(old(fields)@), name_pair_views(pairs@), pairs@.len() as int),
{
    let ghost start = name_views(fields@);
    let ghost pv = name_pair_views(pairs@);
    let mut changed: usize = 0;
    let mut p: usize = 0;
    while p < pairs.len()
        invariant
            pairs@.len() * start.len() <= usize::MAX,
            start.len() == fields@.len(),
            pv == name_pair_views(pairs@),
            p <= pairs@.len(),
            name_views(fields@) == rename_all(start, pv, p as int),
            changed == renamed_count(start, pv, p as int),
        decreases pairs@.len() - p,
    {
        proof {
            lemma_renamed_count_bound(start, pv, p + 1);
            assert((p + 1) * start.len() <= pairs@.len() * start.len()) by (nonlinear_arith)
                requires p + 1 <= pairs@.len();
        }
        let from: [u8; 8] = pairs[p].0;
        let to: [u8; 8] = pairs[p].1;
        assert(pv[p as int] == (from@, to@));
        let ghost before = name_views(fields@);
        let mut i: usize = 0;
        while i < fields.len()
            invariant
                before.len() == fields@.len(),
                i <= fields@.len(),
                forall|k: int| 0 <= k < i ==> #[trigger] fields@[k]@ == rename(before, from@, to@)[k],
                forall|k: int| i <= k < fields@.len() ==> #[trigger] fields@[k]@ == before[k],
                changed == renamed_count(start, pv, p as int) + occurrences(
                    before.subrange(0, i as int),
                    from@,
                ),
                renamed_count(start, pv, p as int) + occurrences(before, from@) <= usize::MAX,
                before == rename_all(start, pv, p as int),
            decreases fields@.len() - i,
        {
            proof {
                assert(before.subrange(0, i + 1).drop_last() =~= before.subrange(0, i as int));
                lemma_occurrences_prefix(before, from@, i + 1);
            }
            if same_name(&fields[i], &from) {
                fields.set(i, to);
                changed = changed + 1;
            }
            i = i + 1;
        }
        proof {
            assert(name_views(fields@) =~= rename(before, from@, to@));
            assert(before.subrange(0, before.len() as int) =~= before);
        }
        p = p + 1;
    }
    changed
}

/// The pairs whose both sides parse as integers, in order; the others are skipped.
pub open spec fn parsed_pairs(pairs: Seq<RemapPair>) -> Seq<(i32, i32)>
    decreases pairs.len(),
{
    if pairs.len() == 0 {
        Seq::empty()
    } else {
        let rest = parsed_pairs(pairs.drop_last());
        match (decimal_i32(pairs.last().from@), decimal_i32(pairs.last().to@)) {
            (Some(a), Some(b)) => rest.push((a, b)),
            _ => rest,
        }
    }
}

proof fn lemma_parsed_pairs_len(pairs: Seq<RemapPair>)
    ensures
        parsed_pairs(pairs).len() <= pairs.len(),
    decreases pairs.len(),
{
    if pairs.len() > 0 {
        lemma_parsed_pairs_len(pairs.drop_last());
    }
}

/// Apply integer remap pairs (thing types, line or sector specials) to `fields`; pairs with a
/// side that is not an integer are skipped. Returns how many field values were changed.
pub fn remap_i32(fields: &mut Vec<i32>, pairs: &[RemapPair]) -> (changed: usize)
    requires
        pairs@.len() * old(fields)@.len() <= usize::MAX,
    ensures
        final(fields)@ == rename_all(old(fields)@, parsed_pairs(pairs@), parsed_pairs(pairs@).len() as int),
        changed == renamed_count(old(fields)@, parsed_pairs(pairs@), parsed_pairs(pairs@).len() as int),
{
    let mut parsed: Vec<(i32, i32)> = Vec::new();
    let mut i: usize = 0;
    while i < pairs.len()
        invariant
            i <= pairs@.len(),
            parsed@ == parsed_pairs(pairs@.subrange(0, i as int)),
        decreases pairs@.len() - i,
    {
        proof {
            assert(pairs@.subrange(0, i + 1).drop_last() =~= pairs@.subrange(0, i as int));
        }
        match (parse_i32(pairs[i].from.as_str()), parse_i32(pairs[i].to.as_str())) {
            (Some(a), Some(b)) => parsed.push((a, b)),
            _ => {},
        }
        i = i + 1;
    }
    proof {
        assert(pairs@.subrange(0, pairs@.len() as int) =~= pairs@);
        lemma_parsed_pairs_len(pairs@);
        let n = old(fields)@.len();
        assert(parsed@.len() * n <= pairs@.len() * n) by (nonlinear_arith)
            requires parsed@.len() <= pairs@.len();
    }
    remap_values(fields, parsed.as_slice())
}

/// A single pass renames every occurrence of `from` and reports exactly that many changes.
pub proof fn lemma_single_pair_counts_matches(fields: Seq<i32>, from: i32, to: i32)
    ensures
        rename_all(fields, seq![(from, to)], 1) == rename(fields, from, to),
        renamed_count(fields, seq![(from, to)], 1) == occurrences(fields, from),
{
    assert(rename_all(fields, seq![(from, to)], 0) == fields);
    assert(renamed_count(fields, seq![(from, to)], 0) == 0);
    assert(seq![(from, to)][0] == (from, to));
}

proof fn lemma_rename_clears(fields: Seq<i32>, from: i32, to: i32)
    requires
        from != to,
    ensures
        occurrences(rename(fields, from, to), from) == 0,
    decreases fields.len(),
{
    if fields.len() > 0 {
        lemma_rename_clears(fields.drop_last(), from, to);
        assert(rename(fields, from, to).drop_last() =~= rename(fields.drop_last(), from, to));
    }
}

/// Applying a pair a second time finds nothing left to change (when it renames at all).
pub proof fn lemma_remap_idempotent(fields: Seq<i32>, from: i32, to: i32)
    requires
        from != to,
    ensures
        renamed_count(rename(fields, from, to), seq![(from, to)], 1) == 0,
        rename_all(rename(fields, from, to), seq![(from, to)], 1) == rename(fields, from, to),
{
    lemma_single_pair_counts_matches(rename(fields, from, to), from, to);
    lemma_rename_clears(fields, from, to);
    assert(rename(rename(fields, from, to), from, to) =~= rename(fields, from, to));
}

/// No pair renames a value to itself, and no pair's target is the source of the same or an
/// earlier pair: after the remap, none of its sources is left in the fields.
pub open spec fn settles<T>(pairs: Seq<(T, T)>) -> bool {
    forall|j: int, k: int| 0 <= j <= k < pairs.len() ==> #[trigger] pairs[k].1 != #[trigger] pairs[j].0
}

proof fn lemma_sources_gone<T>(fields: Seq<T>, pairs: Seq<(T, T)>, n: int)
    requires
        0 <= n <= pairs.len(),
        settles(pairs),
    ensures
        rename_all(fields, pairs, n).len() == fields.len(),
        forall|j: int| 0 <= j < n ==> !rename_all(fields, pairs, n).contains(#[trigger] pairs[j].0),
    decreases n,
{
    if n > 0 {
        lemma_sources_gone(fields, pairs, n - 1);
        let r = rename_all(fields, pairs, n - 1);
        let from = pairs[n - 1].0;
        let to = pairs[n - 1].1;
        assert forall|j: int| 0 <= j < n implies !rename_all(fields, pairs, n).contains(#[trigger] pairs[j].0) by {
            assert(pairs[n - 1].1 != pairs[j].0);
            if rename(r, from, to).contains(pairs[j].0) {
                let i = choose|i: int| 0 <= i < rename(r, from, to).len() && rename(r, from, to)[i] == pairs[j].0;
                if r[i] == from {
                } else {
                    assert(r[i] == pairs[j].0);
                    if j < n - 1 {
                        assert(r.contains(pairs[j].0));
                    } else {
                        assert(r[i] != from);
                    }
                }
            }
        }
    }
}

proof fn lemma_occurrences_absent<T>(fields: Seq<T>, v: T)
    requires
        !fields.contains(v),
    ensures
        occurrences(fields, v) == 0,
    decreases fields.len(),
{
    if fields.len() > 0 {
        assert(!fields.drop_last().contains(v)) by {
            if fields.drop_last().contains(v) {
                let i = choose|i: int| 0 <= i < fields.drop_last().len() && fields.drop_last()[i] == v;
                assert(fields[i] == v);
            }
        }
        lemma_occurrences_absent(fields.drop_last(), v);
        assert(fields[fields.len() - 1] == fields.last());
    }
}

proof fn lemma_remap_without_sources<T>(fields: Seq<T>, pairs: Seq<(T, T)>, n: int)
    requires
        0 <= n <= pairs.len(),
        forall|j: int| 0 <= j < n ==> !fields.contains(#[trigger] pairs[j].0),
    ensures
        rename_all(fields, pairs, n) == fields,
        renamed_count(fields, pairs, n) == 0,
    decreases n,
{
    if n > 0 {
        lemma_remap_without_sources(fields, pairs, n - 1);
        let from = pairs[n - 1].0;
        assert(!fields.contains(from));
        assert forall|i: int| 0 <= i < fields.len() implies fields[i] != from by {
            if fields[i] == from {
                assert(fields.contains(from));
            }
        }
        assert(rename(fields, from, pairs[n - 1].1) =~= fields);
        lemma_occurrences_absent(fields, from);
    }
}

/// Running the same remap a second time changes nothing and counts nothing, when the pairs
/// settle: no pair renames a value to itself and no pair's target is the source of the same or
/// an earlier pair (chains such as `a -> b`, `b -> c` settle; `a -> b`, `c -> a` does not).
pub proof fn lemma_remap_twice_changes_nothing<T>(fields: Seq<T>, pairs: Seq<(T, T)>)
    requires
        settles(pairs),
    ensures
        rename_all(rename_all(fields, pairs, pairs.len() as int), pairs, pairs.len() as int)
            == rename_all(fields, pairs, pairs.len() as int),
        renamed_count(rename_all(fields, pairs, pairs.len() as int), pairs, pairs.len() as int) == 0,
{
    let n = pairs.len() as int;
    lemma_sources_gone(fields, pairs, n);
    lemma_remap_without_sources(rename_all(fields, pairs, n), pairs, n);
}

/// The two-pair remap `a -> b`, then `b -> c`.
pub open spec fn chain(a: i32, b: i32, c: i32) -> Seq<(i32, i32)> {
    seq![(a, b), (b, c)]
}

/// Chained pairs cascade: after `a -> b` then `b -> c`, former `a`s and `b`s both read `c`,
/// and everything else is untouched.
pub proof fn lemma_chained_pairs_cascade(fields: Seq<i32>, a: i32, b: i32, c: i32)
    ensures
        forall|i: int|
            0 <= i < fields.len() ==> #[trigger] rename_all(fields, chain(a, b, c), 2)[i] == (
            if fields[i] == a || fields[i] == b {
                c
            } else {
                fields[i]
            }),
        renamed_count(fields, chain(a, b, c), 2) == occurrences(fields, a) + occurrences(
            rename(fields, a, b),
            b,
        ),
{
    let pairs = chain(a, b, c);
    assert(pairs[0] == (a, b) && pairs[1] == (b, c));
    assert(rename_all(fields, pairs, 0) == fields);
    assert(renamed_count(fields, pairs, 0) == 0);
    assert(rename_all(fields, pairs, 1) == rename(fields, a, b));
    assert(renamed_count(fields, pairs, 1) == occurrences(fields, a));
}

// ---------------------------------------------------------------------------------------------
// Unknown-value report.

/// Strict lexicographic order on byte strings (a proper prefix comes first), the order of
/// `String`'s `Ord`.
pub open spec fn lex_lt(a: Seq<u8>, b: Seq<u8>) -> bool
    decreases a.len(),
{
    if a.len() == 0 {
        b.len() > 0
    } else if b.len() == 0 {
        false
    } else if a[0] != b[0] {
        a[0] < b[0]
    } else {
        lex_lt(a.drop_first(), b.drop_first())
    }
}

/// The UTF-8 bytes of a text, which `String` compares by.
pub open spec fn text_bytes(t: Seq<char>) -> Seq<u8> {
    vstd::utf8::encode_utf8(t)
}

pub(crate) proof fn lemma_lex_irreflexive(a: Seq<u8>)
    ensures
        !lex_lt(a, a),
    decreases a.len(),
{
    if a.len() > 0 {
        lemma_lex_irreflexive(a.drop_first());
    }
}

pub(crate) proof fn lemma_lex_transitive(a: Seq<u8>, b: Seq<u8>, c: Seq<u8>)
    requires
        lex_lt(a, b),
        lex_lt(b, c),
    ensures
        lex_lt(a, c),
    decreases a.len(),
{
    if a.len() > 0 && b.len() > 0 && c.len() > 0 && a[0] == b[0] && b[0] == c[0] {
        lemma_lex_transitive(a.drop_first(), b.drop_first(), c.drop_first());
    }
}

pub(crate) proof fn lemma_lex_total(a: Seq<u8>, b: Seq<u8>)
    requires
        a != b,
    ensures
        lex_lt(a, b) || lex_lt(b, a),
    decreases a.len(),
{
    if a.len() > 0 && b.len() > 0 && a[0] == b[0] {
        if a.drop_first() == b.drop_first() {
            assert(a =~= seq![a[0]] + a.drop_first());
            assert(b =~= seq![b[0]] + b.drop_first());
        }
        lemma_lex_total(a.drop_first(), b.drop_first());
    } else if a.len() == 0 && b.len() == 0 {
        assert(a =~= b);
    }
}

/// Two byte strings are equal or ordered one way.
pub(crate) proof fn lemma_lex_total_or_equal(a: Seq<u8>, b: Seq<u8>)
    ensures
        a == b || lex_lt(a, b) || lex_lt(b, a),
{
    if a != b {
        lemma_lex_total(a, b);
    }
}

pub(crate) proof fn lemma_lex_asymmetric(a: Seq<u8>, b: Seq<u8>)
    requires
        lex_lt(a, b),
    ensures
        !lex_lt(b, a),
{
    if lex_lt(b, a) {
        lemma_lex_transitive(a, b, a);
        lemma_lex_irreflexive(a);
    }
}

pub(crate) proof fn lemma_text_bytes_injective(a: Seq<char>, b: Seq<char>)
    requires
        text_bytes(a) == text_bytes(b),
    ensures
        a == b,
{
    vstd::utf8::encode_utf8_decode_utf8(a);
    vstd::utf8::encode_utf8_decode_utf8(b);
}

/// Whether `a` sorts strictly before `b`, comparing their bytes.
pub(crate) fn bytes_lt(a: &[u8], b: &[u8]) -> (lt: bool)
    ensures
        lt == lex_lt(a@, b@),
{
    let mut i: usize = 0;
    proof {
        assert(a@.skip(0) =~= a@);
        assert(b@.skip(0) =~= b@);
    }
    while i < a.len() && i < b.len()
        invariant
            i <= a@.len(),
            i <= b@.len(),
            a@.subrange(0, i as int) == b@.subrange(0, i as int),
            lex_lt(a@, b@) == lex_lt(a@.skip(i as int), b@.skip(i as int)),
        decreases a@.len() - i,
    {
        if a[i] != b[i] {
            return a[i] < b[i];
        }
        proof {
            assert(a@.skip(i as int).drop_first() =~= a@.skip(i + 1));
            assert(b@.skip(i as int).drop_first() =~= b@.skip(i + 1));
            assert(a@.subrange(0, i + 1) =~= a@.subrange(0, i as int).push(a@[i as int]));
            assert(b@.subrange(0, i + 1) =~= b@.subrange(0, i as int).push(b@[i as int]));
        }
        i = i + 1;
    }
    i < b.len()
}

/// Entries are in strictly increasing byte order (hence without repeats).
pub open spec fn strictly_sorted(texts: Seq<Seq<char>>) -> bool {
    forall|i: int, j: int|
        0 <= i < j < texts.len() ==> lex_lt(text_bytes(#[trigger] texts[i]), text_bytes(#[trigger] texts[j]))
}

/// The text of each string.
pub open spec fn string_texts(v: Seq<String>) -> Seq<Seq<char>> {
    v.map_values(|s: String| s@)
}

/// Deduplicate, then sort by the strings' byte order.
pub fn unique_sorted(values: Vec<String>) -> (out: Vec<String>)
    ensures
        strictly_sorted(string_texts(out@)),
        string_texts(out@).to_set() == string_texts(values@).to_set(),
{
    let mut out: Vec<String> = Vec::new();
    let ghost src = string_texts(values@);
    let mut i: usize = 0;
    while i < values.len()
        invariant
            src == string_texts(values@),
            i <= values@.len(),
            strictly_sorted(string_texts(out@)),
            string_texts(out@).to_set() == src.subrange(0, i as int).to_set(),
        decreases values@.len() - i,
    {
        let v: &String = &values[i];
        let ghost t = v@;
        let ghost texts = string_texts(out@);
        proof {
            assert(src.subrange(0, i + 1) =~= src.subrange(0, i as int).push(t));
            src.subrange(0, i as int).lemma_push_to_set_commute(t);
        }
        // Already present?
        let mut dup: bool = false;
        let mut k: usize = 0;
        while k < out.len()
            invariant_except_break
                !dup,
            invariant
                texts == string_texts(out@),
                t == v@,
                k <= out@.len(),
                forall|j: int| 0 <= j < k ==> texts[j] != t,
            ensures
                dup ==> texts.contains(t),
                !dup ==> !texts.contains(t),
            decreases out@.len() - k,
        {
            if out[k] == *v {
                dup = true;
                proof {
                    assert(texts[k as int] == t);
                }
                break;
            }
            k = k + 1;
        }
        if !dup {
            let vb: &[u8] = v.as_str().as_bytes();
            let mut pos: usize = 0;
            while pos < out.len()
                invariant
                    texts == string_texts(out@),
                    t == v@,
                    vb@ == text_bytes(t),
                    pos <= out@.len(),
                    !texts.contains(t),
                    forall|j: int| 0 <= j < pos ==> lex_lt(text_bytes(texts[j]), text_bytes(t)),
                ensures
                    pos <= out@.len(),
                    forall|j: int| 0 <= j < pos ==> lex_lt(text_bytes(texts[j]), text_bytes(t)),
                    pos < out@.len() ==> lex_lt(text_bytes(t), text_bytes(texts[pos as int])),
                decreases out@.len() - pos,
            {
                let ob: &[u8] = out[pos].as_str().as_bytes();
                if bytes_lt(vb, ob) {
                    break;
                }
                proof {
                    assert(texts[pos as int] != t);
                    if text_bytes(texts[pos as int]) == text_bytes(t) {
                        lemma_text_bytes_injective(texts[pos as int], t);
                    }
                    lemma_lex_total(text_bytes(texts[pos as int]), text_bytes(t));
                }
                pos = pos + 1;
            }
            out.insert(pos, v.clone());
            proof {
                let nt = string_texts(out@);
                assert(nt =~= texts.subrange(0, pos as int).push(t) + texts.subrange(
                    pos as int,
                    texts.len() as int,
                ));
                assert forall|a: int, b: int| 0 <= a < b < nt.len() implies lex_lt(
                    text_bytes(#[trigger] nt[a]),
                    text_bytes(#[trigger] nt[b]),
                ) by {
                    if a < pos && b == pos {
                    } else if a < pos && b > pos {
                        assert(nt[b] == texts[b - 1]);
                    } else if a == pos && b > pos {
                        assert(nt[b] == texts[b - 1]);
                        if b - 1 > pos {
                            lemma_lex_transitive(
                                text_bytes(t),
                                text_bytes(texts[pos as int]),
                                text_bytes(texts[b - 1]),
                            );
                        }
                    } else if b < pos {
                        assert(nt[a] == texts[a]);
                        assert(nt[b] == texts[b]);
                    } else {
                        assert(nt[a] == texts[a - 1]);
                        assert(nt[b] == texts[b - 1]);
                    }
                }
                assert(nt.to_set() =~= texts.to_set().insert(t)) by {
                    assert forall|x: Seq<char>| #[trigger] nt.contains(x) <==> texts.contains(x) || x == t by {
                        if texts.contains(x) {
                            let j = choose|j: int| 0 <= j < texts.len() && texts[j] == x;
                            if j < pos {
                                assert(nt[j] == x);
                            } else {
                                assert(nt[j + 1] == x);
                            }
                        }
                        if x == t {
                            assert(nt[pos as int] == x);
                        }
                        if nt.contains(x) {
                            let j = choose|j: int| 0 <= j < nt.len() && nt[j] == x;
                            if j < pos {
                                assert(texts[j] == x);
                            } else if j > pos {
                                assert(texts[j - 1] == x);
                            }
                        }
                    }
                }
            }
        } else {
            proof {
                assert(texts.to_set().insert(t) =~= texts.to_set());
            }
        }
        i = i + 1;
    }
    proof {
        assert(src.subrange(0, src.len() as int) =~= src);
    }
    out
}


/// The decimal digit `d` (`0..=9`) as a character.
pub open spec fn digit_char(d: int) -> char {
    if d == 0 { '0' } else if d == 1 { '1' } else if d == 2 { '2' } else if d == 3 { '3' }
    else if d == 4 { '4' } else if d == 5 { '5' } else if d == 6 { '6' } else if d == 7 { '7' }
    else if d == 8 { '8' } else { '9' }
}

/// Decimal digits of `n`, most significant first, without leading zeros (`0` is `"0"`).
pub open spec fn digit_chars(n: nat) -> Seq<char>
    decreases n,
{
    if n < 10 {
        seq![digit_char(n as int)]
    } else {
        digit_chars(n / 10).push(digit_char((n % 10) as int))
    }
}

/// How an integer is displayed: its decimal digits, after a `-` when negative.
pub open spec fn decimal_text(v: int) -> Seq<char> {
    if v < 0 {
        seq!['-'] + digit_chars((-v) as nat)
    } else {
        digit_chars(v as nat)
    }
}

/// The one-character text of decimal digit `d`.
fn digit_str(d: u64) -> (s: &'static str)
    requires
        d < 10,
    ensures
        s@ == seq![digit_char(d as int)],
{
    proof {
        reveal_strlit("0");
        reveal_strlit("1");
        reveal_strlit("2");
        reveal_strlit("3");
        reveal_strlit("4");
        reveal_strlit("5");
        reveal_strlit("6");
        reveal_strlit("7");
        reveal_strlit("8");
        reveal_strlit("9");
    }
    if d == 0 {
        "0"
    } else if d == 1 {
        "1"
    } else if d == 2 {
        "2"
    } else if d == 3 {
        "3"
    } else if d == 4 {
        "4"
    } else if d == 5 {
        "5"
    } else if d == 6 {
        "6"
    } else if d == 7 {
        "7"
    } else if d == 8 {
        "8"
    } else {
        "9"
    }
}

/// The decimal digits of `n`, most significant first.
pub(crate) fn digits_text(n: u64) -> (s: String)
    ensures
        s@ == digit_chars(n as nat),
    decreases n,
{
    if n < 10 {
        String::from_str(digit_str(n))
    } else {
        let mut s = digits_text(n / 10);
        s.append(digit_str(n % 10));
        assert(s@ =~= digit_chars((n / 10) as nat).push(digit_char((n % 10) as int)));
        s
    }
}

/// The decimal text of `v`: its digits, after a `-` when negative (as `i32::to_string` writes
/// it).
fn i32_text(v: i32) -> (s: String)
    ensures
        s@ == decimal_text(v as int),
{
    if v < 0 {
        proof {
            reveal_strlit("-");
        }
        let mag: u64 = (-(v as i64)) as u64;
        let digits = digits_text(mag);
        let mut s = String::from_str("-");
        s.append(digits.as_str());
        assert(s@ =~= seq!['-'] + digit_chars((-(v as int)) as nat));
        s
    } else {
        digits_text(v as u64)
    }
}

proof fn lemma_digit_char(d: int)
    requires
        0 <= d < 10,
    ensures
        '0' <= digit_char(d) <= '9',
        digit_char(d) as int - '0' as int == d,
{
}

proof fn lemma_digit_chars(n: nat)
    ensures
        digit_chars(n).len() > 0,
        all_digits(digit_chars(n)),
        digits_value(digit_chars(n)) == n,
    decreases n,
{
    if n >= 10 {
        lemma_digit_chars(n / 10);
        lemma_digit_char((n % 10) as int);
        let s = digit_chars(n);
        assert(s.drop_last() =~= digit_chars(n / 10));
        assert(s.last() == digit_char((n % 10) as int));
        assert((n / 10) * 10 + n % 10 == n);
        assert(digits_value(s) == digits_value(s.drop_last()) * 10 + (s.last() as int - '0' as int));
    } else {
        lemma_digit_char(n as int);
        let s = digit_chars(n);
        assert(s.drop_last() =~= Seq::<char>::empty());
        assert(digits_value(s.drop_last()) == 0);
        assert(digits_value(s) == digits_value(s.drop_last()) * 10 + (s.last() as int - '0' as int));
    }
}

/// Every number the report prints parses back to itself, so it can be typed as the `from`
/// side of a remap pair.
pub proof fn lemma_decimal_text_parses(v: i32)
    ensures
        decimal_i32(decimal_text(v as int)) == Some(v),
{
    if v < 0 {
        let d = digit_chars((-v) as nat);
        lemma_digit_chars((-v) as nat);
        assert((seq!['-'] + d).skip(1) =~= d);
        assert(d[0] != '-' && d[0] != '+');
    } else {
        lemma_digit_chars(v as nat);
        let d = digit_chars(v as nat);
        assert(d[0] != '-' && d[0] != '+');
    }
}

/// The values found in a map, by what they name: one entry per thing, per linedef, per sector,
/// per wall texture slot (empty slots as empty strings) and per floor or ceiling flat.
pub struct MapValues {
    pub thing_kinds: Vec<i32>,
    pub line_specials: Vec<i32>,
    pub sector_specials: Vec<i32>,
    pub wall_textures: Vec<String>,
    pub flats: Vec<String>,
}

/// The wall texture and flat names the loaded assets resolve.
pub struct AssetNames {
    pub textures: Vec<String>,
    pub flats: Vec<String>,
}

/// Whether a built-in thing has type `v`.
pub open spec fn default_kind_known(v: i32) -> bool {
    exists|i: int| 0 <= i < default_things_table().len() && #[trigger] default_things_table()[i].kind == v
}

/// Whether `v` is among the project's special definitions; no definitions, nothing is known.
pub open spec fn special_known(specials: Option<&[i32]>, v: i32) -> bool {
    match specials {
        Some(s) => s@.contains(v),
        None => false,
    }
}

/// Whether the report lists the number `v` under `kind` (things: not built in; specials:
/// non-zero and undefined).
pub open spec fn number_unknown(kind: RemapKind, v: i32, specials: Option<&[i32]>) -> bool {
    if kind is Thing {
        !default_kind_known(v)
    } else {
        v != 0 && !special_known(specials, v)
    }
}

/// The texts of the unknown numbers among `values`, in order of occurrence.
pub open spec fn unknown_number_texts(
    values: Seq<i32>,
    kind: RemapKind,
    specials: Option<&[i32]>,
) -> Seq<Seq<char>>
    decreases values.len(),
{
    if values.len() == 0 {
        Seq::empty()
    } else {
        let rest = unknown_number_texts(values.drop_last(), kind, specials);
        if number_unknown(kind, values.last(), specials) {
            rest.push(decimal_text(values.last() as int))
        } else {
            rest
        }
    }
}

/// The non-empty names among `names` that `known` lacks, in order of occurrence.
pub open spec fn unknown_name_texts(names: Seq<Seq<char>>, known: Seq<Seq<char>>) -> Seq<Seq<char>>
    decreases names.len(),
{
    if names.len() == 0 {
        Seq::empty()
    } else {
        let rest = unknown_name_texts(names.drop_last(), known);
        if names.last().len() > 0 && !known.contains(names.last()) {
            rest.push(names.last())
        } else {
            rest
        }
    }
}

/// What [`collect_unknown`] reports, as a set of texts.
pub open spec fn unknown_report(
    map: &MapValues,
    kind: RemapKind,
    assets: Option<&AssetNames>,
    specials: Option<&[i32]>,
) -> Set<Seq<char>> {
    match kind {
        RemapKind::Thing => unknown_number_texts(map.thing_kinds@, kind, specials).to_set(),
        RemapKind::LineSpecial => unknown_number_texts(map.line_specials@, kind, specials).to_set(),
        RemapKind::SectorSpecial => unknown_number_texts(map.sector_specials@, kind, specials).to_set(),
        RemapKind::Texture => match assets {
            Some(a) => unknown_name_texts(string_texts(map.wall_textures@), string_texts(a.textures@)).to_set(),
            None => Set::empty(),
        },
        RemapKind::Flat => match assets {
            Some(a) => unknown_name_texts(string_texts(map.flats@), string_texts(a.flats@)).to_set(),
            None => Set::empty(),
        },
    }
}

/// Whether a built-in thing has type `v`.
fn is_default_kind(v: i32) -> (known: bool)
    ensures
        known == default_kind_known(v),
{
    let things: Vec<ThingType> = default_things();
    let mut i: usize = 0;
    while i < things.len()
        invariant
            things@ == default_things_table(),
            i <= things@.len(),
            forall|j: int| 0 <= j < i ==> things@[j].kind != v,
        decreases things@.len() - i,
    {
        if things[i].kind == v {
            return true;
        }
        i = i + 1;
    }
    false
}

/// Whether `v` is among the project's special definitions; no definitions, nothing is known.
fn known_special(specials: Option<&[i32]>, v: i32) -> (known: bool)
    ensures
        known == special_known(specials, v),
{
    match specials {
        Some(s) => {
            let mut i: usize = 0;
            while i < s.len()
                invariant
                    specials == Some(s),
                    i <= s@.len(),
                    forall|j: int| 0 <= j < i ==> s@[j] != v,
                decreases s@.len() - i,
            {
                if s[i] == v {
                    proof {
                        assert(s@[i as int] == v);
                        assert(s@.contains(v));
                    }
                    return true;
                }
                i = i + 1;
            }
            false
        },
        None => false,
    }
}

/// The unknown numbers among `values`, as text, one per occurrence.
fn unknown_numbers(values: &Vec<i32>, kind: RemapKind, specials: Option<&[i32]>) -> (texts: Vec<
    String,
>)
    ensures
        string_texts(texts@) == unknown_number_texts(values@, kind, specials),
{
    let mut texts: Vec<String> = Vec::new();
    let mut i: usize = 0;
    while i < values.len()
        invariant
            i <= values@.len(),
            string_texts(texts@) == unknown_number_texts(values@.subrange(0, i as int), kind, specials),
        decreases values@.len() - i,
    {
        proof {
            assert(values@.subrange(0, i + 1).drop_last() =~= values@.subrange(0, i as int));
        }
        let v: i32 = values[i];
        let keep: bool = if kind == RemapKind::Thing {
            !is_default_kind(v)
        } else {
            v != 0 && !known_special(specials, v)
        };
        if keep {
            let t = i32_text(v);
            texts.push(t);
        }
        proof {
            assert(string_texts(texts@) =~= unknown_number_texts(values@.subrange(0, i + 1), kind, specials));
        }
        i = i + 1;
    }
    proof {
        assert(values@.subrange(0, values@.len() as int) =~= values@);
    }
    texts
}

/// The non-empty names among `names` that `known` lacks, one per occurrence.
fn unknown_names(names: &Vec<String>, known: &Vec<String>) -> (texts: Vec<String>)
    ensures
        string_texts(texts@) == unknown_name_texts(string_texts(names@), string_texts(known@)),
{
    let mut texts: Vec<String> = Vec::new();
    let ghost kt = string_texts(known@);
    let ghost nt = string_texts(names@);
    let mut i: usize = 0;
    while i < names.len()
        invariant
            kt == string_texts(known@),
            nt == string_texts(names@),
            i <= names@.len(),
            string_texts(texts@) == unknown_name_texts(nt.subrange(0, i as int), kt),
        decreases names@.len() - i,
    {
        proof {
            assert(nt.subrange(0, i + 1).drop_last() =~= nt.subrange(0, i as int));
            assert(nt.subrange(0, i + 1).last() == names@[i as int]@);
        }
        let name: &String = &names[i];
        let mut found: bool = false;
        let mut k: usize = 0;
        while k < known.len()
            invariant_except_break
                !found,
            invariant
                kt == string_texts(known@),
                k <= known@.len(),
                forall|j: int| 0 <= j < k ==> kt[j] != name@,
            ensures
                found == kt.contains(name@),
            decreases known@.len() - k,
        {
            if known[k] == *name {
                found = true;
                proof {
                    assert(kt[k as int] == name@);
                }
                break;
            }
            k = k + 1;
        }
        if !name.as_str().is_empty() && !found {
            texts.push(name.clone());
        }
        proof {
            assert(string_texts(texts@) =~= unknown_name_texts(nt.subrange(0, i + 1), kt));
        }
        i = i + 1;
    }
    proof {
        assert(nt.subrange(0, nt.len() as int) =~= nt);
    }
    texts
}

/// Values of `kind` in the map that the loaded assets (wall textures, flats) or the special
/// definitions do not know, without repeats and in byte order. Without assets no texture or
/// flat is reported.
pub fn collect_unknown(
    map: &MapValues,
    kind: RemapKind,
    assets: Option<&AssetNames>,
    specials: Option<&[i32]>,
) -> (out: Vec<String>)
    ensures
        strictly_sorted(string_texts(out@)),
        string_texts(out@).to_set() == unknown_report(map, kind, assets, specials),
{
    let found: Vec<String> = match kind {
        RemapKind::Thing => unknown_numbers(&map.thing_kinds, kind, specials),
        RemapKind::LineSpecial => unknown_numbers(&map.line_specials, kind, specials),
        RemapKind::SectorSpecial => unknown_numbers(&map.sector_specials, kind, specials),
        RemapKind::Texture => match assets {
            Some(a) => unknown_names(&map.wall_textures, &a.textures),
            None => {
                proof {
                    assert(string_texts(Seq::<String>::empty()).to_set() =~= Set::empty());
                }
                Vec::new()
            },
        },
        RemapKind::Flat => match assets {
            Some(a) => unknown_names(&map.flats, &a.flats),
            None => {
                proof {
                    assert(string_texts(Seq::<String>::empty()).to_set() =~= Set::empty());
                }
                Vec::new()
            },
        },
    };
    unique_sorted(found)
}

/// Once the special definitions cover every non-zero special in the map, the report of unknown
/// specials is empty.
pub proof fn lemma_covered_specials_not_reported(values: Seq<i32>, kind: RemapKind, defs: &[i32])
    requires
        kind is LineSpecial || kind is SectorSpecial,
        forall|i: int| 0 <= i < values.len() && values[i] != 0 ==> defs@.contains(#[trigger] values[i]),
    ensures
        unknown_number_texts(values, kind, Some(defs)).len() == 0,
    decreases values.len(),
{
    if values.len() > 0 {
        let rest = values.drop_last();
        assert forall|i: int| 0 <= i < rest.len() && rest[i] != 0 implies defs@.contains(
            #[trigger] rest[i],
        ) by {
            assert(rest[i] == values[i]);
        }
        lemma_covered_specials_not_reported(rest, kind, defs);
        assert(values.last() == values[values.len() - 1]);
    }
}

} // verus!
