//! Decoding of a packed environment block: a run of `NAME=VALUE` entries of
//! 16-bit code units, each ended by a null unit, the whole ended by an empty
//! entry (two nulls in a row).

use vstd::prelude::*;

verus! {

/// The null code unit that ends each entry.
pub const NUL: u16 = 0;

/// The code unit `=` that separates a name from its value.
pub const EQUALS: u16 = 0x3d;

/// Index of the first occurrence of `x` in `s`, or `s.len()` when `x` does
/// not occur.
pub open spec fn first_of(s: Seq<u16>, x: u16) -> int
    decreases s.len(),
{
    if s.len() == 0 || s[0] == x {
        0
    } else {
        1 + first_of(s.drop_first(), x)
    }
}

/// A decoded entry: the name and the value, as code units.
pub type Pair = (Seq<u16>, Seq<u16>);

/// One entry's text split at its first `=`; `None` for text with no `=`.
pub open spec fn decode_entry(e: Seq<u16>) -> Option<Pair> {
    let k = first_of(e, EQUALS);
    if k < e.len() {
        Some((e.subrange(0, k), e.subrange(k + 1, e.len() as int)))
    } else {
        None
    }
}

/// The entries of the block `b` that begin at `start`, in order. The scan
/// stops at an empty entry (the end of the block), and also where the view
/// ends before an entry's terminating null.
pub open spec fn entries_from(b: Seq<u16>, start: int) -> Seq<Pair>
    decreases b.len() - start
    via entries_from_decreases
{
    if start < 0 || start >= b.len() || b[start] == NUL {
        seq![]
    } else {
        let n = first_of(b.subrange(start, b.len() as int), NUL);
        if start + n >= b.len() {
            seq![]
        } else {
            let rest = entries_from(b, start + n + 1);
            match decode_entry(b.subrange(start, start + n)) {
                Some(p) => seq![p] + rest,
                None => rest,
            }
        }
    }
}

#[via_fn]
proof fn entries_from_decreases(b: Seq<u16>, start: int) {
    if start >= 0 && start < b.len() {
        lemma_first_of_bounds(b.subrange(start, b.len() as int), NUL);
    }
}

/// What a block decodes to: its entries from the first code unit on.
pub open spec fn parse(b: Seq<u16>) -> Seq<Pair> {
    entries_from(b, 0)
}

/// `first_of` is an index into `s` (or its length), at which `x` stands,
/// with no `x` before it.
pub proof fn lemma_first_of_bounds(s: Seq<u16>, x: u16)
    ensures
        0 <= first_of(s, x) <= s.len(),
        first_of(s, x) < s.len() ==> s[first_of(s, x)] == x,
        forall|j: int| 0 <= j < first_of(s, x) ==> s[j] != x,
    decreases s.len(),
{
    if s.len() > 0 && s[0] != x {
        lemma_first_of_bounds(s.drop_first(), x);
        assert forall|j: int| 0 <= j < first_of(s, x) implies s[j] != x by {
            if j > 0 {
                assert(s[j] == s.drop_first()[j - 1]);
            }
        }
    }
}

/// An index `k` with no `x` before it, at which `x` stands or `s` ends, is
/// `first_of(s, x)`.
pub proof fn lemma_first_of(s: Seq<u16>, x: u16, k: int)
    requires
        0 <= k <= s.len(),
        forall|j: int| 0 <= j < k ==> s[j] != x,
        k == s.len() || s[k] == x,
    ensures
        first_of(s, x) == k,
    decreases k,
{
    if k > 0 {
        let t = s.drop_first();
        assert forall|j: int| 0 <= j < k - 1 implies t[j] != x by {
            assert(t[j] == s[j + 1]);
        }
        lemma_first_of(t, x, k - 1);
    }
}

/// Index of the first null unit at or after `start`, or `block.len()` when
/// there is none.
pub fn next_null(block: &[u16], start: usize) -> (r: usize)
    requires
        start <= block@.len(),
    ensures
        r == start + first_of(block@.subrange(start as int, block@.len() as int), NUL),
{
    let mut pos: usize = start;
    while pos < block.len() && block[pos] != NUL
        invariant
            start <= pos <= block@.len(),
            forall|j: int| start <= j < pos ==> block@[j] != NUL,
        decreases block@.len() - pos,
    {
        pos = pos + 1;
    }
    proof {
        let s = block@.subrange(start as int, block@.len() as int);
        lemma_first_of(s, NUL, pos - start);
    }
    pos
}

/// Index of the first `=` in `block[start..end]`, if any.
pub fn next_equals(block: &[u16], start: usize, end: usize) -> (r: Option<usize>)
    requires
        start <= end <= block@.len(),
    ensures
        ({
            let k = first_of(block@.subrange(start as int, end as int), EQUALS);
            match r {
                Some(i) => start <= i < end && i == start + k,
                None => k == end - start,
            }
        }),
{
    let mut i: usize = start;
    while i < end
        invariant
            start <= i <= end <= block@.len(),
            forall|j: int| start <= j < i ==> block@[j] != EQUALS,
        decreases end - i,
    {
        if block[i] == EQUALS {
            proof {
                lemma_first_of(block@.subrange(start as int, end as int), EQUALS, i - start);
            }
            return Some(i);
        }
        i = i + 1;
    }
    proof {
        lemma_first_of(block@.subrange(start as int, end as int), EQUALS, end - start);
    }
    None
}

/// A copy of the code units `block[start..end]`, detached from the block.
pub fn to_wide(block: &[u16], start: usize, end: usize) -> (r: Vec<u16>)
    requires
        start <= end <= block@.len(),
    ensures
        r@ == block@.subrange(start as int, end as int),
{
    let mut out: Vec<u16> = Vec::new();
    let mut i: usize = start;
    while i < end
        invariant
            start <= i <= end <= block@.len(),
            out@ == block@.subrange(start as int, i as int),
        decreases end - i,
    {
        out.push(block[i]);
        i = i + 1;
        assert(out@ =~= block@.subrange(start as int, i as int));
    }
    out
}

/// Decodes the entries of an environment block, in block order, as
/// `(name, value)` pairs. An entry without `=` is left out; the scan stops
/// at the empty entry that ends the block and never reads beyond it, nor
/// beyond the end of `block`.
pub fn parse_environment(block: &[u16]) -> (r: Vec<(Vec<u16>, Vec<u16>)>)
    ensures
        r.deep_view() == parse(block@),
{
    let mut pairs: Vec<(Vec<u16>, Vec<u16>)> = Vec::new();
    let mut start: usize = 0;
    while start < block.len() && block[start] != NUL
        invariant
            start <= block@.len(),
            pairs.deep_view() + entries_from(block@, start as int) == parse(block@),
        decreases block@.len() - start,
    {
        let ghost b = block@;
        let ghost old_pairs = pairs.deep_view();
        proof {
            lemma_first_of_bounds(b.subrange(start as int, b.len() as int), NUL);
        }
        let end = next_null(block, start);
        if end == block.len() {
            assert(entries_from(b, start as int) =~= seq![]);
            assert(entries_from(b, block@.len() as int) =~= seq![]);
            assert(pairs.deep_view() =~= pairs.deep_view() + seq![]);
            start = block.len();
        } else {
            let ghost e = b.subrange(start as int, end as int);
            let ghost rest = entries_from(b, end + 1);
            match next_equals(block, start, end) {
                Some(eq) => {
                    let name = to_wide(block, start, eq);
                    let value = to_wide(block, eq + 1, end);
                    assert(name@ =~= e.subrange(0, eq - start));
                    assert(value@ =~= e.subrange(eq - start + 1, e.len() as int));
                    assert(name.deep_view() =~= name@);
                    assert(value.deep_view() =~= value@);
                    pairs.push((name, value));
                    assert(pairs.deep_view() =~= old_pairs.push((name@, value@)));
                    assert(old_pairs + entries_from(b, start as int) =~= pairs.deep_view() + rest);
                },
                None => {},
            }
            start = end + 1;
        }
    }
    assert(entries_from(block@, start as int) =~= seq![]);
    assert(pairs.deep_view() =~= pairs.deep_view() + seq![]);
    pairs
}

/// The packed encoding of a list of entry texts: each text followed by a
/// null unit, and one more null unit after the last.
pub open spec fn encode_entries(es: Seq<Seq<u16>>) -> Seq<u16>
    decreases es.len(),
{
    if es.len() == 0 {
        seq![NUL]
    } else {
        es[0] + seq![NUL] + encode_entries(es.drop_first())
    }
}

/// The text `NAME=VALUE` of a pair.
pub open spec fn join(p: Pair) -> Seq<u16> {
    p.0 + seq![EQUALS] + p.1
}

/// The entry texts of a list of pairs.
pub open spec fn entry_texts(ps: Seq<Pair>) -> Seq<Seq<u16>> {
    ps.map_values(|p: Pair| join(p))
}

/// The pairs that a list of entry texts decodes to, texts without `=`
/// left out.
pub open spec fn decode_entries(es: Seq<Seq<u16>>) -> Seq<Pair>
    decreases es.len(),
{
    if es.len() == 0 {
        seq![]
    } else {
        let rest = decode_entries(es.drop_first());
        match decode_entry(es[0]) {
            Some(p) => seq![p] + rest,
            None => rest,
        }
    }
}

/// An entry text as a block can hold it: not empty, and with no null unit.
pub open spec fn is_entry_text(e: Seq<u16>) -> bool {
    e.len() > 0 && forall|j: int| 0 <= j < e.len() ==> e[j] != NUL
}

/// A pair that survives encoding: a name with no `=` and no null unit, a
/// value with no null unit.
pub open spec fn is_encodable(p: Pair) -> bool {
    &&& forall|j: int| 0 <= j < p.0.len() ==> p.0[j] != NUL && p.0[j] != EQUALS
    &&& forall|j: int| 0 <= j < p.1.len() ==> p.1[j] != NUL
}

/// Scanning entries that start at `pre.len()`, in whatever surrounds them,
/// yields the decoded entries and nothing of what follows the end of the
/// block.
proof fn lemma_entries_of_encoding(pre: Seq<u16>, es: Seq<Seq<u16>>, tail: Seq<u16>)
    requires
        forall|i: int| 0 <= i < es.len() ==> is_entry_text(#[trigger] es[i]),
    ensures
        entries_from(pre + encode_entries(es) + tail, pre.len() as int) == decode_entries(es),
    decreases es.len(),
{
    let b = pre + encode_entries(es) + tail;
    let s = pre.len() as int;
    if es.len() == 0 {
        assert(b[s] == NUL);
    } else {
        let e0 = es[0];
        assert(is_entry_text(e0));
        let n = e0.len() as int;
        assert(b[s] == e0[0]);
        let from = b.subrange(s, b.len() as int);
        assert forall|j: int| 0 <= j < n implies from[j] != NUL by {
            assert(from[j] == e0[j]);
        }
        assert(from[n] == NUL);
        lemma_first_of(from, NUL, n);
        assert(b.subrange(s, s + n) =~= e0);
        let pre2 = pre + e0 + seq![NUL];
        let rest = es.drop_first();
        assert(b =~= pre2 + encode_entries(rest) + tail);
        assert forall|i: int| 0 <= i < rest.len() implies is_entry_text(#[trigger] rest[i]) by {
            assert(rest[i] == es[i + 1]);
        }
        lemma_entries_of_encoding(pre2, rest, tail);
    }
}

/// The text of an encodable pair decodes back to that pair.
proof fn lemma_decode_join(p: Pair)
    requires
        is_encodable(p),
    ensures
        decode_entry(join(p)) == Some(p),
        is_entry_text(join(p)),
{
    let e = join(p);
    let k = p.0.len() as int;
    assert forall|j: int| 0 <= j < k implies e[j] != EQUALS by {
        assert(e[j] == p.0[j]);
    }
    lemma_first_of(e, EQUALS, k);
    assert(e.subrange(0, k) =~= p.0);
    assert(e.subrange(k + 1, e.len() as int) =~= p.1);
    assert forall|j: int| 0 <= j < e.len() implies e[j] != NUL by {
        if j < k {
            assert(e[j] == p.0[j]);
        } else if j > k {
            assert(e[j] == p.1[j - k - 1]);
        }
    }
}

/// The texts of encodable pairs decode back to those pairs.
proof fn lemma_decode_texts(ps: Seq<Pair>)
    requires
        forall|i: int| 0 <= i < ps.len() ==> is_encodable(#[trigger] ps[i]),
    ensures
        decode_entries(entry_texts(ps)) == ps,
        forall|i: int| 0 <= i < ps.len() ==> is_entry_text(#[trigger] entry_texts(ps)[i]),
    decreases ps.len(),
{
    let es = entry_texts(ps);
    assert forall|i: int| 0 <= i < ps.len() implies is_entry_text(#[trigger] entry_texts(ps)[i]) by {
        lemma_decode_join(ps[i]);
    }
    if ps.len() > 0 {
        let rest = ps.drop_first();
        assert(es.drop_first() =~= entry_texts(rest));
        assert forall|i: int| 0 <= i < rest.len() implies is_encodable(#[trigger] rest[i]) by {
            assert(rest[i] == ps[i + 1]);
        }
        lemma_decode_texts(rest);
        lemma_decode_join(ps[0]);
        assert(seq![ps[0]] + rest =~= ps);
    }
}

/// Round trip: encoding well-formed `NAME=VALUE` entries and decoding the
/// block gives back exactly those pairs, one per entry, in order, each split
/// at the entry's first `=`.
pub proof fn lemma_round_trip(ps: Seq<Pair>)
    requires
        forall|i: int| 0 <= i < ps.len() ==> is_encodable(#[trigger] ps[i]),
    ensures
        parse(encode_entries(entry_texts(ps))) == ps,
{
    lemma_decode_texts(ps);
    let b = encode_entries(entry_texts(ps));
    lemma_entries_of_encoding(seq![], entry_texts(ps), seq![]);
    assert(seq![] + b + seq![] =~= b);
}

/// Termination: whatever follows the unit that ends a block has no effect
/// on what the block decodes to.
pub proof fn lemma_stops_at_end(es: Seq<Seq<u16>>, tail: Seq<u16>)
    requires
        forall|i: int| 0 <= i < es.len() ==> is_entry_text(#[trigger] es[i]),
    ensures
        parse(encode_entries(es) + tail) == parse(encode_entries(es)),
        parse(encode_entries(es)) == decode_entries(es),
{
    let b = encode_entries(es);
    lemma_entries_of_encoding(seq![], es, tail);
    lemma_entries_of_encoding(seq![], es, seq![]);
    assert(seq![] + b + tail =~= b + tail);
    assert(seq![] + b + seq![] =~= b);
}

/// Inserting a text with no `=` anywhere in a list of entry texts leaves
/// what the list decodes to unchanged.
proof fn lemma_decode_insert(es: Seq<Seq<u16>>, i: int, m: Seq<u16>)
    requires
        0 <= i <= es.len(),
        decode_entry(m) is None,
    ensures
        decode_entries(es.insert(i, m)) == decode_entries(es),
    decreases i,
{
    let ins = es.insert(i, m);
    if i == 0 {
        assert(ins.drop_first() =~= es);
    } else {
        assert(ins.drop_first() =~= es.drop_first().insert(i - 1, m));
        assert(ins[0] == es[0]);
        lemma_decode_insert(es.drop_first(), i - 1, m);
    }
}

/// Malformed entries are dropped: an entry with no `=`, placed anywhere
/// among well-formed entries, is absent from the decoded block, and every
/// other entry is still decoded.
pub proof fn lemma_malformed_dropped(ps: Seq<Pair>, i: int, m: Seq<u16>)
    requires
        forall|j: int| 0 <= j < ps.len() ==> is_encodable(#[trigger] ps[j]),
        0 <= i <= ps.len(),
        is_entry_text(m),
        forall|j: int| 0 <= j < m.len() ==> m[j] != EQUALS,
    ensures
        parse(encode_entries(entry_texts(ps).insert(i, m))) == ps,
{
    let es = entry_texts(ps);
    lemma_decode_texts(ps);
    lemma_first_of(m, EQUALS, m.len() as int);
    lemma_decode_insert(es, i, m);
    let ins = es.insert(i, m);
    assert forall|j: int| 0 <= j < ins.len() implies is_entry_text(#[trigger] ins[j]) by {
        if j < i {
            assert(ins[j] == es[j]);
        } else if j > i {
            assert(ins[j] == es[j - 1]);
        }
    }
    lemma_stops_at_end(ins, seq![]);
}

} // verus!
