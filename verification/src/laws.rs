//! Properties of the library that span its functions.
use crate::extract::{keys_leaks, probes_leak_set, Probe};
use crate::leak::{contains_result, is_sub_spec, item_found, keys_found, lemma_keys_found_facts, value_found};
use crate::extract::{flow_leaks, record_probes, record_sites, site_probes, sites_probes, FlowSite};
use crate::data::{CryptRecordModel, Record, Response};
use crate::db::{leak_set, Leak};
use crate::report::{body_diffs, header_diffs};
use crate::strset::{key_set, string_set};
use crate::results::{compares, LeakComparison};
use crate::text::string_views;
use crate::data::{insert_by_timestamp, is_crypto_event, remaining_events, sort_by_timestamp, strip_crypto_events, swap_removed, CryptCallModel};
use crate::events::Events;
use vstd::seq_lib::lemma_multiset_commutative;
use vstd::multiset::Multiset;
use crate::leak::{hex_char, hex_decode_from, hex_text, HexOutcome};
use crate::external::{hex_digit_value, hex_digits_value, is_hex_digit, radix16_u8_value};
use crate::session::{is_white_space, leading_ws, trailing_ws, trim_spec};
use vstd::utf8::{is_char_boundary, is_char_boundary_iff_not_is_continuation_byte, is_char_boundary_start_end_of_seq, valid_utf8};
use vstd::prelude::*;

verus! {

/// The empty needle occurs in every haystack, and every haystack occurs in
/// itself.
pub proof fn lemma_is_sub_trivial(h: Seq<u8>)
    ensures
        is_sub_spec(h, seq![]),
        is_sub_spec(h, h),
{
    let e: Seq<u8> = seq![];
    assert(h.subrange(0, 0 + e.len() as int) =~= e);
    assert(h.subrange(0, 0 + h.len() as int) =~= h);
}

/// A needle found in a haystack is still found when bytes are added around
/// the haystack.
pub proof fn lemma_is_sub_extend(a: Seq<u8>, h: Seq<u8>, b: Seq<u8>, n: Seq<u8>)
    requires
        is_sub_spec(h, n),
    ensures
        is_sub_spec(a + h + b, n),
{
    let i = choose|i: int| 0 <= i <= h.len() - n.len() && #[trigger] h.subrange(i, i + n.len()) == n;
    let big = a + h + b;
    assert(big.subrange(a.len() + i, a.len() + i + n.len()) =~= h.subrange(i, i + n.len()));
}

/// What only one set holds, what only the other holds, and what both hold
/// split the two sets: each set is its own part and the common part, the
/// parts do not overlap, and (for finite sets) the sizes add up.
pub proof fn lemma_comparison_partitions(a: Set<Seq<char>>, b: Set<Seq<char>>)
    requires
        a.finite(),
        b.finite(),
    ensures
        a.difference(b) + a.intersect(b) == a,
        b.difference(a) + a.intersect(b) == b,
        a.difference(b).disjoint(a.intersect(b)),
        b.difference(a).disjoint(a.intersect(b)),
        a.difference(b).disjoint(b.difference(a)),
        a.difference(b).len() + a.intersect(b).len() == a.len(),
        b.difference(a).len() + a.intersect(b).len() == b.len(),
{
    assert(a.difference(b) + a.intersect(b) =~= a);
    assert(b.difference(a) + a.intersect(b) =~= b);
    vstd::set_lib::lemma_set_disjoint_lens(a.difference(b), a.intersect(b));
    vstd::set_lib::lemma_set_disjoint_lens(b.difference(a), a.intersect(b));
}

/// Only the names of leak items are ever found.
pub proof fn lemma_found_names_are_items(entries: Seq<(Seq<char>, Seq<Seq<u8>>)>, chunk: Seq<u8>, k: int)
    requires
        0 <= k < keys_found(entries, chunk).len(),
    ensures
        exists|e: int| 0 <= e < entries.len() && #[trigger] entries[e].0 == keys_found(entries, chunk)[k],
    decreases entries.len(),
{
    let rest = keys_found(entries.drop_last(), chunk);
    if k < rest.len() {
        lemma_found_names_are_items(entries.drop_last(), chunk, k);
        let e = choose|e: int| 0 <= e < entries.drop_last().len() && #[trigger] entries.drop_last()[e].0 == rest[k];
        assert(entries[e] == entries.drop_last()[e]);
    } else {
        assert(entries[entries.len() - 1].0 == keys_found(entries, chunk)[k]);
    }
}

/// With no leak items, no chunk holds a leak.
pub proof fn lemma_no_items_no_leaks(probes: Seq<Probe>, mimes: Seq<Seq<char>>)
    ensures
        probes_leak_set(seq![], probes, mimes) == Set::<(Seq<char>, bool, bool, i32)>::empty(),
    decreases probes.len(),
{
    if probes.len() > 0 {
        lemma_no_items_no_leaks(probes.drop_last(), mimes.drop_last());
        let p = probes.last();
        let found = contains_result(seq![], p.data, p.unarchive, mimes.last());
        assert(found.len() == 0);
        assert(keys_leaks(found, p.is_send, p.is_encrypted) =~= Set::empty());
        assert(probes_leak_set(seq![], probes, mimes) =~= Set::empty());
    }
}

/// When every header pair and body of the HTTP/3 requests was also seen
/// over HTTP/2, there is no difference to report.
pub proof fn lemma_nothing_new_nothing_reported(
    p2: Set<(Seq<char>, Seq<char>)>,
    p3: Set<(Seq<char>, Seq<char>)>,
    b2: Set<Seq<char>>,
    b3: Set<Seq<char>>,
)
    requires
        p3.subset_of(p2),
        b3.subset_of(b2),
    ensures
        header_diffs(p2, p3) == Set::<(crate::report::DiffType, Seq<char>, Set<Seq<char>>)>::empty(),
        body_diffs(b2, b3) == Set::<(crate::report::DiffType, Seq<char>, Set<Seq<char>>)>::empty(),
{
    assert forall|d: (crate::report::DiffType, Seq<char>, Set<Seq<char>>)| !header_diffs(p2, p3).contains(d) by {
        if key_set(p3).contains(d.1) {
            let v = choose|v: Seq<char>| p3.contains((d.1, v));
            assert(p2.contains((d.1, v)));
            assert(key_set(p2).contains(d.1));
        }
    }
    assert(header_diffs(p2, p3) =~= Set::empty());
    assert(body_diffs(b2, b3) =~= Set::empty());
}

/// The calls are in time order.
pub open spec fn sorted_by_time(s: Seq<CryptCallModel>) -> bool {
    forall|i: int, j: int| 0 <= i < j < s.len() ==> s[i].timestamp <= s[j].timestamp
}

proof fn lemma_insert_by_timestamp(sorted: Seq<CryptCallModel>, x: CryptCallModel)
    requires
        sorted_by_time(sorted),
    ensures
        sorted_by_time(insert_by_timestamp(sorted, x)),
        insert_by_timestamp(sorted, x).to_multiset() == sorted.to_multiset().insert(x),
    decreases sorted.len(),
{
    broadcast use vstd::seq_lib::group_to_multiset_ensures;

    if sorted.len() == 0 {
        assert(seq![x] =~= Seq::<CryptCallModel>::empty().push(x));
    } else if sorted.last().timestamp <= x.timestamp {
    } else {
        let init = sorted.drop_last();
        let last = sorted.last();
        assert(sorted_by_time(init));
        lemma_insert_by_timestamp(init, x);
        let r = insert_by_timestamp(init, x);
        assert forall|k: int| 0 <= k < r.len() implies #[trigger] r[k].timestamp <= last.timestamp by {
            assert(r.to_multiset().count(r[k]) > 0);
            if r[k] != x {
                assert(init.to_multiset().count(r[k]) > 0);
                assert(init.contains(r[k]));
                let a = choose|a: int| 0 <= a < init.len() && init[a] == r[k];
                assert(sorted[a] == init[a]);
            }
        }
        assert(init.push(last) =~= sorted);
        assert(r.push(last).to_multiset() =~= sorted.to_multiset().insert(x));
    }
}

/// Sorting calls by time puts them in time order and keeps every call.
pub proof fn lemma_sort_by_timestamp(s: Seq<CryptCallModel>)
    ensures
        sorted_by_time(sort_by_timestamp(s)),
        sort_by_timestamp(s).to_multiset() == s.to_multiset(),
    decreases s.len(),
{
    broadcast use vstd::seq_lib::group_to_multiset_ensures;

    if s.len() > 0 {
        lemma_sort_by_timestamp(s.drop_last());
        lemma_insert_by_timestamp(sort_by_timestamp(s.drop_last()), s.last());
        assert(s.drop_last().push(s.last()) =~= s);
    }
}

/// Bytes below 128 are valid UTF-8 and every position in them, up to the
/// end, is a character boundary.
proof fn lemma_ascii_bytes(b: Seq<u8>)
    requires
        forall|k: int| 0 <= k < b.len() ==> #[trigger] b[k] < 128,
    ensures
        valid_utf8(b),
        forall|k: int| 0 <= k <= b.len() ==> #[trigger] is_char_boundary(b, k),
    decreases b.len(),
{
    if b.len() > 0 {
        let rest = b.subrange(1, b.len() as int);
        assert forall|k: int| 0 <= k < rest.len() implies #[trigger] rest[k] < 128 by {
            assert(rest[k] == b[k + 1]);
        }
        lemma_ascii_bytes(rest);
        assert(valid_utf8(b));
        assert forall|k: int| 0 <= k <= b.len() implies #[trigger] is_char_boundary(b, k) by {
            if k < b.len() {
                is_char_boundary_iff_not_is_continuation_byte(b, k);
            } else {
                is_char_boundary_start_end_of_seq(b);
            }
        }
    } else {
        is_char_boundary_start_end_of_seq(b);
    }
}

/// Positions `2i` and `2i + 1` of the text hold the digits of byte `i`.
pub open spec fn hex_pair_at(t: Seq<u8>, b: Seq<u8>, i: int, upper: bool) -> bool {
    t[2 * i] == hex_char((b[i] / 16) as int, upper) && t[2 * i + 1] == hex_char((b[i] % 16) as int, upper)
}

proof fn lemma_hex_text_shape(b: Seq<u8>, upper: bool)
    ensures
        hex_text(b, upper).len() == 2 * b.len(),
        forall|i: int| 0 <= i < b.len() ==> #[trigger] hex_pair_at(hex_text(b, upper), b, i, upper),
    decreases b.len(),
{
    if b.len() > 0 {
        lemma_hex_text_shape(b.drop_last(), upper);
        let t = hex_text(b, upper);
        let p = hex_text(b.drop_last(), upper);
        assert forall|i: int| 0 <= i < b.len() implies #[trigger] hex_pair_at(t, b, i, upper) by {
            if i < b.len() - 1 {
                assert(hex_pair_at(p, b.drop_last(), i, upper));
                assert(t[2 * i] == p[2 * i]);
                assert(t[2 * i + 1] == p[2 * i + 1]);
                assert(b.drop_last()[i] == b[i]);
            }
        }
    }
}

proof fn lemma_hex_char(n: int, upper: bool)
    requires
        0 <= n < 16,
    ensures
        is_hex_digit(hex_char(n, upper)),
        hex_digit_value(hex_char(n, upper)) == n,
        hex_char(n, upper) < 128,
        hex_char(n, upper) != 43,
{
}

proof fn lemma_hex_decode_from(b: Seq<u8>, upper: bool, i: int)
    requires
        0 <= i <= b.len(),
    ensures
        hex_decode_from(hex_text(b, upper), 2 * i) == HexOutcome::Decoded(b.skip(i)),
    decreases b.len() - i,
{
    let t = hex_text(b, upper);
    lemma_hex_text_shape(b, upper);
    assert forall|k: int| 0 <= k < t.len() implies #[trigger] t[k] < 128 by {
        let q = k / 2;
        assert(k == 2 * q || k == 2 * q + 1);
        assert(hex_pair_at(t, b, q, upper));
        lemma_hex_char((b[q] / 16) as int, upper);
        lemma_hex_char((b[q] % 16) as int, upper);
    }
    lemma_ascii_bytes(t);
    if i == b.len() {
        assert(b.skip(i) =~= Seq::<u8>::empty());
    } else {
        let hi = hex_char((b[i] / 16) as int, upper);
        let lo = hex_char((b[i] % 16) as int, upper);
        lemma_hex_char((b[i] / 16) as int, upper);
        lemma_hex_char((b[i] % 16) as int, upper);
        let pair = t.subrange(2 * i, 2 * i + 2);
        assert(hex_pair_at(t, b, i, upper));
        assert(pair =~= seq![hi, lo]);
        assert(is_char_boundary(t, 2 * i));
        assert(is_char_boundary(t, 2 * i + 2));
        assert(pair.drop_last() =~= seq![hi]);
        assert(seq![hi].drop_last() =~= Seq::<u8>::empty());
        assert(hex_digits_value(Seq::<u8>::empty()) == 0);
        assert(seq![hi].last() == hi);
        assert(hex_digits_value(seq![hi]) == hex_digit_value(hi));
        assert(pair.last() == lo);
        assert(hex_digits_value(pair) == 16 * ((b[i] / 16) as int) + (b[i] % 16) as int);
        assert(radix16_u8_value(pair) == Some(b[i] as int));
        lemma_hex_decode_from(b, upper, i + 1);
        assert(seq![b[i]] + b.skip(i + 1) =~= b.skip(i));
    }
}

/// Decoding the hexadecimal text of bytes, in upper or lower case, gives
/// the bytes back.
pub proof fn lemma_hex_round_trip(b: Seq<u8>, upper: bool)
    ensures
        hex_decode_from(hex_text(b, upper), 0) == HexOutcome::Decoded(b),
{
    lemma_hex_decode_from(b, upper, 0);
    assert(b.skip(0) =~= b);
}

proof fn lemma_leading_facts(s: Seq<char>)
    ensures
        leading_ws(s) <= s.len(),
        forall|j: int| 0 <= j < leading_ws(s) ==> is_white_space(#[trigger] s[j]),
        leading_ws(s) < s.len() ==> !is_white_space(s[leading_ws(s) as int]),
    decreases s.len(),
{
    if s.len() > 0 && is_white_space(s[0]) {
        let t = s.drop_first();
        lemma_leading_facts(t);
        assert forall|j: int| 0 <= j < leading_ws(s) implies is_white_space(#[trigger] s[j]) by {
            if j > 0 {
                assert(s[j] == t[j - 1]);
            }
        }
        if leading_ws(s) < s.len() {
            assert(s[leading_ws(s) as int] == t[leading_ws(t) as int]);
        }
    }
}

proof fn lemma_trailing_facts(s: Seq<char>)
    ensures
        trailing_ws(s) <= s.len(),
        forall|j: int| s.len() - trailing_ws(s) <= j < s.len() ==> is_white_space(#[trigger] s[j]),
        trailing_ws(s) < s.len() ==> !is_white_space(s[s.len() - 1 - trailing_ws(s)]),
    decreases s.len(),
{
    if s.len() > 0 && is_white_space(s.last()) {
        let t = s.drop_last();
        lemma_trailing_facts(t);
        assert forall|j: int| s.len() - trailing_ws(s) <= j < s.len() implies is_white_space(#[trigger] s[j]) by {
            if j < s.len() - 1 {
                assert(s[j] == t[j]);
            }
        }
        if trailing_ws(s) < s.len() {
            assert(s[s.len() - 1 - trailing_ws(s)] == t[t.len() - 1 - trailing_ws(t)]);
        }
    }
}

/// Trimmed text has nothing more to trim.
pub proof fn lemma_trim_idempotent(s: Seq<char>)
    ensures
        trim_spec(trim_spec(s)) == trim_spec(s),
{
    lemma_leading_facts(s);
    lemma_trailing_facts(s);
    let t = trim_spec(s);
    if leading_ws(s) == s.len() {
        assert(t.len() == 0);
    } else {
        let a = leading_ws(s) as int;
        let z = trailing_ws(s) as int;
        assert(z < s.len() - a) by {
            if z >= s.len() - a {
                assert(is_white_space(s[a]));
            }
        }
        assert(t[0] == s[a]);
        assert(t[t.len() - 1] == s[s.len() - 1 - z]);
        crate::session::lemma_leading(t, 0);
        crate::session::lemma_trailing(t, 0);
        assert(t.subrange(0, t.len() as int) =~= t);
    }
}

/// The events that are not cipher events, in order.
pub open spec fn non_crypto_events(s: Seq<Events>) -> Seq<Events>
    decreases s.len(),
{
    if s.len() == 0 {
        seq![]
    } else if is_crypto_event(s.last()) {
        non_crypto_events(s.drop_last())
    } else {
        non_crypto_events(s.drop_last()).push(s.last())
    }
}

proof fn lemma_strip_crypto_events(s: Seq<Events>, i: int)
    requires
        0 <= i < s.len(),
        forall|k: int| i < k < s.len() ==> !is_crypto_event(#[trigger] s[k]),
    ensures
        strip_crypto_events(s, i).len() >= 1,
        strip_crypto_events(s, i)[0] == s[0],
        forall|k: int| 1 <= k < strip_crypto_events(s, i).len() ==> !is_crypto_event(#[trigger] strip_crypto_events(s, i)[k]),
        strip_crypto_events(s, i).to_multiset() == seq![s[0]].to_multiset().add(
            non_crypto_events(s.subrange(1, i + 1)).to_multiset(),
        ).add(s.subrange(i + 1, s.len() as int).to_multiset()),
    decreases i,
{
    broadcast use vstd::seq_lib::group_to_multiset_ensures;

    let n = s.len() as int;
    if i == 0 {
        assert(s.subrange(1, 1) =~= Seq::<Events>::empty());
        assert(seq![s[0]] + s.subrange(1, n) =~= s);
        lemma_multiset_commutative(seq![s[0]], s.subrange(1, n));
        assert(non_crypto_events(Seq::<Events>::empty()).to_multiset() =~= Multiset::empty());
        assert(s.to_multiset() =~= seq![s[0]].to_multiset().add(
            non_crypto_events(s.subrange(1, 1)).to_multiset(),
        ).add(s.subrange(1, n).to_multiset()));
    } else {
        let sub_i1 = s.subrange(1, i + 1);
        assert(sub_i1.drop_last() =~= s.subrange(1, i));
        assert(sub_i1.last() == s[i]);
        if is_crypto_event(s[i]) {
            let next = swap_removed(s, i);
            assert forall|k: int| i - 1 < k < next.len() implies !is_crypto_event(#[trigger] next[k]) by {
                if k == i {
                    assert(next[k] == s[n - 1]);
                } else {
                    assert(next[k] == s[k]);
                }
            }
            lemma_strip_crypto_events(next, i - 1);
            assert(next[0] == s[0]);
            assert(next.subrange(1, i) =~= s.subrange(1, i));
            if i == n - 1 {
                assert(next.subrange(i, next.len() as int) =~= Seq::<Events>::empty());
                assert(s.subrange(i + 1, n) =~= Seq::<Events>::empty());
            } else {
                let rest = s.subrange(i + 1, n - 1);
                assert(next.subrange(i, next.len() as int) =~= seq![s[n - 1]] + rest);
                assert(s.subrange(i + 1, n) =~= rest.push(s[n - 1]));
                lemma_multiset_commutative(seq![s[n - 1]], rest);
                assert(seq![s[n - 1]].to_multiset() =~= Multiset::<Events>::empty().insert(s[n - 1]));
            }
            assert(strip_crypto_events(s, i) == strip_crypto_events(next, i - 1));
        } else {
            assert forall|k: int| i - 1 < k < n implies !is_crypto_event(#[trigger] s[k]) by {}
            lemma_strip_crypto_events(s, i - 1);
            assert(s.subrange(i, n) =~= seq![s[i]] + s.subrange(i + 1, n));
            lemma_multiset_commutative(seq![s[i]], s.subrange(i + 1, n));
            assert(seq![s[i]].to_multiset() =~= Multiset::<Events>::empty().insert(s[i]));
            assert(strip_crypto_events(s, i) == strip_crypto_events(s, i - 1));
            assert(strip_crypto_events(s, i).to_multiset() =~= seq![s[0]].to_multiset().add(
                non_crypto_events(sub_i1).to_multiset(),
            ).add(s.subrange(i + 1, n).to_multiset()));
        }
    }
}

/// Taking the cipher events out of an app's events keeps the first event in
/// front and every other event that is not a cipher event, and leaves no
/// cipher event after the first.
pub proof fn lemma_remaining_events(ev: Seq<Events>)
    requires
        ev.len() > 0,
    ensures
        remaining_events(ev).len() >= 1,
        remaining_events(ev)[0] == ev[0],
        forall|k: int| 1 <= k < remaining_events(ev).len() ==> !is_crypto_event(#[trigger] remaining_events(ev)[k]),
        remaining_events(ev).to_multiset() == seq![ev[0]].to_multiset().add(
            non_crypto_events(ev.skip(1)).to_multiset(),
        ),
{
    broadcast use vstd::seq_lib::group_to_multiset_ensures;

    let n = ev.len() as int;
    lemma_strip_crypto_events(ev, n - 1);
    assert(ev.subrange(1, n) =~= ev.skip(1));
    assert(ev.subrange(n, n) =~= Seq::<Events>::empty());
    assert(Seq::<Events>::empty().to_multiset() =~= Multiset::empty());
    assert(remaining_events(ev).to_multiset() =~= seq![ev[0]].to_multiset().add(
        non_crypto_events(ev.skip(1)).to_multiset(),
    ));
}

/// The counts of a leak comparison add up: the leaks only in the first set
/// and the common leaks number as many as the first set, and likewise for
/// the second.
pub proof fn lemma_comparison_counts(c: LeakComparison, a: Set<Seq<char>>, b: Set<Seq<char>>)
    requires
        compares(c, a, b),
        a.finite(),
        b.finite(),
    ensures
        c.distinct_leak1_num + c.common_leak_num == a.len(),
        c.distinct_leak2_num + c.common_leak_num == b.len(),
{
    lemma_comparison_partitions(a, b);
    string_views(c.distinct_leak1@).unique_seq_to_set();
    string_views(c.distinct_leak2@).unique_seq_to_set();
    string_views(c.common_leak@).unique_seq_to_set();
}

/// Every leak found is recorded with connection id `i32::MAX`.
pub proof fn lemma_found_leaks_unassigned(
    entries: Seq<(Seq<char>, Seq<Seq<u8>>)>,
    probes: Seq<Probe>,
    mimes: Seq<Seq<char>>,
    l: (Seq<char>, bool, bool, i32),
)
    requires
        probes_leak_set(entries, probes, mimes).contains(l),
    ensures
        l.3 == i32::MAX,
    decreases probes.len(),
{
    let p = probes.last();
    let found = contains_result(entries, p.data, p.unarchive, mimes.last());
    if probes_leak_set(entries, probes.drop_last(), mimes.drop_last()).contains(l) {
        lemma_found_leaks_unassigned(entries, probes.drop_last(), mimes.drop_last(), l);
    } else {
        let mapped = found.map_values(|n: Seq<char>| (n, p.is_send, p.is_encrypted, i32::MAX));
        assert(keys_leaks(found, p.is_send, p.is_encrypted) == mapped.to_set());
        assert(mapped.to_set().contains(l));
        let k = choose|k: int| 0 <= k < mapped.len() && #[trigger] mapped[k] == l;
    }
}


/// Every item of `s1` has an item of the same name in `s2` that holds all
/// its values.
pub open spec fn items_within(s1: Seq<(Seq<char>, Seq<Seq<u8>>)>, s2: Seq<(Seq<char>, Seq<Seq<u8>>)>) -> bool {
    forall|i: int|
        0 <= i < s1.len() ==> exists|j: int|
            0 <= j < s2.len() && #[trigger] s2[j].0 == #[trigger] s1[i].0 && forall|v: Seq<u8>|
                #[trigger] s1[i].1.contains(v) ==> s2[j].1.contains(v)
}

/// Searching with more items, or items with more values, finds every name
/// that the smaller table finds (for the same outcome of the MIME detection).
pub proof fn lemma_contains_monotone(
    s1: Seq<(Seq<char>, Seq<Seq<u8>>)>,
    s2: Seq<(Seq<char>, Seq<Seq<u8>>)>,
    chunk: Seq<u8>,
    unarchive: bool,
    mime: Seq<char>,
    x: Seq<char>,
)
    requires
        items_within(s1, s2),
        contains_result(s1, chunk, unarchive, mime).contains(x),
    ensures
        contains_result(s2, chunk, unarchive, mime).contains(x),
{
    let c = if unarchive { crate::leak::unpacked_with(chunk, mime) } else { chunk };
    lemma_keys_found_facts(s1, c);
    lemma_keys_found_facts(s2, c);
    assert(keys_found(s1, c).contains(x));
    let e = choose|e: int| 0 <= e < s1.len() && #[trigger] s1[e].0 == x && item_found(s1[e].1, c);
    let j1 = choose|j: int| 0 <= j < s1[e].1.len() && #[trigger] value_found(c, s1[e].1[j]);
    let v = s1[e].1[j1];
    assert(s1[e].1.contains(v));
    let j = choose|j: int|
        0 <= j < s2.len() && #[trigger] s2[j].0 == #[trigger] s1[e].0 && forall|w: Seq<u8>|
            #[trigger] s1[e].1.contains(w) ==> s2[j].1.contains(w);
    assert(s2[j].1.contains(v));
    let j2 = choose|k: int| 0 <= k < s2[j].1.len() && s2[j].1[k] == v;
    assert(value_found(c, s2[j].1[j2]));
    assert(item_found(s2[j].1, c));
    assert(keys_found(s2, c).contains(x));
}

/// Every name found in the body of a flow's response, which is searched as
/// it is, is recorded as a leak received in the clear.
pub proof fn lemma_response_body_leaks(
    entries: Seq<(Seq<char>, Seq<Seq<u8>>)>,
    cryptos: Seq<CryptRecordModel>,
    r: Record,
    leaks: Seq<Leak>,
    p: Response,
    k: Seq<char>,
)
    requires
        flow_leaks(entries, cryptos, r, leaks),
        r.response == Some(p),
        contains_result(entries, p.body@, false, seq![]).contains(k),
    ensures
        leak_set(leaks).contains((k, false, false, i32::MAX)),
{
    let sites = record_sites(r);
    let body_site = FlowSite { data: p.body@, is_send: false, crypto_unarchive: true, direct_unarchive: false };
    assert(sites.last() == body_site);
    let probes = record_probes(cryptos, r);
    assert(probes == sites_probes(cryptos, sites.drop_last()) + site_probes(cryptos, body_site));
    let last = probes.last();
    assert(last == site_probes(cryptos, body_site).last());
    let mimes = choose|mimes: Seq<Seq<char>>|
        mimes.len() == record_probes(cryptos, r).len() && leak_set(leaks) == #[trigger] probes_leak_set(
            entries,
            record_probes(cryptos, r),
            mimes,
        );
    let found = contains_result(entries, last.data, last.unarchive, mimes.last());
    assert(found == contains_result(entries, p.body@, false, seq![]));
    let idx = choose|i: int| 0 <= i < found.len() && found[i] == k;
    let mapped = found.map_values(|key: Seq<char>| (key, last.is_send, last.is_encrypted, i32::MAX));
    assert(mapped[idx] == (k, false, false, i32::MAX));
    assert(mapped.to_set().contains((k, false, false, i32::MAX)));
    assert(keys_leaks(found, last.is_send, last.is_encrypted).contains((k, false, false, i32::MAX)));
    assert(probes_leak_set(entries, probes, mimes).contains((k, false, false, i32::MAX)));
}

} // verus!
