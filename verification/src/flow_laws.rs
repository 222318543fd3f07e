//! Laws about how the flows of an app are searched for leak items, how
//! cipher records are recognised in flows and recovered from events, and
//! which forms of an item's values are searched.
use crate::data::{
    absorb, apply_call, apply_calls, block, block_found, candidate_timestamps, crypto_records_of, decoded_or_empty,
    final_calls, has_nonzero, init_records, is_latest_not_after, latest_not_after, record_matches, sort_by_timestamp,
    update_calls, visit_order, CryptCallModel, CryptRecordModel, Record,
};
use crate::events::{DoFinalByte, Events, InitIntKey, UpdateByte};
use crate::external::base64_no_pad_encoded;
use crate::leak::is_sub_spec;
use crate::extract::{
    crypto_probes, flow_leaks, header_sites, keys_leaks, message_sites, probes_leak_set, record_probes,
    record_sites, site_probes, sites_probes, FlowSite, Probe,
};
use crate::db::{leak_set, Leak};
use crate::leak::contains_result;
use crate::forms::{join_pieces, value_forms, values_forms, with_encodings, without_char_spec};
use crate::text::{first_index, is_first_of, lemma_first_index, split_spec};
use vstd::prelude::*;
use vstd::utf8::encode_utf8;

verus! {

/// A leak found among the chunks was found in one of them: it carries that
/// chunk's direction and encryption and the connection id `i32::MAX`, and
/// its name is found in that chunk for some outcome of the MIME detection.
proof fn lemma_leak_from_probe(
    entries: Seq<(Seq<char>, Seq<Seq<u8>>)>,
    probes: Seq<Probe>,
    mimes: Seq<Seq<char>>,
    l: (Seq<char>, bool, bool, i32),
)
    requires
        probes_leak_set(entries, probes, mimes).contains(l),
    ensures
        exists|j: int|
            0 <= j < probes.len() && l.1 == #[trigger] probes[j].is_send && l.2 == probes[j].is_encrypted
                && l.3 == i32::MAX && exists|m: Seq<char>|
                contains_result(entries, probes[j].data, probes[j].unarchive, m).contains(l.0),
    decreases probes.len(),
{
    if probes.len() > 0 {
        let p = probes.last();
        let found = contains_result(entries, p.data, p.unarchive, mimes.last());
        if probes_leak_set(entries, probes.drop_last(), mimes.drop_last()).contains(l) {
            lemma_leak_from_probe(entries, probes.drop_last(), mimes.drop_last(), l);
            let j = choose|j: int|
                0 <= j < probes.drop_last().len() && l.1 == #[trigger] probes.drop_last()[j].is_send && l.2
                    == probes.drop_last()[j].is_encrypted && l.3 == i32::MAX && exists|m: Seq<char>|
                    contains_result(entries, probes.drop_last()[j].data, probes.drop_last()[j].unarchive, m).contains(
                        l.0,
                    );
            assert(probes[j] == probes.drop_last()[j]);
        } else {
            assert(keys_leaks(found, p.is_send, p.is_encrypted).contains(l));
            let mapped = found.map_values(|k: Seq<char>| (k, p.is_send, p.is_encrypted, i32::MAX));
            let i = choose|i: int| 0 <= i < mapped.len() && mapped[i] == l;
            assert(found.contains(l.0)) by {
                assert(found[i] == l.0);
            }
            assert(probes[probes.len() - 1] == p);
        }
    }
}

/// A chunk searched for a set of places comes from one of them: a cipher
/// plaintext of a record that matches the place and runs in its direction,
/// or the place's own bytes.
proof fn lemma_crypto_probe_origin(cryptos: Seq<CryptRecordModel>, s: FlowSite, j: int)
    requires
        0 <= j < crypto_probes(cryptos, s).len(),
    ensures
        ({
            let q = crypto_probes(cryptos, s)[j];
            &&& q.is_send == s.is_send
            &&& q.is_encrypted
            &&& q.unarchive == s.crypto_unarchive
            &&& exists|c: int|
                0 <= c < cryptos.len() && #[trigger] cryptos[c].plaintext == q.data && cryptos[c].is_encryption
                    == s.is_send && record_matches(cryptos[c], s.data)
        }),
    decreases cryptos.len(),
{
    let rest = crypto_probes(cryptos.drop_last(), s);
    if j < rest.len() {
        lemma_crypto_probe_origin(cryptos.drop_last(), s, j);
        let q = rest[j];
        let c = choose|c: int|
            0 <= c < cryptos.drop_last().len() && #[trigger] cryptos.drop_last()[c].plaintext == q.data
                && cryptos.drop_last()[c].is_encryption == s.is_send && record_matches(cryptos.drop_last()[c], s.data);
        assert(cryptos[c] == cryptos.drop_last()[c]);
        assert(crypto_probes(cryptos, s)[j] == q);
    } else {
        assert(cryptos[cryptos.len() - 1] == cryptos.last());
    }
}

/// Where a chunk of a sequence of places comes from.
pub open spec fn probe_of_site(cryptos: Seq<CryptRecordModel>, s: FlowSite, p: Probe) -> bool {
    &&& p.is_send == s.is_send
    &&& if p.is_encrypted {
        &&& p.unarchive == s.crypto_unarchive
        &&& exists|c: int|
            0 <= c < cryptos.len() && #[trigger] cryptos[c].plaintext == p.data && cryptos[c].is_encryption
                == s.is_send && record_matches(cryptos[c], s.data)
    } else {
        p.data == s.data && p.unarchive == s.direct_unarchive
    }
}

proof fn lemma_site_probe_origin(cryptos: Seq<CryptRecordModel>, sites: Seq<FlowSite>, j: int)
    requires
        0 <= j < sites_probes(cryptos, sites).len(),
    ensures
        exists|t: int| 0 <= t < sites.len() && probe_of_site(cryptos, #[trigger] sites[t], sites_probes(cryptos, sites)[j]),
    decreases sites.len(),
{
    let rest = sites_probes(cryptos, sites.drop_last());
    let s = sites.last();
    let sp = site_probes(cryptos, s);
    let all = sites_probes(cryptos, sites);
    assert(all == rest + sp);
    if j < rest.len() {
        lemma_site_probe_origin(cryptos, sites.drop_last(), j);
        let t = choose|t: int| 0 <= t < sites.drop_last().len() && probe_of_site(cryptos, #[trigger] sites.drop_last()[t], rest[j]);
        assert(sites[t] == sites.drop_last()[t]);
        assert(all[j] == rest[j]);
    } else {
        let k = j - rest.len();
        assert(all[j] == sp[k]);
        let cp = crypto_probes(cryptos, s);
        if k < cp.len() {
            lemma_crypto_probe_origin(cryptos, s, k);
            assert(sp[k] == cp[k]);
        }
        assert(probe_of_site(cryptos, sites[sites.len() - 1], all[j]));
    }
}

/// The direction of every leak of a flow is that of where it was found: a
/// leak found in a websocket message, or in the plaintext of a cipher record
/// that the message carries and that runs in the message's direction
/// (encryption for a client message), is sent exactly when the message came
/// from the client; any other leak is sent only if the flow has a request
/// and received only if it has a response. Every leak has connection id
/// `i32::MAX`.
pub proof fn lemma_leak_directions(
    entries: Seq<(Seq<char>, Seq<Seq<u8>>)>,
    cryptos: Seq<CryptRecordModel>,
    r: Record,
    leaks: Seq<Leak>,
    l: (Seq<char>, bool, bool, i32),
)
    requires
        flow_leaks(entries, cryptos, r, leaks),
        leak_set(leaks).contains(l),
    ensures
        l.3 == i32::MAX,
        ({
            ||| (l.1 && r.request is Some)
            ||| (!l.1 && r.response is Some)
            ||| exists|i: int|
                0 <= i < r.websocket@.len() && #[trigger] r.websocket@[i].from_client == l.1 && if l.2 {
                    exists|c: int|
                        0 <= c < cryptos.len() && #[trigger] cryptos[c].is_encryption == r.websocket@[i].from_client
                            && record_matches(cryptos[c], r.websocket@[i].content@) && exists|m: Seq<char>|
                            contains_result(entries, cryptos[c].plaintext, true, m).contains(l.0)
                } else {
                    exists|m: Seq<char>| contains_result(entries, r.websocket@[i].content@, true, m).contains(l.0)
                }
        }),
{
    let probes = record_probes(cryptos, r);
    let mimes = choose|mimes: Seq<Seq<char>>|
        mimes.len() == record_probes(cryptos, r).len() && leak_set(leaks) == #[trigger] probes_leak_set(
            entries,
            record_probes(cryptos, r),
            mimes,
        );
    lemma_leak_from_probe(entries, probes, mimes, l);
    let j = choose|j: int|
        0 <= j < probes.len() && l.1 == #[trigger] probes[j].is_send && l.2 == probes[j].is_encrypted && l.3
            == i32::MAX && exists|m: Seq<char>| contains_result(entries, probes[j].data, probes[j].unarchive, m).contains(l.0);
    let sites = record_sites(r);
    lemma_site_probe_origin(cryptos, sites, j);
    let t = choose|t: int| 0 <= t < sites.len() && probe_of_site(cryptos, #[trigger] sites[t], probes[j]);
    let ms = message_sites(r.websocket@);
    let a = match r.request {
        Some(q) => header_sites(q.headers@, true, true) + seq![
            FlowSite { data: q.body@, is_send: true, crypto_unarchive: true, direct_unarchive: true },
        ],
        None => seq![],
    };
    let b = match r.response {
        Some(p) => header_sites(p.headers@, false, false) + seq![
            FlowSite { data: p.body@, is_send: false, crypto_unarchive: true, direct_unarchive: false },
        ],
        None => seq![],
    };
    assert(sites == ms + a + b);
    if t < ms.len() {
        let i = t;
        assert(sites[t] == ms[t]);
        assert(r.websocket@[i].from_client == l.1);
        let p = probes[j];
        if l.2 {
            let c = choose|c: int|
                0 <= c < cryptos.len() && #[trigger] cryptos[c].plaintext == p.data && cryptos[c].is_encryption
                    == sites[t].is_send && record_matches(cryptos[c], sites[t].data);
            assert(cryptos[c].is_encryption == r.websocket@[i].from_client);
        }
    } else if t < ms.len() + a.len() {
        assert(sites[t] == a[t - ms.len()]);
        match r.request {
            Some(q) => {
                let hs = header_sites(q.headers@, true, true);
                let k = t - ms.len();
                if k < hs.len() {
                    assert(a[k] == hs[k]);
                } else {
                    assert(a[k].is_send);
                }
            },
            None => {},
        }
    } else {
        assert(sites[t] == b[t - ms.len() - a.len()]);
        match r.response {
            Some(p) => {
                let hs = header_sites(p.headers@, false, false);
                let k = t - ms.len() - a.len();
                if k < hs.len() {
                    assert(b[k] == hs[k]);
                } else {
                    assert(!b[k].is_send);
                }
            },
            None => {},
        }
    }
}


/// A cipher record is recognised in data that holds any whole 16-byte block
/// of its ciphertext (the `k`-th, for any `k`), as it is or base64 encoded
/// without padding, provided the block is not all zero, the data is at
/// least a block long, and the record's texts are non-empty and differ.
pub proof fn lemma_any_block_matches(r: CryptRecordModel, data: Seq<u8>, k: int, at: int, in_base64: bool)
    requires
        r.plaintext != r.ciphertext,
        r.plaintext.len() > 0,
        data.len() >= 16,
        0 <= k,
        16 * k + 16 <= r.ciphertext.len(),
        exists|i: int| 16 * k <= i < 16 * k + 16 && r.ciphertext[i] != 0,
        ({
            let blk = r.ciphertext.subrange(16 * k, 16 * k + 16);
            let text = if in_base64 { base64_no_pad_encoded(blk) } else { blk };
            0 <= at && at + text.len() <= data.len() && data.subrange(at, at + text.len()) == text
        }),
    ensures
        record_matches(r, data),
{
    let blk = block(r.ciphertext, k);
    let i = choose|i: int| 16 * k <= i < 16 * k + 16 && r.ciphertext[i] != 0;
    assert(blk[i - 16 * k] == r.ciphertext[i]);
    assert(has_nonzero(blk));
    if in_base64 {
        assert(is_sub_spec(data, base64_no_pad_encoded(blk)));
    } else {
        assert(is_sub_spec(data, blk));
    }
    assert(block_found(data, block(r.ciphertext, k)));
}


proof fn lemma_join_add(a: Seq<Seq<char>>, b: Seq<Seq<char>>)
    ensures
        join_pieces(a + b) == join_pieces(a) + join_pieces(b),
    decreases b.len(),
{
    if b.len() == 0 {
        assert(a + b =~= a);
    } else {
        lemma_join_add(a, b.drop_last());
        assert((a + b).drop_last() =~= a + b.drop_last());
        assert((a + b).last() == b.last());
    }
}

proof fn lemma_filter_without(s: Seq<char>, c: char)
    requires
        forall|j: int| 0 <= j < s.len() ==> s[j] != c,
    ensures
        s.filter(|x: char| x != c) == s,
    decreases s.len(),
{
    reveal(Seq::filter);
    if s.len() > 0 {
        lemma_filter_without(s.drop_last(), c);
        assert(s.drop_last().push(s.last()) =~= s);
    } else {
        assert(s.filter(|x: char| x != c) =~= s);
    }
}

proof fn lemma_join_single(x: Seq<char>)
    ensures
        join_pieces(seq![x]) == x,
{
    let one = seq![x];
    assert(one.drop_last() =~= Seq::<Seq<char>>::empty());
    assert(join_pieces(Seq::<Seq<char>>::empty()) == Seq::<char>::empty());
    assert(join_pieces(one) == join_pieces(one.drop_last()) + one.last());
    assert(join_pieces(one) =~= x);
}

/// Taking every `c` out of a text leaves the characters other than `c`, in
/// order.
proof fn lemma_without_char_filter(s: Seq<char>, c: char)
    ensures
        without_char_spec(s, c) == s.filter(|x: char| x != c),
    decreases s.len(),
{
    lemma_first_index(s, c);
    match first_index(s, c) {
        Some(i) => {
            assert(is_first_of(s, c, i));
            let rest = s.skip(i + 1);
            lemma_without_char_filter(rest, c);
            assert(split_spec(s, c) == seq![s.take(i)] + split_spec(rest, c));
            lemma_join_add(seq![s.take(i)], split_spec(rest, c));
            lemma_join_single(s.take(i));
            lemma_filter_without(s.take(i), c);
            assert(s =~= s.take(i) + seq![c] + rest);
            Seq::filter_distributes_over_add(s.take(i) + seq![c], rest, |x: char| x != c);
            Seq::filter_distributes_over_add(s.take(i), seq![c], |x: char| x != c);
            reveal(Seq::filter);
            let one = seq![c];
            let pred = |x: char| x != c;
            assert(one.drop_last() =~= Seq::<char>::empty());
            assert(Seq::<char>::empty().filter(pred) == Seq::<char>::empty());
            assert(one.filter(pred) == one.drop_last().filter(pred));
            assert(one.filter(pred) =~= Seq::<char>::empty());
        },
        None => {
            assert(split_spec(s, c) == seq![s]);
            lemma_join_single(s);
            lemma_filter_without(s, c);
        },
    }
}

proof fn lemma_values_forms_include(vs: Seq<Seq<char>>, stds: Seq<Seq<Seq<u8>>>, j: int, f: Seq<u8>)
    requires
        0 <= j < vs.len(),
        vs.len() == stds.len(),
        value_forms(vs[j], stds[j]).contains(f),
    ensures
        values_forms(vs, stds).contains(f),
    decreases vs.len(),
{
    let rest = values_forms(vs.drop_last(), stds.drop_last());
    let last = value_forms(vs.last(), stds.last());
    assert(values_forms(vs, stds) == rest + last);
    if j < vs.len() - 1 {
        assert(vs.drop_last()[j] == vs[j]);
        assert(stds.drop_last()[j] == stds[j]);
        lemma_values_forms_include(vs.drop_last(), stds.drop_last(), j, f);
        let k = choose|k: int| 0 <= k < rest.len() && rest[k] == f;
        assert((rest + last)[k] == f);
    } else {
        let k = choose|k: int| 0 <= k < last.len() && last[k] == f;
        assert((rest + last)[rest.len() + k] == f);
    }
}

/// Among the forms searched for the values of an item, each value that
/// holds a `-` is also searched as its UTF-8 text with every `-` taken out.
pub proof fn lemma_dash_free_form(vs: Seq<Seq<char>>, stds: Seq<Seq<Seq<u8>>>, j: int)
    requires
        0 <= j < vs.len(),
        vs.len() == stds.len(),
        vs[j].contains('-'),
    ensures
        with_encodings(values_forms(vs, stds)).contains(encode_utf8(vs[j].filter(|x: char| x != '-'))),
{
    let v = vs[j];
    let f = encode_utf8(v.filter(|x: char| x != '-'));
    lemma_without_char_filter(v, '-');
    let forms = value_forms(v, stds[j]);
    let b = encode_utf8(v);
    let p1 = if crate::leak::is_mac_address_spec(v) {
        crate::forms::opt_form(crate::forms::hex_decoded(encode_utf8(without_char_spec(v, ':'))))
    } else {
        seq![]
    };
    let p2 = crate::forms::form_if(v.contains(':'), encode_utf8(without_char_spec(v, ':')));
    let p3 = crate::forms::form_if(v.contains('-'), encode_utf8(without_char_spec(v, '-')));
    assert(p3 == seq![f]);
    let head = p1 + p2 + p3;
    let idx: int = (p1.len() + p2.len()) as int;
    assert(head[idx] == f);
    assert(forms[idx] == head[idx]);
    assert(forms.contains(f));
    lemma_values_forms_include(vs, stds, j, f);
    let all = values_forms(vs, stds);
    let k = choose|k: int| 0 <= k < all.len() && all[k] == f;
    assert(with_encodings(all)[k] == f);
}


/// A call of a record's cipher object that is not earlier than the record
/// goes into that record.
proof fn lemma_single_call(r: CryptRecordModel, u: CryptCallModel, set_ts: bool)
    requires
        r.hashcode == u.hashcode,
        r.timestamp <= u.timestamp,
    ensures
        apply_calls(seq![r], seq![u], set_ts) == seq![absorb(r, u, set_ts)],
{
    let recs = seq![r];
    let calls = seq![u];
    assert(calls.drop_last() =~= Seq::<CryptCallModel>::empty());
    assert(apply_calls(recs, calls.drop_last(), set_ts) == recs);
    let pred = |x: CryptRecordModel| x.hashcode == u.hashcode;
    reveal(Seq::filter);
    assert(recs.drop_last() =~= Seq::<CryptRecordModel>::empty());
    assert(Seq::<CryptRecordModel>::empty().filter(pred) == Seq::<CryptRecordModel>::empty());
    assert(recs.filter(pred) == recs.drop_last().filter(pred).push(r));
    assert(recs.filter(pred) =~= seq![r]);
    let tss = candidate_timestamps(recs, u.hashcode);
    assert(tss =~= seq![r.timestamp]);
    assert(tss[0] <= u.timestamp);
    assert(is_latest_not_after(tss, u.timestamp, r.timestamp)) by {
        assert(tss[0] == r.timestamp);
    }
    let t = choose|t: u128| is_latest_not_after(tss, u.timestamp, t);
    assert(tss.contains(t));
    assert(t == r.timestamp);
    assert(latest_not_after(tss, u.timestamp) == Some(r.timestamp));
    assert(apply_call(recs, u, set_ts) =~= seq![absorb(r, u, set_ts)]);
}

proof fn lemma_sort_single(x: CryptCallModel)
    ensures
        sort_by_timestamp(seq![x]) == seq![x],
{
    let one = seq![x];
    assert(one.drop_last() =~= Seq::<CryptCallModel>::empty());
    assert(sort_by_timestamp(Seq::<CryptCallModel>::empty()) == Seq::<CryptCallModel>::empty());
    assert(sort_by_timestamp(one) == crate::data::insert_by_timestamp(sort_by_timestamp(one.drop_last()), x));
}

/// A cipher object initialised, then fed an `update` call and then a
/// `doFinal` call no earlier, makes one record whose texts are the data of
/// the `update` call followed by the data of the `doFinal` call: for
/// encryption the inputs are the plaintext and the outputs the ciphertext,
/// for decryption the other way round. (The first event is never examined.)
pub proof fn lemma_update_before_final(e0: Events, k: InitIntKey, u: UpdateByte, f: DoFinalByte)
    requires
        k.hashcode == u.hashcode,
        u.hashcode == f.hashcode,
        k.ts <= u.ts,
        u.ts <= f.ts,
    ensures
        ({
            let recs = crypto_records_of(
                seq![e0, Events::InitIntKey(k), Events::UpdateByte(u), Events::DoFinalByte(f)],
            );
            let u_in = decoded_or_empty(u.arg_input@);
            let u_out = decoded_or_empty(u.ret@);
            let f_in = decoded_or_empty(f.arg_input@);
            let f_out = decoded_or_empty(f.ret@);
            &&& recs.len() == 1
            &&& recs[0].hashcode == k.hashcode
            &&& recs[0].is_encryption == (k.arg_opcode == 1)
            &&& k.arg_opcode == 1 ==> recs[0].plaintext == u_in + f_in && recs[0].ciphertext == u_out + f_out
            &&& k.arg_opcode != 1 ==> recs[0].plaintext == u_out + f_out && recs[0].ciphertext == u_in + f_in
        }),
{
    let ev = seq![e0, Events::InitIntKey(k), Events::UpdateByte(u), Events::DoFinalByte(f)];
    let vis = visit_order(ev);
    let ef = Events::DoFinalByte(f);
    let eu = Events::UpdateByte(u);
    let ek = Events::InitIntKey(k);
    assert(vis =~= seq![ef, eu, ek]);
    let s1 = seq![ef];
    let s2 = seq![ef, eu];
    assert(vis.drop_last() =~= s2);
    assert(s2.drop_last() =~= s1);
    assert(s1.drop_last() =~= Seq::<Events>::empty());
    assert(update_calls(Seq::<Events>::empty()) == Seq::<CryptCallModel>::empty());
    assert(final_calls(Seq::<Events>::empty()) == Seq::<CryptCallModel>::empty());
    assert(init_records(Seq::<Events>::empty()) == Seq::<CryptRecordModel>::empty());
    let uc = crate::data::update_call_of(eu)->0;
    let fc = crate::data::final_call_of(ef)->0;
    let ir = crate::data::init_record_of(ek)->0;
    assert(update_calls(s1) =~= Seq::<CryptCallModel>::empty());
    assert(update_calls(s2) =~= seq![uc]);
    assert(update_calls(vis) =~= seq![uc]);
    assert(final_calls(s1) =~= seq![fc]);
    assert(final_calls(s2) =~= seq![fc]);
    assert(final_calls(vis) =~= seq![fc]);
    assert(init_records(s1) =~= Seq::<CryptRecordModel>::empty());
    assert(init_records(s2) =~= Seq::<CryptRecordModel>::empty());
    assert(init_records(vis) =~= seq![ir]);
    lemma_sort_single(uc);
    lemma_sort_single(fc);
    lemma_single_call(ir, uc, true);
    let r1 = absorb(ir, uc, true);
    lemma_single_call(r1, fc, false);
}

} // verus!
