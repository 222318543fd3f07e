//! Comparing the requests that an app sent over HTTP/3 with those it sent
//! over HTTP/2 to the same URI, and the report text of the differences.
use crate::db::pair_views;
use crate::external::{json_string_object, map_pairs, parse_json_string_object};
use crate::strset::{
    append_pairs, contains_string, distinct_keys, distinct_strings, distinct_values_of, has_key,
    has_pair, insert_string, key_set, pair_set, string_set, values_of,
};
use crate::text::{str_eq, string_views};
use vstd::prelude::*;
use vstd::seq_lib::seq_to_set_distributes_over_add;
use vstd::string::StringExecFns;

verus! {

/// A recorded request as exported to CSV.
pub struct RequestInCSV {
    pub _id: String,
    pub app: String,
    pub withquic: bool,
    pub uri: String,
    pub method: String,
    pub version: String,
    /// the headers, as a JSON object of strings
    pub header: String,
    pub bodytype: Option<String>,
    pub bodyplaintext: Option<String>,
}

/// How a header or body of the HTTP/3 requests differs from the HTTP/2 ones.
#[allow(non_camel_case_types)]
#[derive(Debug, Clone, Copy, PartialEq, Eq)]
pub enum DiffType {
    /// the header is sent over both, with a value seen only over HTTP/3
    DIFFERENT,
    /// the header (or body) is seen only over HTTP/3
    DISTINCT,
}

/// One difference: its kind, the header (`body` for a body) and the values
/// seen over HTTP/3; `h3_vs` holds no value twice.
pub struct ReportDiff {
    pub diff: DiffType,
    pub diff_header: String,
    pub h3_vs: Vec<String>,
}

/// The mathematical value of a difference.
pub open spec fn diff_model(d: ReportDiff) -> (DiffType, Seq<char>, Set<Seq<char>>) {
    (d.diff, d.diff_header@, string_set(d.h3_vs@))
}

pub open spec fn diff_models(s: Seq<ReportDiff>) -> Seq<(DiffType, Seq<char>, Set<Seq<char>>)> {
    s.map_values(|d: ReportDiff| diff_model(d))
}

pub open spec fn is_h3_request(r: RequestInCSV) -> bool {
    r.version@ == "HTTP/3"@
}

/// A request that is compared: an HTTP/3 one, or (for `h3` false) one sent
/// in a run without QUIC over another version.
pub open spec fn on_side(r: RequestInCSV, h3: bool) -> bool {
    if h3 {
        is_h3_request(r)
    } else {
        !is_h3_request(r) && !r.withquic
    }
}

/// The header pairs that a request's JSON header text holds.
pub open spec fn header_pairs(text: Seq<char>) -> Set<(Seq<char>, Seq<char>)> {
    match json_string_object(text) {
        Some(m) => map_pairs(m),
        None => Set::empty(),
    }
}

/// The header pairs of the requests on one side.
pub open spec fn side_pairs_spec(reqs: Seq<RequestInCSV>, h3: bool) -> Set<(Seq<char>, Seq<char>)>
    decreases reqs.len(),
{
    if reqs.len() == 0 {
        Set::empty()
    } else {
        side_pairs_spec(reqs.drop_last(), h3) + if on_side(reqs.last(), h3) {
            header_pairs(reqs.last().header@)
        } else {
            Set::empty()
        }
    }
}

/// The plaintext bodies of the requests on one side.
pub open spec fn side_bodies_spec(reqs: Seq<RequestInCSV>, h3: bool) -> Set<Seq<char>>
    decreases reqs.len(),
{
    if reqs.len() == 0 {
        Set::empty()
    } else {
        side_bodies_spec(reqs.drop_last(), h3) + match reqs.last().bodyplaintext {
            Some(b) => if on_side(reqs.last(), h3) {
                set![b@]
            } else {
                Set::empty()
            },
            None => Set::empty(),
        }
    }
}

/// The header text of every compared request is a JSON object of strings.
pub open spec fn headers_readable(reqs: Seq<RequestInCSV>) -> bool {
    forall|i: int|
        0 <= i < reqs.len() && (on_side(reqs[i], true) || on_side(reqs[i], false))
            ==> #[trigger] json_string_object(reqs[i].header@) is Some
}

/// The header differences: for a header sent over both, each value seen only
/// over HTTP/3 on its own; for a header seen only over HTTP/3, all its values.
pub open spec fn header_diffs(
    p2: Set<(Seq<char>, Seq<char>)>,
    p3: Set<(Seq<char>, Seq<char>)>,
) -> Set<(DiffType, Seq<char>, Set<Seq<char>>)> {
    Set::new(
        |d: (DiffType, Seq<char>, Set<Seq<char>>)|
            {
                ||| (d.0 == DiffType::DIFFERENT && key_set(p2).contains(d.1) && exists|v: Seq<char>|
                    #![trigger p3.contains((d.1, v))]
                    d.2 == set![v] && p3.contains((d.1, v)) && !p2.contains((d.1, v)))
                ||| (d.0 == DiffType::DISTINCT && key_set(p3).contains(d.1) && !key_set(p2).contains(
                    d.1,
                ) && d.2 == values_of(p3, d.1))
            },
    )
}

/// The body differences: each body seen only over HTTP/3, under `body`.
pub open spec fn body_diffs(b2: Set<Seq<char>>, b3: Set<Seq<char>>) -> Set<
    (DiffType, Seq<char>, Set<Seq<char>>),
> {
    Set::new(
        |d: (DiffType, Seq<char>, Set<Seq<char>>)|
            d.0 == DiffType::DISTINCT && d.1 == "body"@ && exists|b: Seq<char>|
                #![trigger b3.contains(b)]
                d.2 == set![b] && b3.contains(b) && !b2.contains(b),
    )
}

/// Whether a request is compared on the given side.
fn request_on_side(r: &RequestInCSV, h3: bool) -> (b: bool)
    ensures
        b == on_side(*r, h3),
{
    let is_h3 = str_eq(r.version.as_str(), "HTTP/3");
    if h3 {
        is_h3
    } else {
        !is_h3 && !r.withquic
    }
}

/// The header pairs of the requests on one side.
fn side_pairs(reqs: &Vec<RequestInCSV>, h3: bool) -> (r: Vec<(String, String)>)
    requires
        headers_readable(reqs@),
    ensures
        pair_set(r@) == side_pairs_spec(reqs@, h3),
{
    let mut r: Vec<(String, String)> = Vec::new();
    let mut i: usize = 0;
    assert(pair_set(r@) =~= Set::<(Seq<char>, Seq<char>)>::empty());
    while i < reqs.len()
        invariant
            i <= reqs.len(),
            headers_readable(reqs@),
            pair_set(r@) == side_pairs_spec(reqs@.take(i as int), h3),
        decreases reqs.len() - i,
    {
        let ghost before = r@;
        assert(reqs@.take(i + 1).drop_last() =~= reqs@.take(i as int));
        assert(reqs@.take(i + 1).last() == reqs@[i as int]);
        if request_on_side(&reqs[i], h3) {
            assert(json_string_object(reqs@[i as int].header@) is Some);
            match parse_json_string_object(reqs[i].header.as_str()) {
                Some(v) => {
                    append_pairs(&mut r, &v);
                    proof {
                        seq_to_set_distributes_over_add(pair_views(before), pair_views(v@));
                        assert(pair_views(v@) == v@.map_values(|p: (String, String)| (p.0@, p.1@)));
                    }
                },
                None => {},
            }
        }
        assert(pair_set(r@) =~= side_pairs_spec(reqs@.take(i + 1), h3));
        i = i + 1;
    }
    assert(reqs@.take(reqs.len() as int) =~= reqs@);
    r
}

/// The plaintext bodies of the requests on one side, each once.
fn side_bodies(reqs: &Vec<RequestInCSV>, h3: bool) -> (r: Vec<String>)
    ensures
        distinct_strings(r@),
        string_set(r@) == side_bodies_spec(reqs@, h3),
{
    let mut r: Vec<String> = Vec::new();
    let mut i: usize = 0;
    assert(string_set(r@) =~= Set::<Seq<char>>::empty());
    while i < reqs.len()
        invariant
            i <= reqs.len(),
            distinct_strings(r@),
            string_set(r@) == side_bodies_spec(reqs@.take(i as int), h3),
        decreases reqs.len() - i,
    {
        assert(reqs@.take(i + 1).drop_last() =~= reqs@.take(i as int));
        assert(reqs@.take(i + 1).last() == reqs@[i as int]);
        if request_on_side(&reqs[i], h3) {
            match &reqs[i].bodyplaintext {
                Some(b) => {
                    insert_string(&mut r, b.clone());
                },
                None => {},
            }
        }
        assert(string_set(r@) =~= side_bodies_spec(reqs@.take(i + 1), h3));
        i = i + 1;
    }
    assert(reqs@.take(reqs.len() as int) =~= reqs@);
    r
}

fn push_diff(diffs: &mut Vec<ReportDiff>, d: ReportDiff)
    ensures
        diff_models(final(diffs)@) == diff_models(old(diffs)@).push(diff_model(d)),
        final(diffs)@ == old(diffs)@.push(d),
{
    let ghost before = diffs@;
    diffs.push(d);
    assert(diff_models(diffs@) =~= diff_models(before).push(diff_model(d)));
}

/// The header differences whose header is one of `keys`.
pub open spec fn header_diffs_for(
    p2: Set<(Seq<char>, Seq<char>)>,
    p3: Set<(Seq<char>, Seq<char>)>,
    keys: Set<Seq<char>>,
) -> Set<(DiffType, Seq<char>, Set<Seq<char>>)> {
    header_diffs(p2, p3).filter(|d: (DiffType, Seq<char>, Set<Seq<char>>)| keys.contains(d.1))
}

/// The header differences (see `header_diffs`), each once.
fn header_differences(h2_pairs: &Vec<(String, String)>, h3_pairs: &Vec<(String, String)>) -> (r: Vec<
    ReportDiff,
>)
    ensures
        diff_models(r@).no_duplicates(),
        diff_models(r@).to_set() == header_diffs(pair_set(h2_pairs@), pair_set(h3_pairs@)),
        forall|i: int| 0 <= i < r@.len() ==> distinct_strings(#[trigger] r@[i].h3_vs@),
{
    let ghost p2 = pair_set(h2_pairs@);
    let ghost p3 = pair_set(h3_pairs@);
    let keys = distinct_keys(h3_pairs);
    let ghost ks = string_views(keys@);
    let mut diffs: Vec<ReportDiff> = Vec::new();
    let mut i: usize = 0;
    assert(diff_models(diffs@).to_set() =~= header_diffs_for(p2, p3, ks.take(0).to_set()));
    while i < keys.len()
        invariant
            i <= keys.len(),
            p2 == pair_set(h2_pairs@),
            p3 == pair_set(h3_pairs@),
            ks == string_views(keys@),
            ks.no_duplicates(),
            ks.to_set() == key_set(p3),
            diff_models(diffs@).no_duplicates(),
            diff_models(diffs@).to_set() == header_diffs_for(p2, p3, ks.take(i as int).to_set()),
            forall|j: int| 0 <= j < diffs@.len() ==> ks.take(i as int).contains(#[trigger] diff_models(diffs@)[j].1),
            forall|j: int| 0 <= j < diffs@.len() ==> distinct_strings(#[trigger] diffs@[j].h3_vs@),
        decreases keys.len() - i,
    {
        let k = &keys[i];
        assert(ks[i as int] == k@);
        assert(key_set(p3).contains(k@)) by {
            assert(ks.contains(k@));
        }
        let ghost done = ks.take(i as int).to_set();
        let ghost next = ks.take(i + 1).to_set();
        proof {
            assert(ks.take(i + 1) =~= ks.take(i as int).push(k@));
            ks.take(i as int).lemma_push_to_set_commute(k@);
            assert(!done.contains(k@)) by {
                if done.contains(k@) {
                    let j = choose|j: int| 0 <= j < i && ks.take(i as int)[j] == k@;
                    assert(ks[j] == ks[i as int]);
                }
            }
        }
        let vals = distinct_values_of(h3_pairs, k);
        if has_key(h2_pairs, k) {
            let ghost start = diff_models(diffs@);
            let ghost vs = string_views(vals@);
            let mut j: usize = 0;
            while j < vals.len()
                invariant
                    j <= vals.len(),
                    p2 == pair_set(h2_pairs@),
                    p3 == pair_set(h3_pairs@),
                    vs == string_views(vals@),
                    vs.no_duplicates(),
                    vs.to_set() == values_of(p3, k@),
                    key_set(p2).contains(k@),
                    key_set(p3).contains(k@),
                    !done.contains(k@),
                    start.no_duplicates(),
                    forall|t: int| 0 <= t < start.len() ==> done.contains(#[trigger] start[t].1),
                    diff_models(diffs@).len() >= start.len(),
                    diff_models(diffs@).take(start.len() as int) == start,
                    forall|t: int| start.len() <= t < diff_models(diffs@).len() ==> {
                        &&& (#[trigger] diff_models(diffs@)[t]).0 == DiffType::DIFFERENT
                        &&& diff_models(diffs@)[t].1 == k@
                    },
                    diff_models(diffs@).no_duplicates(),
                    diff_models(diffs@).to_set() == start.to_set() + Set::new(
                        |d: (DiffType, Seq<char>, Set<Seq<char>>)|
                            d.0 == DiffType::DIFFERENT && d.1 == k@ && exists|v: Seq<char>|
                                #![trigger vs.take(j as int).contains(v)]
                                d.2 == set![v] && vs.take(j as int).contains(v) && !p2.contains((k@, v)),
                    ),
                    forall|t: int| 0 <= t < diffs@.len() ==> distinct_strings(#[trigger] diffs@[t].h3_vs@),
                decreases vals.len() - j,
            {
                let v = &vals[j];
                let ghost tj1 = vs.take(j + 1);
                assert(vs[j as int] == v@);
                let ghost before = diff_models(diffs@);
                let ghost old_new = Set::new(
                    |d: (DiffType, Seq<char>, Set<Seq<char>>)|
                        d.0 == DiffType::DIFFERENT && d.1 == k@ && exists|w: Seq<char>|
                            #![trigger vs.take(j as int).contains(w)]
                            d.2 == set![w] && vs.take(j as int).contains(w) && !p2.contains((k@, w)),
                );
                let ghost new_new = Set::new(
                    |d: (DiffType, Seq<char>, Set<Seq<char>>)|
                        d.0 == DiffType::DIFFERENT && d.1 == k@ && exists|w: Seq<char>|
                            #![trigger vs.take(j + 1).contains(w)]
                            d.2 == set![w] && vs.take(j + 1).contains(w) && !p2.contains((k@, w)),
                );
                proof {
                    assert(vs.take(j + 1) =~= vs.take(j as int).push(v@));
                }
                if !has_pair(h2_pairs, k, v) {
                    let mut one: Vec<String> = Vec::new();
                    one.push(v.clone());
                    proof {
                        assert(string_views(one@) =~= seq![v@]);
                        assert(string_set(one@) =~= set![v@]) by {
                            assert(seq![v@][0] == v@);
                        }
                    }
                    let d = ReportDiff { diff: DiffType::DIFFERENT, diff_header: k.clone(), h3_vs: one };
                    let ghost dm = diff_model(d);
                    push_diff(&mut diffs, d);
                    proof {
                        assert(!before.contains(dm)) by {
                            if before.contains(dm) {
                                let t = choose|t: int| 0 <= t < before.len() && before[t] == dm;
                                if t < start.len() {
                                    assert(before.take(start.len() as int)[t] == before[t]);
                                    assert(start[t] == before[t]);
                                    assert(done.contains(start[t].1));
                                    assert(false);
                                } else {
                                    assert(old_new.contains(before[t])) by {
                                        assert(before.to_set().contains(before[t]));
                                        if start.to_set().contains(before[t]) {
                                            let u = choose|u: int| 0 <= u < start.len() && start[u] == before[t];
                                            assert(done.contains(start[u].1));
                                        }
                                    }
                                    let w = choose|w: Seq<char>|
                                        #![trigger vs.take(j as int).contains(w)]
                                        before[t].2 == set![w] && vs.take(j as int).contains(w) && !p2.contains((k@, w));
                                    assert(set![w].contains(w));
                                    assert(before[t].2 == set![v@]);
                                    assert(set![v@].contains(w));
                                    assert(w == v@);
                                    let a = choose|a: int| 0 <= a < j && vs.take(j as int)[a] == w;
                                    assert(vs[a] == vs[j as int]);
                                    assert(false);
                                }
                            }
                        }
                        before.lemma_push_to_set_commute(dm);
                        assert(diff_models(diffs@).take(start.len() as int) =~= start);
                        assert forall|x: (DiffType, Seq<char>, Set<Seq<char>>)| new_new.contains(x) implies #[trigger] old_new.insert(dm).contains(x) by {
                            let w = choose|w: Seq<char>|
                                #![trigger vs.take(j + 1).contains(w)]
                                x.2 == set![w] && vs.take(j + 1).contains(w) && !p2.contains((k@, w));
                            if w != v@ {
                                let a = choose|a: int| 0 <= a < j + 1 && tj1[a] == w;
                                assert(vs.take(j as int).contains(w)) by {
                                    assert(vs.take(j as int)[a] == w);
                                }
                            }
                        }
                        assert forall|x: (DiffType, Seq<char>, Set<Seq<char>>)| old_new.insert(dm).contains(x) implies #[trigger] new_new.contains(x) by {
                            if x == dm {
                                assert(vs.take(j + 1).contains(v@)) by {
                                    assert(vs.take(j + 1)[j as int] == v@);
                                }
                            } else {
                                let w = choose|w: Seq<char>|
                                    #![trigger vs.take(j as int).contains(w)]
                                    x.2 == set![w] && vs.take(j as int).contains(w) && !p2.contains((k@, w));
                                let a = choose|a: int| 0 <= a < j && vs.take(j as int)[a] == w;
                                assert(vs.take(j + 1).contains(w)) by {
                                    assert(vs.take(j + 1)[a] == w);
                                }
                            }
                        }
                        assert(new_new =~= old_new.insert(dm));
                        assert(diff_models(diffs@).to_set() =~= start.to_set() + new_new);
                    }
                } else {
                    proof {
                        assert forall|x: (DiffType, Seq<char>, Set<Seq<char>>)| new_new.contains(x) implies #[trigger] old_new.contains(x) by {
                            let w = choose|w: Seq<char>|
                                #![trigger vs.take(j + 1).contains(w)]
                                x.2 == set![w] && vs.take(j + 1).contains(w) && !p2.contains((k@, w));
                            if w != v@ {
                                let a = choose|a: int| 0 <= a < j + 1 && tj1[a] == w;
                                assert(vs.take(j as int).contains(w)) by {
                                    assert(vs.take(j as int)[a] == w);
                                }
                            }
                        }
                        assert forall|x: (DiffType, Seq<char>, Set<Seq<char>>)| old_new.contains(x) implies #[trigger] new_new.contains(x) by {
                            let w = choose|w: Seq<char>|
                                #![trigger vs.take(j as int).contains(w)]
                                x.2 == set![w] && vs.take(j as int).contains(w) && !p2.contains((k@, w));
                            let a = choose|a: int| 0 <= a < j && vs.take(j as int)[a] == w;
                            assert(vs.take(j + 1).contains(w)) by {
                                assert(vs.take(j + 1)[a] == w);
                            }
                        }
                        assert(new_new =~= old_new);
                    }
                }
                j = j + 1;
            }
            proof {
                assert(vs.take(vals.len() as int) =~= vs);
                let added = Set::new(
                    |d: (DiffType, Seq<char>, Set<Seq<char>>)|
                        d.0 == DiffType::DIFFERENT && d.1 == k@ && exists|v: Seq<char>|
                            #![trigger vs.take(vals.len() as int).contains(v)]
                            d.2 == set![v] && vs.take(vals.len() as int).contains(v) && !p2.contains((k@, v)),
                );
                assert forall|x: (DiffType, Seq<char>, Set<Seq<char>>)| header_diffs_for(p2, p3, next).contains(x) implies #[trigger] (start.to_set() + added).contains(x) by {
                    if x.1 == k@ {
                        let w = choose|w: Seq<char>|
                            #![trigger p3.contains((x.1, w))]
                            x.2 == set![w] && p3.contains((x.1, w)) && !p2.contains((x.1, w));
                        assert(values_of(p3, k@).contains(w));
                        assert(vs.contains(w));
                    } else {
                        assert(done.contains(x.1));
                        assert(header_diffs_for(p2, p3, done).contains(x));
                    }
                }
                assert forall|x: (DiffType, Seq<char>, Set<Seq<char>>)| (start.to_set() + added).contains(x) implies #[trigger] header_diffs_for(p2, p3, next).contains(x) by {
                    if added.contains(x) {
                        let w = choose|w: Seq<char>|
                            #![trigger vs.take(vals.len() as int).contains(w)]
                            x.2 == set![w] && vs.take(vals.len() as int).contains(w) && !p2.contains((k@, w));
                        assert(values_of(p3, k@).contains(w));
                        assert(p3.contains((x.1, w)));
                    } else {
                        assert(header_diffs_for(p2, p3, done).contains(x));
                    }
                }
                assert(diff_models(diffs@).to_set() =~= header_diffs_for(p2, p3, next));
                assert forall|t: int| 0 <= t < diffs@.len() implies ks.take(i + 1).contains(#[trigger] diff_models(diffs@)[t].1) by {
                    if t < start.len() {
                        assert(diff_models(diffs@)[t] == start[t]);
                        assert(done.contains(start[t].1));
                        let a = choose|a: int| 0 <= a < i && ks.take(i as int)[a] == start[t].1;
                        assert(ks.take(i + 1)[a] == start[t].1);
                    } else {
                        assert(ks.take(i + 1)[i as int] == k@);
                    }
                }
            }
        } else {
            let d = ReportDiff { diff: DiffType::DISTINCT, diff_header: k.clone(), h3_vs: vals };
            let ghost dm = diff_model(d);
            let ghost before = diff_models(diffs@);
            push_diff(&mut diffs, d);
            proof {
                assert(!before.contains(dm)) by {
                    if before.contains(dm) {
                        let t = choose|t: int| 0 <= t < before.len() && before[t] == dm;
                        let a = choose|a: int| 0 <= a < i && ks.take(i as int)[a] == before[t].1;
                        assert(ks[a] == ks[i as int]);
                    }
                }
                before.lemma_push_to_set_commute(dm);
                assert forall|x: (DiffType, Seq<char>, Set<Seq<char>>)| header_diffs_for(p2, p3, next).contains(x) implies #[trigger] before.to_set().insert(dm).contains(x) by {
                    if x.1 == k@ {
                        assert(x.0 == DiffType::DISTINCT);
                        assert(x == dm);
                    } else {
                        assert(header_diffs_for(p2, p3, done).contains(x));
                    }
                }
                assert forall|x: (DiffType, Seq<char>, Set<Seq<char>>)| before.to_set().insert(dm).contains(x) implies #[trigger] header_diffs_for(p2, p3, next).contains(x) by {
                    if x != dm {
                        assert(header_diffs_for(p2, p3, done).contains(x));
                    }
                }
                assert(diff_models(diffs@).to_set() =~= header_diffs_for(p2, p3, next));
                assert forall|t: int| 0 <= t < diffs@.len() implies ks.take(i + 1).contains(#[trigger] diff_models(diffs@)[t].1) by {
                    if t < before.len() {
                        assert(diff_models(diffs@)[t] == before[t]);
                        let a = choose|a: int| 0 <= a < i && ks.take(i as int)[a] == before[t].1;
                        assert(ks.take(i + 1)[a] == before[t].1);
                    } else {
                        assert(ks.take(i + 1)[i as int] == k@);
                    }
                }
            }
        }
        i = i + 1;
    }
    proof {
        assert(ks.take(keys.len() as int) =~= ks);
        assert forall|x: (DiffType, Seq<char>, Set<Seq<char>>)| header_diffs(p2, p3).contains(x) implies #[trigger] ks.to_set().contains(x.1) by {
            if x.0 == DiffType::DIFFERENT {
                let w = choose|w: Seq<char>|
                    #![trigger p3.contains((x.1, w))]
                    x.2 == set![w] && p3.contains((x.1, w)) && !p2.contains((x.1, w));
                assert(key_set(p3).contains(x.1));
            }
        }
        assert(header_diffs_for(p2, p3, ks.to_set()) =~= header_diffs(p2, p3));
    }
    diffs
}

/// The body differences whose body is one of `bodies`.
pub open spec fn body_diffs_for(b2: Set<Seq<char>>, bodies: Set<Seq<char>>) -> Set<
    (DiffType, Seq<char>, Set<Seq<char>>),
> {
    Set::new(
        |d: (DiffType, Seq<char>, Set<Seq<char>>)|
            d.0 == DiffType::DISTINCT && d.1 == "body"@ && exists|b: Seq<char>|
                #![trigger bodies.contains(b)]
                d.2 == set![b] && bodies.contains(b) && !b2.contains(b),
    )
}

/// The body differences (see `body_diffs`), each once.
fn body_differences(h2_bodies: &Vec<String>, h3_bodies: &Vec<String>) -> (r: Vec<ReportDiff>)
    requires
        distinct_strings(h3_bodies@),
    ensures
        diff_models(r@).no_duplicates(),
        diff_models(r@).to_set() == body_diffs(string_set(h2_bodies@), string_set(h3_bodies@)),
        forall|i: int| 0 <= i < r@.len() ==> distinct_strings(#[trigger] r@[i].h3_vs@),
{
    let ghost b2 = string_set(h2_bodies@);
    let ghost bs = string_views(h3_bodies@);
    let mut diffs: Vec<ReportDiff> = Vec::new();
    let mut i: usize = 0;
    assert(diff_models(diffs@).to_set() =~= body_diffs_for(b2, bs.take(0).to_set()));
    while i < h3_bodies.len()
        invariant
            i <= h3_bodies.len(),
            b2 == string_set(h2_bodies@),
            bs == string_views(h3_bodies@),
            bs.no_duplicates(),
            diff_models(diffs@).no_duplicates(),
            diff_models(diffs@).to_set() == body_diffs_for(b2, bs.take(i as int).to_set()),
            forall|j: int| 0 <= j < diffs@.len() ==> bs.take(i as int).to_set().contains(
                #[trigger] diff_models(diffs@)[j].2.choose(),
            ) && diff_models(diffs@)[j].2 == set![diff_models(diffs@)[j].2.choose()],
            forall|j: int| 0 <= j < diffs@.len() ==> distinct_strings(#[trigger] diffs@[j].h3_vs@),
        decreases h3_bodies.len() - i,
    {
        let b = &h3_bodies[i];
        assert(bs[i as int] == b@);
        let ghost done = bs.take(i as int).to_set();
        let ghost next = bs.take(i + 1).to_set();
        proof {
            assert(bs.take(i + 1) =~= bs.take(i as int).push(b@));
            bs.take(i as int).lemma_push_to_set_commute(b@);
            assert(!done.contains(b@)) by {
                if done.contains(b@) {
                    let j = choose|j: int| 0 <= j < i && bs.take(i as int)[j] == b@;
                    assert(bs[j] == bs[i as int]);
                }
            }
        }
        let ghost before = diff_models(diffs@);
        if !contains_string(h2_bodies, b) {
            let mut one: Vec<String> = Vec::new();
            one.push(b.clone());
            proof {
                assert(string_views(one@) =~= seq![b@]);
                assert(string_set(one@) =~= set![b@]) by {
                    assert(seq![b@][0] == b@);
                }
            }
            let d = ReportDiff { diff: DiffType::DISTINCT, diff_header: String::from_str("body"), h3_vs: one };
            let ghost dm = diff_model(d);
            push_diff(&mut diffs, d);
            proof {
                assert(set![b@].choose() == b@) by {
                    assert(set![b@].contains(b@));
                    assert(set![b@].contains(set![b@].choose()));
                }
                assert(!before.contains(dm)) by {
                    if before.contains(dm) {
                        let t = choose|t: int| 0 <= t < before.len() && before[t] == dm;
                        assert(before[t].2.choose() == b@);
                    }
                }
                before.lemma_push_to_set_commute(dm);
                assert forall|x: (DiffType, Seq<char>, Set<Seq<char>>)| body_diffs_for(b2, next).contains(x) implies #[trigger] before.to_set().insert(dm).contains(x) by {
                    let c = choose|c: Seq<char>| #![trigger next.contains(c)] x.2 == set![c] && next.contains(c) && !b2.contains(c);
                    if c != b@ {
                        assert(done.contains(c));
                        assert(body_diffs_for(b2, done).contains(x));
                    }
                }
                assert forall|x: (DiffType, Seq<char>, Set<Seq<char>>)| before.to_set().insert(dm).contains(x) implies #[trigger] body_diffs_for(b2, next).contains(x) by {
                    if x != dm {
                        assert(body_diffs_for(b2, done).contains(x));
                        let c = choose|c: Seq<char>| #![trigger done.contains(c)] x.2 == set![c] && done.contains(c) && !b2.contains(c);
                        assert(next.contains(c));
                    } else {
                        assert(next.contains(b@));
                    }
                }
                assert(diff_models(diffs@).to_set() =~= body_diffs_for(b2, next));
            }
        } else {
            proof {
                assert forall|x: (DiffType, Seq<char>, Set<Seq<char>>)| body_diffs_for(b2, next).contains(x) implies #[trigger] body_diffs_for(b2, done).contains(x) by {
                    let c = choose|c: Seq<char>| #![trigger next.contains(c)] x.2 == set![c] && next.contains(c) && !b2.contains(c);
                    assert(done.contains(c));
                }
                assert forall|x: (DiffType, Seq<char>, Set<Seq<char>>)| body_diffs_for(b2, done).contains(x) implies #[trigger] body_diffs_for(b2, next).contains(x) by {
                    let c = choose|c: Seq<char>| #![trigger done.contains(c)] x.2 == set![c] && done.contains(c) && !b2.contains(c);
                    assert(next.contains(c));
                }
                assert(body_diffs_for(b2, next) =~= body_diffs_for(b2, done));
            }
        }
        i = i + 1;
    }
    assert(bs.take(h3_bodies.len() as int) =~= bs);
    assert(body_diffs_for(b2, bs.to_set()) =~= body_diffs(b2, string_set(h3_bodies@)));
    diffs
}

/// `diffs` lists each difference of the set once.
pub open spec fn lists_diffs(diffs: Seq<ReportDiff>, expected: Set<(DiffType, Seq<char>, Set<Seq<char>>)>) -> bool {
    &&& diff_models(diffs).no_duplicates()
    &&& diff_models(diffs).to_set() == expected
    &&& forall|i: int| 0 <= i < diffs.len() ==> distinct_strings(#[trigger] diffs[i].h3_vs@)
}

/// The differences of a group of requests: the header differences, then
/// the body differences, each listed once.
pub open spec fn is_report(group: Seq<RequestInCSV>, diffs: Seq<ReportDiff>) -> bool {
    exists|n: int|
        0 <= n <= diffs.len() && lists_diffs(
            #[trigger] diffs.take(n),
            header_diffs(side_pairs_spec(group, false), side_pairs_spec(group, true)),
        ) && lists_diffs(
            diffs.skip(n),
            body_diffs(side_bodies_spec(group, false), side_bodies_spec(group, true)),
        )
}

/// Compares the headers and bodies of the HTTP/3 requests of a group (the
/// requests to one URI, at least one) with those of its HTTP/2 requests.
pub fn compare_h2_h3_request(req_group: &Vec<RequestInCSV>) -> (r: Vec<ReportDiff>)
    requires
        req_group@.len() > 0,
        headers_readable(req_group@),
    ensures
        is_report(req_group@, r@),
{
    let h2_pairs = side_pairs(req_group, false);
    let h3_pairs = side_pairs(req_group, true);
    let mut diffs = header_differences(&h2_pairs, &h3_pairs);
    let h2_bodies = side_bodies(req_group, false);
    let h3_bodies = side_bodies(req_group, true);
    let mut body = body_differences(&h2_bodies, &h3_bodies);
    let ghost hd = diffs@;
    let ghost bd = body@;
    diffs.append(&mut body);
    proof {
        assert(diffs@.take(hd.len() as int) =~= hd);
        assert(diffs@.skip(hd.len() as int) =~= bd);
        assert(diff_models(diffs@.take(hd.len() as int)) == diff_models(hd));
        assert(lists_diffs(diffs@.take(hd.len() as int), header_diffs(side_pairs_spec(req_group@, false), side_pairs_spec(req_group@, true))));
    }
    diffs
}

/// The differences found for the requests to one URI.
pub struct GroupDiff {
    pub uri: String,
    pub diffs: Vec<ReportDiff>,
}

/// All requests of the group are to the URI of the first.
pub open spec fn same_uri(g: Seq<RequestInCSV>) -> bool {
    forall|a: int| 0 <= a < g.len() ==> #[trigger] g[a].uri@ == g[0].uri@
}

/// `gs` splits the first `m` requests into groups: none is empty, the
/// requests of a group are to one URI, neighbouring groups differ in it, and
/// the request after them is to another URI than the last group.
pub open spec fn uri_groups(reqs: Seq<RequestInCSV>, gs: Seq<Seq<RequestInCSV>>, m: int) -> bool {
    &&& 0 <= m <= reqs.len()
    &&& gs.flatten_alt() == reqs.take(m)
    &&& forall|k: int| 0 <= k < gs.len() ==> #[trigger] gs[k].len() > 0 && same_uri(gs[k])
    &&& forall|k: int| 0 < k < gs.len() ==> #[trigger] gs[k][0].uri@ != gs[k - 1][0].uri@
    &&& (gs.len() > 0 && m < reqs.len() ==> reqs[m].uri@ != gs.last()[0].uri@)
}

/// The requests from `m` up to `e` are all to one URI, and the request at
/// `e`, if any, is to another.
pub open spec fn run_at(reqs: Seq<RequestInCSV>, m: int, e: int) -> bool {
    &&& 0 <= m < e <= reqs.len()
    &&& forall|a: int| m <= a < e ==> #[trigger] reqs[a].uri@ == reqs[m].uri@
    &&& (e < reqs.len() ==> reqs[e].uri@ != reqs[m].uri@)
}

/// Whether the header text of every compared request of the group is a JSON
/// object of strings.
pub fn group_headers_readable(group: &Vec<RequestInCSV>) -> (r: bool)
    ensures
        r == headers_readable(group@),
{
    let mut i: usize = 0;
    while i < group.len()
        invariant
            i <= group.len(),
            forall|j: int|
                0 <= j < i && (on_side(group@[j], true) || on_side(group@[j], false))
                    ==> #[trigger] json_string_object(group@[j].header@) is Some,
        decreases group.len() - i,
    {
        let g = &group[i];
        if request_on_side(g, true) || request_on_side(g, false) {
            if parse_json_string_object(g.header.as_str()).is_none() {
                return false;
            }
        }
        i = i + 1;
    }
    true
}

fn copy_opt_string(o: &Option<String>) -> (r: Option<String>)
    ensures
        r == *o,
{
    match o {
        Some(s) => Some(s.clone()),
        None => None,
    }
}

fn copy_request(r: &RequestInCSV) -> (c: RequestInCSV)
    ensures
        c == *r,
{
    RequestInCSV {
        _id: r._id.clone(),
        app: r.app.clone(),
        withquic: r.withquic,
        uri: r.uri.clone(),
        method: r.method.clone(),
        version: r.version.clone(),
        header: r.header.clone(),
        bodytype: copy_opt_string(&r.bodytype),
        bodyplaintext: copy_opt_string(&r.bodyplaintext),
    }
}

/// Each group was compared: the report's URI is the group's, and its
/// differences are those of the group.
pub open spec fn groups_reported(groups: Seq<GroupDiff>, gs: Seq<Seq<RequestInCSV>>) -> bool {
    &&& groups.len() == gs.len()
    &&& forall|k: int|
        0 <= k < gs.len() ==> #[trigger] groups[k].uri@ == gs[k][0].uri@ && is_report(gs[k], groups[k].diffs@)
}

/// What the analysis of `reqs` gives: the groups `gs` of the first `m`
/// requests are reported; when the analysis completed, these are all the
/// requests, so that every group is reported; otherwise the group from `m`
/// on has a header that cannot be read.
pub open spec fn analysis_outcome(
    reqs: Seq<RequestInCSV>,
    groups: Seq<GroupDiff>,
    complete: bool,
    gs: Seq<Seq<RequestInCSV>>,
    m: int,
) -> bool {
    &&& uri_groups(reqs, gs, m)
    &&& groups_reported(groups, gs)
    &&& complete ==> m == reqs.len()
    &&& !complete ==> exists|e: int|
        run_at(reqs, m, e) && !headers_readable(#[trigger] reqs.subrange(m, e))
}

/// Adding the compared group of the requests from `cs` up to `i` keeps the
/// grouping and the reports.
proof fn lemma_group_step(
    reqs: Seq<RequestInCSV>,
    gs: Seq<Seq<RequestInCSV>>,
    cs: int,
    i: int,
    before: Seq<GroupDiff>,
    after: Seq<GroupDiff>,
)
    requires
        uri_groups(reqs, gs, cs),
        run_at(reqs, cs, i),
        groups_reported(before, gs),
        after.len() == before.len() + 1,
        forall|k: int| 0 <= k < before.len() ==> #[trigger] after[k] == before[k],
        after.last().uri@ == reqs[cs].uri@,
        is_report(reqs.subrange(cs, i), after.last().diffs@),
    ensures
        uri_groups(reqs, gs.push(reqs.subrange(cs, i)), i),
        groups_reported(after, gs.push(reqs.subrange(cs, i))),
{
    let g = reqs.subrange(cs, i);
    let gs2 = gs.push(g);
    assert(gs2.drop_last() =~= gs);
    assert(reqs.take(cs) + g =~= reqs.take(i));
    assert(gs2.flatten_alt() =~= reqs.take(i));
    assert forall|k: int| 0 <= k < gs2.len() implies #[trigger] gs2[k].len() > 0 && same_uri(gs2[k]) by {
        if k == gs.len() {
            assert forall|a: int| 0 <= a < g.len() implies #[trigger] g[a].uri@ == g[0].uri@ by {
                assert(g[a] == reqs[cs + a]);
            }
        } else {
            assert(gs2[k] == gs[k]);
        }
    }
    assert forall|k: int| 0 < k < gs2.len() implies #[trigger] gs2[k][0].uri@ != gs2[k - 1][0].uri@ by {
        if k == gs.len() {
            assert(gs2[k - 1] == gs.last());
            assert(g[0] == reqs[cs]);
        } else {
            assert(gs2[k] == gs[k]);
            assert(gs2[k - 1] == gs[k - 1]);
        }
    }
    assert(g[0] == reqs[cs]);
    assert(uri_groups(reqs, gs2, i));
    assert forall|k: int| 0 <= k < gs2.len() implies #[trigger] after[k].uri@ == gs2[k][0].uri@ && is_report(
        gs2[k],
        after[k].diffs@,
    ) by {
        if k < gs.len() {
            assert(after[k] == before[k]);
        } else {
            assert(gs2[k] == g);
        }
    }
}

/// Groups consecutive requests to the same URI and compares each group, in
/// order (see `compare_h2_h3_request`). The flag is false where the
/// comparison stopped at a group with a header that is not a JSON object of
/// strings; the groups compared before it are returned.
pub fn analyze_requests(reqs_vec: Vec<RequestInCSV>) -> (r: (Vec<GroupDiff>, bool))
    ensures
        exists|gs: Seq<Seq<RequestInCSV>>, m: int| #[trigger] analysis_outcome(reqs_vec@, r.0@, r.1, gs, m),
{
    let ghost reqs = reqs_vec@;
    let n = reqs_vec.len();
    let mut groups: Vec<GroupDiff> = Vec::new();
    let mut cur: Vec<RequestInCSV> = Vec::new();
    let ghost mut gs: Seq<Seq<RequestInCSV>> = seq![];
    let mut cs: usize = 0;
    let mut i: usize = 0;
    assert(gs.flatten_alt() =~= reqs.take(0));
    while i < n
        invariant
            reqs == reqs_vec@,
            n == reqs.len(),
            cs <= i <= n,
            uri_groups(reqs, gs, cs as int),
            cur@ == reqs.subrange(cs as int, i as int),
            forall|a: int| cs <= a < i ==> #[trigger] reqs[a].uri@ == reqs[cs as int].uri@,
            cs == i ==> i == 0,
            groups_reported(groups@, gs),
        decreases n - i,
    {
        let r = &reqs_vec[i];
        if cur.len() == 0 || cur[0].uri == r.uri {
            cur.push(copy_request(r));
            assert(cur@ =~= reqs.subrange(cs as int, i + 1));
        } else {
            assert(cur@[0] == reqs[cs as int]);
            assert(run_at(reqs, cs as int, i as int));
            if !group_headers_readable(&cur) {
                let r = (groups, false);
                assert(analysis_outcome(reqs_vec@, r.0@, r.1, gs, cs as int));
                return r;
            }
            let diffs = compare_h2_h3_request(&cur);
            let uri = cur[0].uri.clone();
            let ghost before = groups@;
            groups.push(GroupDiff { uri, diffs });
            proof {
                lemma_group_step(reqs, gs, cs as int, i as int, before, groups@);
                gs = gs.push(reqs.subrange(cs as int, i as int));
            }
            cs = i;
            cur = Vec::new();
            cur.push(copy_request(r));
            assert(cur@ =~= reqs.subrange(cs as int, i + 1));
        }
        i = i + 1;
    }
    if cur.len() > 0 {
        assert(cur@[0] == reqs[cs as int]);
        assert(run_at(reqs, cs as int, n as int));
        if !group_headers_readable(&cur) {
            let r = (groups, false);
            assert(analysis_outcome(reqs_vec@, r.0@, r.1, gs, cs as int));
            return r;
        }
        let diffs = compare_h2_h3_request(&cur);
        let uri = cur[0].uri.clone();
        let ghost before = groups@;
        groups.push(GroupDiff { uri, diffs });
        proof {
            lemma_group_step(reqs, gs, cs as int, n as int, before, groups@);
            gs = gs.push(reqs.subrange(cs as int, n as int));
        }
        let r = (groups, true);
        assert(analysis_outcome(reqs_vec@, r.0@, r.1, gs, n as int));
        r
    } else {
        let r = (groups, true);
        assert(analysis_outcome(reqs_vec@, r.0@, r.1, gs, 0));
        r
    }
}

} // verus!
