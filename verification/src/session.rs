//! Putting together the data of one app in one session.
use crate::data::{crypto_records_of, record_models, AppData, NetworkData};
use crate::events::Events;
use crate::text::chars_of;
use std::sync::Arc;
use vstd::prelude::*;
use vstd::string::StringExecFns;

verus! {

/// Whether `char::is_whitespace` holds: the characters with the Unicode
/// `White_Space` property.
pub open spec fn is_white_space(c: char) -> bool {
    ||| ('\t' <= c <= '\r')
    ||| c == ' '
    ||| c == '\u{85}'
    ||| c == '\u{a0}'
    ||| c == '\u{1680}'
    ||| ('\u{2000}' <= c <= '\u{200a}')
    ||| c == '\u{2028}'
    ||| c == '\u{2029}'
    ||| c == '\u{202f}'
    ||| c == '\u{205f}'
    ||| c == '\u{3000}'
}

/// The number of white space characters at the start of `s`.
pub open spec fn leading_ws(s: Seq<char>) -> nat
    decreases s.len(),
{
    if s.len() > 0 && is_white_space(s[0]) {
        1 + leading_ws(s.drop_first())
    } else {
        0
    }
}

/// The number of white space characters at the end of `s`.
pub open spec fn trailing_ws(s: Seq<char>) -> nat
    decreases s.len(),
{
    if s.len() > 0 && is_white_space(s.last()) {
        1 + trailing_ws(s.drop_last())
    } else {
        0
    }
}

/// The text without white space at its start and end (what `str::trim`
/// gives).
pub open spec fn trim_spec(s: Seq<char>) -> Seq<char> {
    if leading_ws(s) == s.len() {
        seq![]
    } else {
        s.subrange(leading_ws(s) as int, s.len() - trailing_ws(s))
    }
}

pub(crate) proof fn lemma_leading(s: Seq<char>, i: int)
    requires
        0 <= i <= s.len(),
        forall|j: int| 0 <= j < i ==> is_white_space(#[trigger] s[j]),
        i == s.len() || !is_white_space(s[i]),
    ensures
        leading_ws(s) == i,
    decreases i,
{
    if i > 0 {
        let t = s.drop_first();
        assert forall|j: int| 0 <= j < i - 1 implies is_white_space(#[trigger] t[j]) by {
            assert(t[j] == s[j + 1]);
        }
        if i < s.len() {
            assert(t[i - 1] == s[i]);
        }
        assert(is_white_space(s[0]));
        lemma_leading(t, i - 1);
    }
}

pub(crate) proof fn lemma_trailing(s: Seq<char>, i: int)
    requires
        0 <= i <= s.len(),
        forall|j: int| s.len() - i <= j < s.len() ==> is_white_space(#[trigger] s[j]),
        i == s.len() || !is_white_space(s[s.len() - 1 - i]),
    ensures
        trailing_ws(s) == i,
    decreases i,
{
    if i > 0 {
        let t = s.drop_last();
        assert forall|j: int| t.len() - (i - 1) <= j < t.len() implies is_white_space(#[trigger] t[j]) by {
            assert(t[j] == s[j]);
        }
        if i < s.len() {
            assert(t[t.len() - 1 - (i - 1)] == s[s.len() - 1 - i]);
        }
        assert(is_white_space(s[s.len() - 1]));
        lemma_trailing(t, i - 1);
    }
}

fn white_space(c: char) -> (r: bool)
    ensures
        r == is_white_space(c),
{
    ('\t' <= c && c <= '\r') || c == ' ' || c == '\u{85}' || c == '\u{a0}' || c == '\u{1680}' || ('\u{2000}'
        <= c && c <= '\u{200a}') || c == '\u{2028}' || c == '\u{2029}' || c == '\u{202f}' || c == '\u{205f}'
        || c == '\u{3000}'
}

/// The text without white space at its start and end (see `trim_spec`).
pub fn trim(s: &str) -> (r: &str)
    ensures
        r@ == trim_spec(s@),
{
    let v = chars_of(s);
    let n = v.len();
    let mut a: usize = 0;
    while a < n && white_space(v[a])
        invariant
            v@ == s@,
            n == v@.len(),
            a <= n,
            forall|j: int| 0 <= j < a ==> is_white_space(#[trigger] v@[j]),
        decreases n - a,
    {
        a = a + 1;
    }
    proof {
        lemma_leading(s@, a as int);
    }
    if a == n {
        return s.substring_char(0, 0);
    }
    let mut b: usize = n;
    while b > a && white_space(v[b - 1])
        invariant
            v@ == s@,
            n == v@.len(),
            a < n,
            !is_white_space(v@[a as int]),
            a <= b <= n,
            forall|j: int| b <= j < n ==> is_white_space(#[trigger] v@[j]),
        decreases b,
    {
        b = b - 1;
    }
    proof {
        lemma_trailing(s@, n - b);
    }
    s.substring_char(a, b)
}

impl AppData {
    /// The data of an app in a session: its flows, its events (from which
    /// the cipher records are recovered, see `load_cryptographic`), the
    /// device id read from its file (without surrounding white space) and
    /// the session number.
    pub fn new(data: NetworkData, events: Vec<Events>, device_id_text: Option<String>, session: u64) -> (r: AppData)
        ensures
            r.data == data,
            r.session == session,
            match device_id_text {
                Some(t) => r.device_id matches Some(d) && d@ == trim_spec(t@),
                None => r.device_id is None,
            },
            events@.len() == 0 ==> r.events@.len() == 0 && r.cryptographic@.len() == 0,
            events@.len() > 0 ==> {
                &&& r.events@ == crate::data::remaining_events(events@)
                &&& record_models(r.cryptographic@) == crypto_records_of(events@)
            },
    {
        let device_id = match &device_id_text {
            Some(t) => Some(String::from_str(trim(t.as_str()))),
            None => None,
        };
        let mut app_data = AppData { data, events, cryptographic: Arc::new(Vec::new()), device_id, session };
        app_data.load_cryptographic();
        app_data
    }
}

} // verus!
