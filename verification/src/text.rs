//! Character-level text operations on `str`, each with a contract over the
//! character sequence (`s@`) of its arguments.
use vstd::prelude::*;

verus! {

broadcast use vstd::string::group_string_axioms;

/// `i` is the position of the first `c` in `s`.
pub open spec fn is_first_of(s: Seq<char>, c: char, i: int) -> bool {
    &&& 0 <= i < s.len()
    &&& s[i] == c
    &&& forall|j: int| 0 <= j < i ==> s[j] != c
}

/// `i` is the position of the last `c` in `s`.
pub open spec fn is_last_of(s: Seq<char>, c: char, i: int) -> bool {
    &&& 0 <= i < s.len()
    &&& s[i] == c
    &&& forall|j: int| i < j < s.len() ==> s[j] != c
}

/// The position of the first `c` in `s`, if any.
pub open spec fn first_index(s: Seq<char>, c: char) -> Option<int> {
    if s.contains(c) {
        Some(choose|i: int| is_first_of(s, c, i))
    } else {
        None
    }
}

/// The position of the last `c` in `s`, if any.
pub open spec fn last_index(s: Seq<char>, c: char) -> Option<int> {
    if s.contains(c) {
        Some(choose|i: int| is_last_of(s, c, i))
    } else {
        None
    }
}

/// The parts of `s` before and after its first `c`.
pub open spec fn split_once_spec(s: Seq<char>, c: char) -> Option<(Seq<char>, Seq<char>)> {
    match first_index(s, c) {
        Some(i) => Some((s.take(i), s.skip(i + 1))),
        None => None,
    }
}

/// The parts of `s` before and after its last `c`.
pub open spec fn rsplit_once_spec(s: Seq<char>, c: char) -> Option<(Seq<char>, Seq<char>)> {
    match last_index(s, c) {
        Some(i) => Some((s.take(i), s.skip(i + 1))),
        None => None,
    }
}

/// The pieces of `s` between occurrences of `c` (one more piece than there
/// are occurrences; pieces may be empty).
pub open spec fn split_spec(s: Seq<char>, c: char) -> Seq<Seq<char>>
    decreases s.len(),
{
    match first_index(s, c) {
        Some(i) => if 0 <= i < s.len() {
            seq![s.take(i)] + split_spec(s.skip(i + 1), c)
        } else {
            seq![s]
        },
        None => seq![s],
    }
}

/// A line without its final carriage return, if it has one.
pub open spec fn strip_cr(line: Seq<char>) -> Seq<char> {
    if line.len() > 0 && line.last() == '\r' {
        line.drop_last()
    } else {
        line
    }
}

/// The lines of `s`: split at each `\n`, a `\r` before the `\n` is dropped,
/// and no empty line follows a final `\n`.
pub open spec fn lines_spec(s: Seq<char>) -> Seq<Seq<char>>
    decreases s.len(),
{
    if s.len() == 0 {
        seq![]
    } else {
        match first_index(s, '\n') {
            Some(i) => if 0 <= i < s.len() {
                seq![strip_cr(s.take(i))] + lines_spec(s.skip(i + 1))
            } else {
                seq![s]
            },
            None => seq![s],
        }
    }
}

proof fn lemma_first_exists(s: Seq<char>, c: char, k: int)
    requires
        0 <= k < s.len(),
        s[k] == c,
    ensures
        exists|i: int| is_first_of(s, c, i),
    decreases k,
{
    if exists|j: int| 0 <= j < k && s[j] == c {
        let j = choose|j: int| 0 <= j < k && s[j] == c;
        lemma_first_exists(s, c, j);
    } else {
        assert(is_first_of(s, c, k));
    }
}

proof fn lemma_last_exists(s: Seq<char>, c: char, k: int)
    requires
        0 <= k < s.len(),
        s[k] == c,
    ensures
        exists|i: int| is_last_of(s, c, i),
    decreases s.len() - k,
{
    if exists|j: int| k < j < s.len() && s[j] == c {
        let j = choose|j: int| k < j < s.len() && s[j] == c;
        lemma_last_exists(s, c, j);
    } else {
        assert(is_last_of(s, c, k));
    }
}

/// `first_index` is the first occurrence, or `None` when there is none.
pub proof fn lemma_first_index(s: Seq<char>, c: char)
    ensures
        match first_index(s, c) {
            Some(i) => is_first_of(s, c, i),
            None => forall|j: int| 0 <= j < s.len() ==> s[j] != c,
        },
{
    if s.contains(c) {
        let k = choose|k: int| 0 <= k < s.len() && s[k] == c;
        lemma_first_exists(s, c, k);
    }
}

/// `last_index` is the last occurrence, or `None` when there is none.
pub proof fn lemma_last_index(s: Seq<char>, c: char)
    ensures
        match last_index(s, c) {
            Some(i) => is_last_of(s, c, i),
            None => forall|j: int| 0 <= j < s.len() ==> s[j] != c,
        },
{
    if s.contains(c) {
        let k = choose|k: int| 0 <= k < s.len() && s[k] == c;
        lemma_last_exists(s, c, k);
    }
}

/// The characters of `s`, in order.
pub fn chars_of(s: &str) -> (v: Vec<char>)
    ensures
        v@ == s@,
{
    let mut v: Vec<char> = Vec::new();
    for ch in it: s.chars()
        invariant
            v@ == it.seq().take(it.index() as int),
            it.seq() == s@,
    {
        v.push(ch);
    }
    v
}

/// Position of the first `c` in `v` at or after `from`.
pub fn find_char_from(v: &Vec<char>, c: char, from: usize) -> (r: Option<usize>)
    requires
        from <= v.len(),
    ensures
        match r {
            Some(i) => from <= i < v.len() && v@[i as int] == c && forall|j: int|
                from <= j < i ==> v@[j] != c,
            None => forall|j: int| from <= j < v.len() ==> v@[j] != c,
        },
{
    let mut i = from;
    while i < v.len()
        invariant
            from <= i <= v.len(),
            forall|j: int| from <= j < i ==> v@[j] != c,
        decreases v.len() - i,
    {
        if v[i] == c {
            return Some(i);
        }
        i = i + 1;
    }
    None
}

/// Position of the first `c` in `v`.
pub fn find_char(v: &Vec<char>, c: char) -> (r: Option<usize>)
    ensures
        match r {
            Some(i) => first_index(v@, c) == Some(i as int),
            None => first_index(v@, c) is None,
        },
{
    let r = find_char_from(v, c, 0);
    proof {
        lemma_first_index(v@, c);
    }
    r
}

/// Position of the last `c` in `v`.
pub fn rfind_char(v: &Vec<char>, c: char) -> (r: Option<usize>)
    ensures
        match r {
            Some(i) => last_index(v@, c) == Some(i as int),
            None => last_index(v@, c) is None,
        },
{
    let mut i = v.len();
    proof {
        lemma_last_index(v@, c);
    }
    while i > 0
        invariant
            i <= v.len(),
            forall|j: int| i <= j < v.len() ==> v@[j] != c,
        decreases i,
    {
        i = i - 1;
        if v[i] == c {
            assert(is_last_of(v@, c, i as int));
            return Some(i);
        }
    }
    None
}

/// Whether `s` begins with `p`.
pub fn starts_with(s: &str, p: &str) -> (r: bool)
    ensures
        r == p@.is_prefix_of(s@),
{
    let sv = chars_of(s);
    let pv = chars_of(p);
    if pv.len() > sv.len() {
        return false;
    }
    let mut i: usize = 0;
    while i < pv.len()
        invariant
            sv@ == s@,
            pv@ == p@,
            pv.len() <= sv.len(),
            i <= pv.len(),
            forall|j: int| 0 <= j < i ==> sv@[j] == pv@[j],
        decreases pv.len() - i,
    {
        if sv[i] != pv[i] {
            assert(sv@.subrange(0, pv@.len() as int)[i as int] != pv@[i as int]);
            return false;
        }
        i = i + 1;
    }
    assert(pv@ =~= sv@.subrange(0, pv@.len() as int));
    true
}

/// Whether `s` ends with `p`.
pub fn ends_with(s: &str, p: &str) -> (r: bool)
    ensures
        r == p@.is_suffix_of(s@),
{
    let sv = chars_of(s);
    let pv = chars_of(p);
    if pv.len() > sv.len() {
        return false;
    }
    let off: usize = sv.len() - pv.len();
    let mut i: usize = 0;
    while i < pv.len()
        invariant
            sv@ == s@,
            pv@ == p@,
            pv.len() <= sv.len(),
            off == sv.len() - pv.len(),
            i <= pv.len(),
            forall|j: int| 0 <= j < i ==> sv@[off + j] == pv@[j],
        decreases pv.len() - i,
    {
        if sv[off + i] != pv[i] {
            assert(sv@.subrange(off as int, sv@.len() as int)[i as int] != pv@[i as int]);
            return false;
        }
        i = i + 1;
    }
    assert(pv@ =~= sv@.subrange(off as int, sv@.len() as int));
    true
}

/// Whether two texts hold the same characters.
pub fn str_eq(a: &str, b: &str) -> (r: bool)
    ensures
        r == (a@ == b@),
{
    let av = chars_of(a);
    let bv = chars_of(b);
    if av.len() != bv.len() {
        return false;
    }
    let mut i: usize = 0;
    while i < av.len()
        invariant
            av@ == a@,
            bv@ == b@,
            av.len() == bv.len(),
            i <= av.len(),
            forall|j: int| 0 <= j < i ==> av@[j] == bv@[j],
        decreases av.len() - i,
    {
        if av[i] != bv[i] {
            return false;
        }
        i = i + 1;
    }
    assert(av@ =~= bv@);
    true
}

/// Splits `s` around its first `c`.
pub fn split_once_char(s: &str, c: char) -> (r: Option<(&str, &str)>)
    ensures
        match r {
            Some((a, b)) => split_once_spec(s@, c) == Some((a@, b@)),
            None => split_once_spec(s@, c) is None,
        },
{
    let v = chars_of(s);
    let n = v.len();
    match find_char(&v, c) {
        Some(i) => {
            proof {
                lemma_first_index(v@, c);
                assert(is_first_of(v@, c, i as int));
            }
            let a = s.substring_char(0, i);
            let b = s.substring_char(i + 1, n);
            Some((a, b))
        },
        None => None,
    }
}

/// Splits `s` around its last `c`.
pub fn rsplit_once_char(s: &str, c: char) -> (r: Option<(&str, &str)>)
    ensures
        match r {
            Some((a, b)) => rsplit_once_spec(s@, c) == Some((a@, b@)),
            None => rsplit_once_spec(s@, c) is None,
        },
{
    let v = chars_of(s);
    let n = v.len();
    match rfind_char(&v, c) {
        Some(i) => {
            proof {
                lemma_last_index(v@, c);
                assert(is_last_of(v@, c, i as int));
            }
            let a = s.substring_char(0, i);
            let b = s.substring_char(i + 1, n);
            Some((a, b))
        },
        None => None,
    }
}


/// Whether `c` is one of the ASCII digits.
pub open spec fn is_digit(c: char) -> bool {
    '0' <= c <= '9'
}

pub open spec fn all_digits(s: Seq<char>) -> bool {
    forall|i: int| 0 <= i < s.len() ==> is_digit(#[trigger] s[i])
}

/// The number written by the decimal digits `s`.
pub open spec fn digits_value(s: Seq<char>) -> int
    decreases s.len(),
{
    if s.len() == 0 {
        0
    } else {
        digits_value(s.drop_last()) * 10 + (s.last() as int - '0' as int)
    }
}

/// What `str::parse` reads from `s` for an unsigned integer type, before the
/// range of the type is checked: an optional `+`, then at least one digit.
pub open spec fn unsigned_text_value(s: Seq<char>) -> Option<int> {
    let d = if s.len() > 0 && s[0] == '+' {
        s.drop_first()
    } else {
        s
    };
    if d.len() > 0 && all_digits(d) {
        Some(digits_value(d))
    } else {
        None
    }
}

/// What `str::parse` reads from `s` for a signed integer type, before the
/// range of the type is checked: an optional sign, then at least one digit.
pub open spec fn signed_text_value(s: Seq<char>) -> Option<int> {
    if s.len() > 0 && s[0] == '-' {
        let d = s.drop_first();
        if d.len() > 0 && all_digits(d) {
            Some(-digits_value(d))
        } else {
            None
        }
    } else {
        unsigned_text_value(s)
    }
}

/// `unsigned_text_value`, kept only where it fits in `0..=max`.
pub open spec fn unsigned_in_range(s: Seq<char>, max: int) -> Option<int> {
    match unsigned_text_value(s) {
        Some(v) => if v <= max {
            Some(v)
        } else {
            None
        },
        None => None,
    }
}

proof fn lemma_digits_step(s: Seq<char>, i: int)
    requires
        0 <= i < s.len(),
    ensures
        digits_value(s.take(i + 1)) == digits_value(s.take(i)) * 10 + (s[i] as int - '0' as int),
{
    assert(s.take(i + 1).drop_last() =~= s.take(i));
}

proof fn lemma_digits_nonneg(s: Seq<char>)
    requires
        all_digits(s),
    ensures
        digits_value(s) >= 0,
    decreases s.len(),
{
    if s.len() > 0 {
        assert(all_digits(s.drop_last()));
        lemma_digits_nonneg(s.drop_last());
    }
}

proof fn lemma_digits_monotone(s: Seq<char>, i: int, j: int)
    requires
        all_digits(s),
        0 <= i <= j <= s.len(),
    ensures
        digits_value(s.take(i)) <= digits_value(s.take(j)),
    decreases j - i,
{
    if i < j {
        lemma_digits_monotone(s, i, j - 1);
        lemma_digits_step(s, j - 1);
        assert(all_digits(s.take(j - 1)));
        lemma_digits_nonneg(s.take(j - 1));
        assert(is_digit(s[j - 1]));
    }
}

/// The value of the digits `v[from..]` if it is at most `cap`.
fn digits_up_to(v: &Vec<char>, from: usize, cap: u128) -> (r: Option<u128>)
    requires
        from <= v.len(),
        all_digits(v@.skip(from as int)),
    ensures
        match r {
            Some(x) => x == digits_value(v@.skip(from as int)) && x <= cap,
            None => digits_value(v@.skip(from as int)) > cap,
        },
{
    let ghost ds = v@.skip(from as int);
    let n = v.len() - from;
    let mut acc: u128 = 0;
    let mut k: usize = 0;
    assert(ds.take(0) =~= Seq::<char>::empty());
    while k < n
        invariant
            ds == v@.skip(from as int),
            n == ds.len(),
            from + n == v.len(),
            all_digits(ds),
            k <= n,
            acc == digits_value(ds.take(k as int)),
            acc <= cap,
        decreases n - k,
    {
        proof {
            lemma_digits_step(ds, k as int);
            lemma_digits_monotone(ds, (k + 1) as int, n as int);
            assert(ds.take(n as int) =~= ds);
        }
        let d = v[from + k];
        assert(is_digit(ds[k as int]));
        let dv = (d as u32 - '0' as u32) as u128;
        match acc.checked_mul(10) {
            Some(m) => match m.checked_add(dv) {
                Some(x) => {
                    if x > cap {
                        return None;
                    }
                    acc = x;
                },
                None => {
                    return None;
                },
            },
            None => {
                return None;
            },
        }
        k = k + 1;
    }
    assert(ds.take(n as int) =~= ds);
    Some(acc)
}

/// Whether every character of `v[from..]` is a digit.
fn all_digits_from(v: &Vec<char>, from: usize) -> (r: bool)
    requires
        from <= v.len(),
    ensures
        r == all_digits(v@.skip(from as int)),
{
    let mut i = from;
    while i < v.len()
        invariant
            from <= i <= v.len(),
            forall|j: int| from <= j < i ==> is_digit(v@[j]),
        decreases v.len() - i,
    {
        if !('0' <= v[i] && v[i] <= '9') {
            assert(!is_digit(v@.skip(from as int)[i - from]));
            return false;
        }
        i = i + 1;
    }
    true
}

/// `str::parse::<u128>` restricted to values at most `cap`.
fn parse_unsigned_capped(s: &str, cap: u128) -> (r: Option<u128>)
    ensures
        match r {
            Some(x) => unsigned_in_range(s@, cap as int) == Some(x as int),
            None => unsigned_in_range(s@, cap as int) is None,
        },
{
    let v = chars_of(s);
    let start: usize = if v.len() > 0 && v[0] == '+' {
        1
    } else {
        0
    };
    proof {
        let d = if s@.len() > 0 && s@[0] == '+' { s@.drop_first() } else { s@ };
        assert(d =~= v@.skip(start as int));
    }
    if start >= v.len() {
        return None;
    }
    if !all_digits_from(&v, start) {
        return None;
    }
    digits_up_to(&v, start, cap)
}

/// `str::parse::<u32>`.
pub fn parse_u32(s: &str) -> (r: Option<u32>)
    ensures
        match r {
            Some(x) => unsigned_in_range(s@, u32::MAX as int) == Some(x as int),
            None => unsigned_in_range(s@, u32::MAX as int) is None,
        },
{
    match parse_unsigned_capped(s, u32::MAX as u128) {
        Some(x) => Some(x as u32),
        None => None,
    }
}

/// `str::parse::<u64>`.
pub fn parse_u64(s: &str) -> (r: Option<u64>)
    ensures
        match r {
            Some(x) => unsigned_in_range(s@, u64::MAX as int) == Some(x as int),
            None => unsigned_in_range(s@, u64::MAX as int) is None,
        },
{
    match parse_unsigned_capped(s, u64::MAX as u128) {
        Some(x) => Some(x as u64),
        None => None,
    }
}

/// `signed_text_value`, kept only where it fits in `i128`.
pub open spec fn i128_text_value(s: Seq<char>) -> Option<int> {
    match signed_text_value(s) {
        Some(v) => if i128::MIN <= v <= i128::MAX {
            Some(v)
        } else {
            None
        },
        None => None,
    }
}

/// `str::parse::<i128>`.
pub fn parse_i128(s: &str) -> (r: Option<i128>)
    ensures
        match r {
            Some(x) => i128_text_value(s@) == Some(x as int),
            None => i128_text_value(s@) is None,
        },
{
    let v = chars_of(s);
    if v.len() > 0 && v[0] == '-' {
        if v.len() == 1 || !all_digits_from(&v, 1) {
            return None;
        }
        assert(s@.drop_first() =~= v@.skip(1));
        match digits_up_to(&v, 1, 0x8000_0000_0000_0000_0000_0000_0000_0000u128) {
            Some(m) => {
                if m == 0x8000_0000_0000_0000_0000_0000_0000_0000u128 {
                    Some(i128::MIN)
                } else {
                    Some(-(m as i128))
                }
            },
            None => None,
        }
    } else {
        match parse_unsigned_capped(s, i128::MAX as u128) {
            Some(x) => Some(x as i128),
            None => None,
        }
    }
}


/// The view of each string of a sequence.
pub open spec fn str_views(v: Seq<&str>) -> Seq<Seq<char>> {
    v.map_values(|x: &str| x@)
}

/// The view of each string of a sequence.
pub open spec fn string_views(v: Seq<String>) -> Seq<Seq<char>> {
    v.map_values(|x: String| x@)
}

/// One step of `split_spec`, at the first `c` of `s[start..]`.
proof fn lemma_split_step(s: Seq<char>, c: char, start: int, i: int)
    requires
        0 <= start <= i < s.len(),
        s[i] == c,
        forall|j: int| start <= j < i ==> s[j] != c,
    ensures
        split_spec(s.skip(start), c) == seq![s.subrange(start, i)] + split_spec(s.skip(i + 1), c),
{
    let t = s.skip(start);
    assert(is_first_of(t, c, i - start));
    lemma_first_index(t, c);
    assert(t.take(i - start) =~= s.subrange(start, i));
    assert(t.skip(i - start + 1) =~= s.skip(i + 1));
}

/// The end of `split_spec`, when `s[start..]` holds no `c`.
proof fn lemma_split_last(s: Seq<char>, c: char, start: int)
    requires
        0 <= start <= s.len(),
        forall|j: int| start <= j < s.len() ==> s[j] != c,
    ensures
        split_spec(s.skip(start), c) == seq![s.skip(start)],
{
    lemma_first_index(s.skip(start), c);
}

/// The pieces of `s` between occurrences of `c`, as `str::split` gives them.
pub fn split_char(s: &str, c: char) -> (r: Vec<&str>)
    ensures
        str_views(r@) == split_spec(s@, c),
{
    let v = chars_of(s);
    let n = v.len();
    let mut pieces: Vec<&str> = Vec::new();
    let mut start: usize = 0;
    assert(s@.skip(0) =~= s@);
    loop
        invariant
            v@ == s@,
            n == v@.len(),
            start <= n,
            split_spec(s@, c) == str_views(pieces@) + split_spec(s@.skip(start as int), c),
        decreases n - start,
    {
        match find_char_from(&v, c, start) {
            Some(i) => {
                proof {
                    lemma_split_step(s@, c, start as int, i as int);
                }
                let piece = s.substring_char(start, i);
                let ghost before = pieces@;
                pieces.push(piece);
                assert(str_views(pieces@) =~= str_views(before) + seq![piece@]);
                start = i + 1;
            },
            None => {
                proof {
                    lemma_split_last(s@, c, start as int);
                }
                let piece = s.substring_char(start, n);
                let ghost before = pieces@;
                pieces.push(piece);
                assert(str_views(pieces@) =~= str_views(before) + seq![piece@]);
                return pieces;
            },
        }
    }
}

/// One step of `lines_spec`, at the first line end of `s[start..]`.
proof fn lemma_lines_step(s: Seq<char>, start: int, i: int)
    requires
        0 <= start <= i < s.len(),
        s[i] == '\n',
        forall|j: int| start <= j < i ==> s[j] != '\n',
    ensures
        lines_spec(s.skip(start)) == seq![strip_cr(s.subrange(start, i))] + lines_spec(s.skip(i + 1)),
{
    let t = s.skip(start);
    assert(is_first_of(t, '\n', i - start));
    lemma_first_index(t, '\n');
    assert(t.take(i - start) =~= s.subrange(start, i));
    assert(t.skip(i - start + 1) =~= s.skip(i + 1));
}

/// The last line of `s`, when `s[start..]` is not empty and holds no line end.
proof fn lemma_lines_last(s: Seq<char>, start: int)
    requires
        0 <= start < s.len(),
        forall|j: int| start <= j < s.len() ==> s[j] != '\n',
    ensures
        lines_spec(s.skip(start)) == seq![s.skip(start)],
{
    lemma_first_index(s.skip(start), '\n');
}

/// The lines of `s`, as `str::lines` gives them.
pub fn lines_of(s: &str) -> (r: Vec<String>)
    ensures
        string_views(r@) == lines_spec(s@),
{
    let v = chars_of(s);
    let n = v.len();
    let mut lines: Vec<String> = Vec::new();
    let mut start: usize = 0;
    assert(s@.skip(0) =~= s@);
    loop
        invariant
            v@ == s@,
            n == v@.len(),
            start <= n,
            lines_spec(s@) == string_views(lines@) + lines_spec(s@.skip(start as int)),
        decreases n - start,
    {
        if start == n {
            assert(s@.skip(start as int) =~= Seq::<char>::empty());
            assert(string_views(lines@) + Seq::<Seq<char>>::empty() =~= string_views(lines@));
            return lines;
        }
        match find_char_from(&v, '\n', start) {
            Some(i) => {
                proof {
                    lemma_lines_step(s@, start as int, i as int);
                }
                let end: usize = if i > start && v[i - 1] == '\r' {
                    i - 1
                } else {
                    i
                };
                let line = s.substring_char(start, end).to_owned();
                assert(line@ =~= strip_cr(s@.subrange(start as int, i as int)));
                let ghost before = lines@;
                lines.push(line);
                assert(string_views(lines@) =~= string_views(before) + seq![line@]);
                start = i + 1;
            },
            None => {
                proof {
                    lemma_lines_last(s@, start as int);
                }
                let line = s.substring_char(start, n).to_owned();
                let ghost before = lines@;
                lines.push(line);
                assert(string_views(lines@) =~= string_views(before) + seq![line@]);
                return lines;
            },
        }
    }
}

} // verus!
