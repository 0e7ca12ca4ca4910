use vstd::prelude::*;

verus! {

/// The character sequences of a list of strings.
pub open spec fn views(v: Seq<String>) -> Seq<Seq<char>> {
    v.map_values(|s: String| s@)
}

/// The character sequence of an optional string.
pub open spec fn opt_view(o: Option<String>) -> Option<Seq<char>> {
    match o {
        Some(s) => Some(s@),
        None => None,
    }
}

/// Copies a list of strings element by element.
pub fn copy_strs(v: &Vec<String>) -> (r: Vec<String>)
    ensures
        views(r@) == views(v@),
{
    let mut r: Vec<String> = Vec::new();
    let mut i: usize = 0;
    while i < v.len()
        invariant
            i <= v@.len(),
            views(r@) =~= views(v@.subrange(0, i as int)),
        decreases v@.len() - i,
    {
        let ghost prev = r@;
        let s = v[i].clone();
        r.push(s);
        proof {
            assert(views(v@.subrange(0, i + 1)) =~= views(v@.subrange(0, i as int)).push(v@[i as int]@));
            assert(views(r@) =~= views(prev).push(s@));
        }
        i = i + 1;
    }
    assert(v@.subrange(0, v@.len() as int) =~= v@);
    r
}

/// Copies an optional string.
pub fn copy_opt(o: &Option<String>) -> (r: Option<String>)
    ensures
        opt_view(r) == opt_view(*o),
{
    match o {
        Some(s) => Some(s.clone()),
        None => None,
    }
}

/// The value of a string of decimal digits.
pub open spec fn digits_value(s: Seq<char>) -> nat
    decreases s.len(),
{
    if s.len() == 0 {
        0
    } else {
        (digits_value(s.drop_last()) * 10 + (s.last() as int - '0' as int)) as nat
    }
}

/// Every character is an ASCII decimal digit.
pub open spec fn all_digits(s: Seq<char>) -> bool {
    forall|i: int| 0 <= i < s.len() ==> '0' <= #[trigger] s[i] <= '9'
}

/// The digits of a decimal numeral: the text after an optional leading `+`.
pub open spec fn numeral_digits(s: Seq<char>) -> Seq<char> {
    if s.len() > 0 && s[0] == '+' {
        s.subrange(1, s.len() as int)
    } else {
        s
    }
}

/// The unsigned 64-bit number that a decimal numeral denotes: an optional `+` and at
/// least one digit, with nothing else and no overflow.
pub open spec fn parsed_u64(s: Seq<char>) -> Option<u64> {
    let d = numeral_digits(s);
    if d.len() > 0 && all_digits(d) && digits_value(d) <= u64::MAX {
        Some(digits_value(d) as u64)
    } else {
        None
    }
}

/// Reads an unsigned decimal number, as `str::parse::<u64>` does.
pub fn parse_u64(s: &str) -> (r: Option<u64>)
    ensures
        r == parsed_u64(s@),
{
    let n = s.unicode_len();
    let mut start: usize = 0;
    if n > 0 && s.get_char(0) == '+' {
        start = 1;
    }
    let ghost d = numeral_digits(s@);
    proof {
        assert(d =~= s@.subrange(start as int, n as int));
    }
    if start == n {
        return None;
    }
    let mut value: u64 = 0;
    let mut i: usize = start;
    while i < n
        invariant
            n == s@.len(),
            start <= i <= n,
            d == numeral_digits(s@),
            d =~= s@.subrange(start as int, n as int),
            all_digits(d.subrange(0, i - start)),
            value == digits_value(d.subrange(0, i - start)),
        decreases n - i,
    {
        let c = s.get_char(i);
        let ghost pre = d.subrange(0, i - start);
        let ghost next = d.subrange(0, i + 1 - start);
        proof {
            assert(next.drop_last() =~= pre);
            assert(next.last() == c);
            assert(digits_value(next) == (digits_value(pre) * 10 + (c as int - '0' as int)) as nat);
        }
        if c < '0' || c > '9' {
            proof {
                assert(d[i - start] == c);
                assert(!all_digits(d));
            }
            return None;
        }
        let digit = (c as u32 - '0' as u32) as u64;
        let v10 = match value.checked_mul(10) {
            Some(v) => v,
            None => {
                proof {
                    lemma_digits_prefix_le(d, i + 1 - start);
                }
                return None;
            },
        };
        value = match v10.checked_add(digit) {
            Some(v) => v,
            None => {
                proof {
                    lemma_digits_prefix_le(d, i + 1 - start);
                }
                return None;
            },
        };
        i = i + 1;
    }
    proof {
        assert(d.subrange(0, n - start) =~= d);
    }
    Some(value)
}

/// The value of a digit prefix is at most the value of the whole digit string.
pub proof fn lemma_digits_prefix_le(d: Seq<char>, k: int)
    requires
        0 <= k <= d.len(),
    ensures
        all_digits(d) ==> digits_value(d.subrange(0, k)) <= digits_value(d),
    decreases d.len() - k,
{
    if k < d.len() {
        lemma_digits_prefix_le(d, k + 1);
        let p = d.subrange(0, k + 1);
        assert(p.drop_last() =~= d.subrange(0, k));
        if all_digits(d) {
            assert(p.last() == d[k]);
            assert('0' <= d[k]);
        }
    } else {
        assert(d.subrange(0, k) =~= d);
    }
}

/// The text with every leading `"` removed.
pub open spec fn trim_leading_quotes(s: Seq<char>) -> Seq<char>
    decreases s.len(),
{
    if s.len() > 0 && s[0] == '"' {
        trim_leading_quotes(s.subrange(1, s.len() as int))
    } else {
        s
    }
}

/// The text with every trailing `"` removed.
pub open spec fn trim_trailing_quotes(s: Seq<char>) -> Seq<char>
    decreases s.len(),
{
    if s.len() > 0 && s.last() == '"' {
        trim_trailing_quotes(s.drop_last())
    } else {
        s
    }
}

/// The text with its surrounding double quotes removed, as `trim_matches('"')` does.
pub open spec fn trim_quotes(s: Seq<char>) -> Seq<char> {
    trim_trailing_quotes(trim_leading_quotes(s))
}

/// Removes every leading and trailing double quote.
pub fn strip_quotes(s: &str) -> (r: String)
    ensures
        r@ == trim_quotes(s@),
{
    let n = s.unicode_len();
    let mut a: usize = 0;
    proof {
        assert(s@.subrange(0, n as int) =~= s@);
    }
    while a < n && s.get_char(a) == '"'
        invariant
            n == s@.len(),
            a <= n,
            trim_leading_quotes(s@) == trim_leading_quotes(s@.subrange(a as int, n as int)),
        decreases n - a,
    {
        proof {
            assert(s@.subrange(a as int, n as int).subrange(1, n - a) =~= s@.subrange(a + 1, n as int));
        }
        a = a + 1;
    }
    let ghost t = s@.subrange(a as int, n as int);
    proof {
        assert(trim_leading_quotes(t) == t);
    }
    let mut b: usize = n;
    proof {
        assert(trim_leading_quotes(s@) == t);
    }
    while b > a && s.get_char(b - 1) == '"'
        invariant
            n == s@.len(),
            a <= b <= n,
            t == s@.subrange(a as int, n as int),
            trim_trailing_quotes(t) == trim_trailing_quotes(s@.subrange(a as int, b as int)),
        decreases b,
    {
        proof {
            assert(s@.subrange(a as int, b as int).drop_last() =~= s@.subrange(a as int, b - 1));
        }
        b = b - 1;
    }
    proof {
        let u = s@.subrange(a as int, b as int);
        assert(trim_trailing_quotes(u) == u);
    }
    String::from_str(s.substring_char(a, b))
}

/// `pat` occurs in `s` starting at position `i`.
pub open spec fn occurs_at(s: Seq<char>, pat: Seq<char>, i: int) -> bool {
    0 <= i && i + pat.len() <= s.len() && s.subrange(i, i + pat.len()) == pat
}

/// `i` is the first position at which `pat` occurs in `s`.
pub open spec fn is_first_at(s: Seq<char>, pat: Seq<char>, i: int) -> bool {
    occurs_at(s, pat, i) && forall|j: int| 0 <= j < i ==> !occurs_at(s, pat, j)
}

/// `i` is the last position at which `pat` occurs in `s`.
pub open spec fn is_last_at(s: Seq<char>, pat: Seq<char>, i: int) -> bool {
    occurs_at(s, pat, i) && forall|j: int| i < j <= s.len() ==> !occurs_at(s, pat, j)
}

/// The first position of `pat` in `s`, if it occurs.
pub open spec fn first_at(s: Seq<char>, pat: Seq<char>) -> Option<int> {
    if exists|i: int| is_first_at(s, pat, i) {
        Some(choose|i: int| is_first_at(s, pat, i))
    } else {
        None
    }
}

/// The last position of `pat` in `s`, if it occurs.
pub open spec fn last_at(s: Seq<char>, pat: Seq<char>) -> Option<int> {
    if exists|i: int| is_last_at(s, pat, i) {
        Some(choose|i: int| is_last_at(s, pat, i))
    } else {
        None
    }
}

/// `s` with `pat` removed from its end for as long as it ends with it.
pub open spec fn trim_suffixes(s: Seq<char>, pat: Seq<char>) -> Seq<char>
    decreases s.len(),
{
    if pat.len() > 0 && s.len() >= pat.len() && s.subrange(s.len() - pat.len(), s.len() as int) == pat {
        trim_suffixes(s.subrange(0, s.len() - pat.len()), pat)
    } else {
        s
    }
}

/// Whether `pat` occurs in `s` at position `i`.
pub fn matches_at(s: &str, pat: &str, i: usize) -> (r: bool)
    ensures
        r == occurs_at(s@, pat@, i as int),
{
    let n = s.unicode_len();
    let m = pat.unicode_len();
    if i > n || m > n - i {
        return false;
    }
    let mut k: usize = 0;
    while k < m
        invariant
            n == s@.len(),
            m == pat@.len(),
            i + m <= n,
            k <= m,
            forall|t: int| 0 <= t < k ==> s@[i + t] == pat@[t],
        decreases m - k,
    {
        if s.get_char(i + k) != pat.get_char(k) {
            proof {
                assert(s@.subrange(i as int, i + m)[k as int] != pat@[k as int]);
            }
            return false;
        }
        k = k + 1;
    }
    proof {
        assert(s@.subrange(i as int, i + m) =~= pat@);
    }
    true
}

/// The first position of `pat` in `s`.
pub fn find_first(s: &str, pat: &str) -> (r: Option<usize>)
    ensures
        match r {
            Some(i) => first_at(s@, pat@) == Some(i as int) && is_first_at(s@, pat@, i as int),
            None => first_at(s@, pat@) is None && forall|j: int| !occurs_at(s@, pat@, j),
        },
{
    let n = s.unicode_len();
    let mut i: usize = 0;
    while i < n
        invariant
            n == s@.len(),
            i <= n,
            forall|j: int| 0 <= j < i ==> !occurs_at(s@, pat@, j),
        decreases n - i,
    {
        if matches_at(s, pat, i) {
            proof {
                assert(is_first_at(s@, pat@, i as int));
                let c = choose|c: int| is_first_at(s@, pat@, c);
                assert(c == i);
            }
            return Some(i);
        }
        i = i + 1;
    }
    if matches_at(s, pat, n) {
        proof {
            assert(is_first_at(s@, pat@, n as int));
            let c = choose|c: int| is_first_at(s@, pat@, c);
            assert(c == n);
        }
        return Some(n);
    }
    proof {
        assert forall|j: int| !occurs_at(s@, pat@, j) by {
            if j > n {
                assert(!occurs_at(s@, pat@, j));
            }
        }
        assert(!exists|c: int| is_first_at(s@, pat@, c));
    }
    None
}

/// The last position of `pat` in `s`.
pub fn find_last(s: &str, pat: &str) -> (r: Option<usize>)
    ensures
        match r {
            Some(i) => last_at(s@, pat@) == Some(i as int) && is_last_at(s@, pat@, i as int),
            None => last_at(s@, pat@) is None && forall|j: int| !occurs_at(s@, pat@, j),
        },
{
    let n = s.unicode_len();
    if matches_at(s, pat, n) {
        proof {
            assert(is_last_at(s@, pat@, n as int));
            let c = choose|c: int| is_last_at(s@, pat@, c);
            assert(c == n);
        }
        return Some(n);
    }
    let mut i: usize = n;
    while i > 0
        invariant
            n == s@.len(),
            i <= n,
            forall|j: int| i <= j <= n ==> !occurs_at(s@, pat@, j),
        decreases i,
    {
        i = i - 1;
        if matches_at(s, pat, i) {
            proof {
                assert(is_last_at(s@, pat@, i as int));
                let c = choose|c: int| is_last_at(s@, pat@, c);
                assert(c == i);
            }
            return Some(i);
        }
    }
    proof {
        assert forall|j: int| !occurs_at(s@, pat@, j) by {
            if j > n {
                assert(!occurs_at(s@, pat@, j));
            }
        }
        assert(!exists|c: int| is_last_at(s@, pat@, c));
    }
    None
}

/// Removes `pat` from the end of `s` for as long as `s` ends with it.
pub fn strip_suffixes(s: &str, pat: &str) -> (r: String)
    ensures
        r@ == trim_suffixes(s@, pat@),
{
    let n = s.unicode_len();
    let m = pat.unicode_len();
    let mut end: usize = n;
    proof {
        assert(s@.subrange(0, n as int) =~= s@);
    }
    while m > 0 && end >= m && matches_at(s, pat, end - m)
        invariant
            n == s@.len(),
            m == pat@.len(),
            end <= n,
            trim_suffixes(s@, pat@) == trim_suffixes(s@.subrange(0, end as int), pat@),
        decreases end,
    {
        proof {
            let t = s@.subrange(0, end as int);
            assert(t.subrange(end - m, end as int) =~= s@.subrange(end - m, end - m + m));
            assert(t.subrange(0, end - m) =~= s@.subrange(0, end - m));
        }
        end = end - m;
    }
    proof {
        let t = s@.subrange(0, end as int);
        if m > 0 && end >= m {
            assert(t.subrange(end - m, end as int) =~= s@.subrange(end - m, end - m + m));
        }
        assert(trim_suffixes(t, pat@) == t);
    }
    String::from_str(s.substring_char(0, end))
}

} // verus!
