use vstd::prelude::*;

verus! {

/// Whether a character has the Unicode `White_Space` property, which
/// `char::is_whitespace` tests: tab to carriage return, space, next line,
/// no-break space, ogham space mark, the spaces from en quad to hair space,
/// line and paragraph separators, narrow no-break space, medium mathematical
/// space and ideographic space.
pub open spec fn white_space(c: char) -> bool {
    let u = c as u32;
    ||| 0x09 <= u <= 0x0D
    ||| u == 0x20
    ||| u == 0x85
    ||| u == 0xA0
    ||| u == 0x1680
    ||| 0x2000 <= u <= 0x200A
    ||| u == 0x2028
    ||| u == 0x2029
    ||| u == 0x202F
    ||| u == 0x205F
    ||| u == 0x3000
}

/// What `str::to_uppercase` gives for a string: its uppercase equivalent
/// under the Unicode case mappings, which may change its length.
pub uninterp spec fn uppercase(s: Seq<char>) -> Seq<char>;

/// Calls `char::is_whitespace`.
///
/// Claims that the result is whether `c` has the `White_Space` property that
/// the documentation names, whose 25 code points `white_space` lists.
#[verifier::external_body]
pub(crate) fn is_whitespace(c: char) -> (b: bool)
    ensures
        b == white_space(c),
{
    c.is_whitespace()
}

/// Calls `str::to_uppercase`.
///
/// Claims only that the result is `uppercase` of the input: the Unicode
/// tables behind it are not stated.
#[verifier::external_body]
pub(crate) fn to_uppercase(s: &str) -> (u: String)
    ensures
        u@ == uppercase(s@),
{
    s.to_uppercase()
}

/// The number of white space characters at the start of `s`.
pub open spec fn leading_ws(s: Seq<char>) -> nat
    decreases s.len(),
{
    if s.len() > 0 && white_space(s[0]) {
        1 + leading_ws(s.drop_first())
    } else {
        0
    }
}

/// The number of white space characters at the end of `s`.
pub open spec fn trailing_ws(s: Seq<char>) -> nat
    decreases s.len(),
{
    if s.len() > 0 && white_space(s.last()) {
        1 + trailing_ws(s.drop_last())
    } else {
        0
    }
}

/// `s` without its leading and trailing white space, as `str::trim` gives it.
pub open spec fn trimmed(s: Seq<char>) -> Seq<char> {
    let t = s.skip(leading_ws(s) as int);
    t.take(t.len() - trailing_ws(t))
}

/// The position of the first ':' in `s`, or the length of `s` if there is none.
pub open spec fn colon_index(s: Seq<char>) -> nat
    decreases s.len(),
{
    if s.len() == 0 {
        0
    } else if s[0] == ':' {
        0
    } else {
        1 + colon_index(s.drop_first())
    }
}

proof fn lemma_leading_ws_bound(s: Seq<char>)
    ensures
        leading_ws(s) <= s.len(),
    decreases s.len(),
{
    if s.len() > 0 && white_space(s[0]) {
        lemma_leading_ws_bound(s.drop_first());
    }
}

proof fn lemma_trailing_ws_bound(s: Seq<char>)
    ensures
        trailing_ws(s) <= s.len(),
    decreases s.len(),
{
    if s.len() > 0 && white_space(s.last()) {
        lemma_trailing_ws_bound(s.drop_last());
    }
}

/// The first ':' is where `colon_index` says, and none comes before it.
pub proof fn law_colon_index_bounds(s: Seq<char>)
    ensures
        colon_index(s) <= s.len(),
        colon_index(s) < s.len() ==> s[colon_index(s) as int] == ':',
        forall|j: int| 0 <= j < colon_index(s) ==> s[j] != ':',
    decreases s.len(),
{
    if s.len() > 0 && s[0] != ':' {
        law_colon_index_bounds(s.drop_first());
        assert forall|j: int| 0 <= j < colon_index(s) implies s[j] != ':' by {
            if j > 0 {
                assert(s[j] == s.drop_first()[j - 1]);
            }
        }
    }
}

proof fn lemma_leading_ws_stops(s: Seq<char>)
    ensures
        leading_ws(s) < s.len() ==> !white_space(s[leading_ws(s) as int]),
    decreases s.len(),
{
    if s.len() > 0 && white_space(s[0]) {
        lemma_leading_ws_stops(s.drop_first());
    }
}

proof fn lemma_trailing_ws_stops(s: Seq<char>)
    ensures
        trailing_ws(s) < s.len() ==> !white_space(s[s.len() - 1 - trailing_ws(s)]),
    decreases s.len(),
{
    if s.len() > 0 && white_space(s.last()) {
        lemma_trailing_ws_stops(s.drop_last());
    }
}

/// The characters of `trimmed(s)` are those of `s` from `leading_ws(s)` on.
proof fn lemma_trimmed_chars(s: Seq<char>)
    ensures
        leading_ws(s) + trimmed(s).len() <= s.len(),
        forall|k: int|
            0 <= k < trimmed(s).len() ==> #[trigger] trimmed(s)[k] == s[leading_ws(s) + k],
{
    lemma_leading_ws_bound(s);
    lemma_trailing_ws_bound(s.skip(leading_ws(s) as int));
}

proof fn lemma_leading_ws_all(s: Seq<char>)
    ensures
        forall|j: int| 0 <= j < leading_ws(s) ==> white_space(#[trigger] s[j]),
    decreases s.len(),
{
    if s.len() > 0 && white_space(s[0]) {
        let r = s.drop_first();
        lemma_leading_ws_all(r);
        lemma_leading_ws_bound(s);
        assert forall|j: int| 0 <= j < leading_ws(s) implies white_space(#[trigger] s[j]) by {
            if j > 0 {
                assert(s[j] == r[j - 1]);
            }
        }
    }
}

proof fn lemma_trailing_ws_all(s: Seq<char>)
    ensures
        forall|j: int| s.len() - trailing_ws(s) <= j < s.len() ==> white_space(#[trigger] s[j]),
    decreases s.len(),
{
    if s.len() > 0 && white_space(s.last()) {
        let r = s.drop_last();
        lemma_trailing_ws_all(r);
        lemma_trailing_ws_bound(s);
        assert forall|j: int| s.len() - trailing_ws(s) <= j < s.len() implies white_space(
            #[trigger] s[j],
        ) by {
            if j < s.len() - 1 {
                assert(s[j] == r[j]);
            }
        }
    }
}

/// Trimming removes exactly the white space at both ends: the result is a
/// stretch of the string, everything before and after it is white space, and
/// it neither starts nor ends with white space.
pub proof fn law_trimmed_strips_both_ends(s: Seq<char>)
    ensures
        exists|a: int, b: int|
            {
                &&& 0 <= a <= b <= s.len()
                &&& trimmed(s) == #[trigger] s.subrange(a, b)
                &&& forall|j: int| 0 <= j < a ==> white_space(s[j])
                &&& forall|j: int| b <= j < s.len() ==> white_space(s[j])
                &&& a < b ==> !white_space(s[a]) && !white_space(s[b - 1])
            },
{
    let a = leading_ws(s);
    let t = s.skip(a as int);
    lemma_leading_ws_bound(s);
    lemma_trailing_ws_bound(t);
    lemma_leading_ws_stops(s);
    lemma_trailing_ws_stops(t);
    lemma_leading_ws_all(s);
    lemma_trailing_ws_all(t);
    let b = a + t.len() - trailing_ws(t);
    assert(trimmed(s) =~= s.subrange(a as int, b));
    assert forall|j: int| b <= j < s.len() implies white_space(s[j]) by {
        assert(s[j] == t[j - a]);
    }
    if a < b {
        assert(s[b - 1] == t[t.len() - 1 - trailing_ws(t)]);
    }
    assert(forall|j: int| 0 <= j < a ==> white_space(s[j]));
}

/// Trimming twice is trimming once: a trimmed string starts and ends with a
/// character that is not white space.
pub proof fn law_trim_is_idempotent(s: Seq<char>)
    ensures
        trimmed(trimmed(s)) == trimmed(s),
{
    let a = leading_ws(s);
    let t = s.skip(a as int);
    let r = trimmed(s);
    lemma_leading_ws_bound(s);
    lemma_trailing_ws_bound(t);
    lemma_leading_ws_stops(s);
    lemma_trailing_ws_stops(t);
    if r.len() > 0 {
        assert(r[0] == s[a as int]);
        assert(leading_ws(r) == 0);
        assert(r.last() == t[t.len() - 1 - trailing_ws(t)]);
        assert(trailing_ws(r) == 0);
    }
    assert(r.skip(leading_ws(r) as int) =~= r);
    assert(trimmed(r) =~= r);
}

/// Trimming keeps no character that the string did not hold.
pub proof fn law_trim_keeps_no_new_char(s: Seq<char>, c: char)
    requires
        !s.contains(c),
    ensures
        !trimmed(s).contains(c),
{
    lemma_trimmed_chars(s);
    if trimmed(s).contains(c) {
        let k = choose|k: int| 0 <= k < trimmed(s).len() && trimmed(s)[k] == c;
        assert(s[leading_ws(s) + k] == c);
    }
}

/// `s` without its leading and trailing white space.
pub fn trim(s: &str) -> (t: String)
    ensures
        t@ == trimmed(s@),
{
    let n = s.unicode_len();
    let mut i: usize = 0;
    proof {
        assert(s@.skip(0) =~= s@);
    }
    while i < n && is_whitespace(s.get_char(i))
        invariant
            n == s@.len(),
            i <= n,
            leading_ws(s@) == i + leading_ws(s@.skip(i as int)),
        decreases n - i,
    {
        proof {
            assert(s@.skip(i as int).drop_first() =~= s@.skip(i + 1));
        }
        i = i + 1;
    }
    proof {
        let rest = s@.skip(i as int);
        if i < n {
            assert(rest[0] == s@[i as int]);
        }
        assert(leading_ws(s@) == i);
        assert(s@.subrange(i as int, n as int) =~= rest);
    }
    let ghost t = s@.skip(i as int);
    let mut j: usize = n;
    while j > i && is_whitespace(s.get_char(j - 1))
        invariant
            n == s@.len(),
            i <= j <= n,
            t == s@.subrange(i as int, n as int),
            trailing_ws(t) == (n - j) + trailing_ws(s@.subrange(i as int, j as int)),
        decreases j,
    {
        proof {
            let u = s@.subrange(i as int, j as int);
            assert(u.last() == s@[j - 1]);
            assert(u.drop_last() =~= s@.subrange(i as int, j - 1));
        }
        j = j - 1;
    }
    proof {
        let u = s@.subrange(i as int, j as int);
        if j > i {
            assert(u.last() == s@[j - 1]);
        }
        assert(trailing_ws(t) == n - j);
        assert(t.take(t.len() - trailing_ws(t)) =~= u);
    }
    String::from_str(s.substring_char(i, j))
}

/// Whether two strings hold the same characters.
pub fn same_text(a: &str, b: &str) -> (same: bool)
    ensures
        same == (a@ == b@),
{
    let n = a.unicode_len();
    if n != b.unicode_len() {
        return false;
    }
    let mut i: usize = 0;
    while i < n
        invariant
            n == a@.len(),
            n == b@.len(),
            i <= n,
            forall|k: int| 0 <= k < i ==> a@[k] == b@[k],
        decreases n - i,
    {
        if a.get_char(i) != b.get_char(i) {
            return false;
        }
        i = i + 1;
    }
    proof {
        assert(a@ =~= b@);
    }
    true
}

/// The position of the first ':' in `s`, or its length if there is none.
pub fn find_colon(s: &str) -> (k: usize)
    ensures
        k == colon_index(s@),
{
    let n = s.unicode_len();
    let mut k: usize = 0;
    proof {
        assert(s@.skip(0) =~= s@);
    }
    while k < n && s.get_char(k) != ':'
        invariant
            n == s@.len(),
            k <= n,
            colon_index(s@) == k + colon_index(s@.skip(k as int)),
        decreases n - k,
    {
        proof {
            assert(s@.skip(k as int).drop_first() =~= s@.skip(k + 1));
        }
        k = k + 1;
    }
    proof {
        let rest = s@.skip(k as int);
        if k < n {
            assert(rest[0] == s@[k as int]);
        }
    }
    k
}

} // verus!
