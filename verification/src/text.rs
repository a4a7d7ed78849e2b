use vstd::prelude::*;
use vstd::slice::slice_subrange;

verus! {

/// Appends one character to a string (`String::push`).
#[verifier::external_body]
fn push_char(s: &mut String, c: char)
    ensures
        final(s)@ == old(s)@.push(c),
{
    s.push(c);
}

/// The characters of a string slice, in order.
pub fn chars_of(s: &str) -> (v: Vec<char>)
    ensures
        v@ == s@,
{
    let mut v: Vec<char> = Vec::new();
    for c in it: s.chars()
        invariant
            v@ == it.seq().take(it.index()),
    {
        v.push(c);
    }
    v
}

/// A string made of the given characters.
pub fn string_from(cs: &[char]) -> (s: String)
    ensures
        s@ == cs@,
{
    let mut s = String::new();
    let mut i: usize = 0;
    while i < cs.len()
        invariant
            i <= cs@.len(),
            s@ == cs@.take(i as int),
        decreases cs@.len() - i,
    {
        push_char(&mut s, cs[i]);
        i = i + 1;
        assert(s@ =~= cs@.take(i as int));
    }
    assert(cs@.take(cs@.len() as int) =~= cs@);
    s
}

// ---------------------------------------------------------------------------
// Whitespace and trimming
// ---------------------------------------------------------------------------

/// The characters with the Unicode `White_Space` property, which is what
/// `char::is_whitespace` tests.
pub open spec fn is_whitespace(c: char) -> bool {
    let n = c as u32;
    ||| 0x9 <= n <= 0xd
    ||| n == 0x20
    ||| n == 0x85
    ||| n == 0xa0
    ||| n == 0x1680
    ||| 0x2000 <= n <= 0x200a
    ||| n == 0x2028
    ||| n == 0x2029
    ||| n == 0x202f
    ||| n == 0x205f
    ||| n == 0x3000
}

/// `s` without its leading whitespace.
pub open spec fn trim_start_ws(s: Seq<char>) -> Seq<char>
    decreases s.len(),
{
    if s.len() > 0 && is_whitespace(s[0]) {
        trim_start_ws(s.drop_first())
    } else {
        s
    }
}

/// `s` without its trailing whitespace.
pub open spec fn trim_end_ws(s: Seq<char>) -> Seq<char>
    decreases s.len(),
{
    if s.len() > 0 && is_whitespace(s.last()) {
        trim_end_ws(s.drop_last())
    } else {
        s
    }
}

/// `s` without its leading and trailing whitespace.
pub open spec fn trim_ws(s: Seq<char>) -> Seq<char> {
    trim_end_ws(trim_start_ws(s))
}

/// Whether `c` is a whitespace character.
pub fn char_is_whitespace(c: char) -> (b: bool)
    ensures
        b == is_whitespace(c),
{
    let n = c as u32;
    (0x9 <= n && n <= 0xd) || n == 0x20 || n == 0x85 || n == 0xa0 || n == 0x1680 || (0x2000 <= n
        && n <= 0x200a) || n == 0x2028 || n == 0x2029 || n == 0x202f || n == 0x205f || n == 0x3000
}

/// Leading whitespace that stops at a non-whitespace character is all of it.
proof fn lemma_trim_start_stops(s: Seq<char>, i: int)
    requires
        0 <= i <= s.len(),
        forall|k: int| 0 <= k < i ==> is_whitespace(#[trigger] s[k]),
        i == s.len() || !is_whitespace(s[i]),
    ensures
        trim_start_ws(s) == s.skip(i),
    decreases i,
{
    if i > 0 {
        assert(s.drop_first().skip(i - 1) =~= s.skip(i));
        lemma_trim_start_stops(s.drop_first(), i - 1);
    } else {
        assert(s.skip(0) =~= s);
    }
}

/// Trailing whitespace that stops at a non-whitespace character is all of it.
proof fn lemma_trim_end_stops(s: Seq<char>, j: int)
    requires
        0 <= j <= s.len(),
        forall|k: int| j <= k < s.len() ==> is_whitespace(#[trigger] s[k]),
        j == 0 || !is_whitespace(s[j - 1]),
    ensures
        trim_end_ws(s) == s.take(j),
    decreases s.len() - j,
{
    if j < s.len() {
        assert(s.drop_last().take(j) =~= s.take(j));
        lemma_trim_end_stops(s.drop_last(), j);
    } else {
        assert(s.take(j) =~= s);
    }
}

/// What remains after trimming starts and ends with a non-whitespace character.
pub proof fn lemma_trim_ws_bounds(s: Seq<char>)
    ensures
        trim_start_ws(s).len() > 0 ==> !is_whitespace(trim_start_ws(s)[0]),
        trim_end_ws(s).len() > 0 ==> !is_whitespace(trim_end_ws(s).last()),
        trim_end_ws(s).is_prefix_of(s),
        trim_start_ws(s).is_suffix_of(s),
    decreases s.len(),
{
    if s.len() > 0 {
        lemma_trim_ws_bounds(s.drop_first());
        lemma_trim_ws_bounds(s.drop_last());
    }
}

/// `s` without leading and trailing whitespace, as `str::trim` gives it.
pub fn trim(s: &str) -> (r: String)
    ensures
        r@ == trim_ws(s@),
{
    let cs = chars_of(s);
    let n = cs.len();
    let mut i: usize = 0;
    while i < n && char_is_whitespace(cs[i])
        invariant
            n == cs@.len(),
            i <= n,
            forall|k: int| 0 <= k < i ==> is_whitespace(#[trigger] cs@[k]),
        decreases n - i,
    {
        i = i + 1;
    }
    proof {
        lemma_trim_start_stops(cs@, i as int);
    }
    let mut j: usize = n;
    while j > i && char_is_whitespace(cs[j - 1])
        invariant
            n == cs@.len(),
            i <= j <= n,
            forall|k: int| j <= k < n ==> is_whitespace(#[trigger] cs@[k]),
        decreases j,
    {
        j = j - 1;
    }
    let ghost rest = cs@.skip(i as int);
    proof {
        assert forall|k: int| j - i <= k < rest.len() implies is_whitespace(#[trigger] rest[k]) by {
            assert(rest[k] == cs@[k + i]);
        }
        lemma_trim_end_stops(rest, j - i);
        assert(rest.take(j - i) =~= cs@.subrange(i as int, j as int));
    }
    string_from(slice_subrange(cs.as_slice(), i, j))
}

// ---------------------------------------------------------------------------
// Prefixes
// ---------------------------------------------------------------------------

/// `s` with every leading repetition of the pattern `p` removed, as
/// `str::trim_start_matches` removes it; an empty pattern removes nothing.
pub open spec fn trim_start_matches_spec(s: Seq<char>, p: Seq<char>) -> Seq<char>
    decreases s.len(),
{
    if p.len() > 0 && p.is_prefix_of(s) {
        trim_start_matches_spec(s.skip(p.len() as int), p)
    } else {
        s
    }
}

/// `s` with one leading `p` removed, if `s` starts with `p`.
pub open spec fn strip_prefix_spec(s: Seq<char>, p: Seq<char>) -> Option<Seq<char>> {
    if p.is_prefix_of(s) {
        Some(s.skip(p.len() as int))
    } else {
        None
    }
}

/// Whether `p` occurs in `cs` at position `i`.
fn occurs_at(cs: &[char], i: usize, p: &[char]) -> (b: bool)
    requires
        i <= cs@.len(),
    ensures
        b == p@.is_prefix_of(cs@.skip(i as int)),
{
    if p.len() > cs.len() - i {
        return false;
    }
    let mut k: usize = 0;
    while k < p.len()
        invariant
            i <= cs@.len() <= usize::MAX,
            p@.len() <= cs@.len() - i,
            k <= p@.len(),
            forall|m: int| 0 <= m < k ==> p@[m] == cs@[i + m],
        decreases p@.len() - k,
    {
        if p[k] != cs[i + k] {
            assert(cs@.skip(i as int).subrange(0, p@.len() as int)[k as int] == cs@[i + k]);
            return false;
        }
        k = k + 1;
    }
    assert(p@ =~= cs@.skip(i as int).subrange(0, p@.len() as int));
    true
}

/// `s` with every leading repetition of `pat` removed (`str::trim_start_matches`).
pub fn trim_start_matches(s: &str, pat: &str) -> (r: String)
    ensures
        r@ == trim_start_matches_spec(s@, pat@),
{
    let cs = chars_of(s);
    let p = chars_of(pat);
    let n = cs.len();
    let mut i: usize = 0;
    assert(cs@.skip(0) =~= cs@);
    if p.len() > 0 {
        while occurs_at(cs.as_slice(), i, p.as_slice())
            invariant
                i <= cs@.len() == n,
                p@.len() > 0,
                trim_start_matches_spec(cs@, p@) == trim_start_matches_spec(cs@.skip(i as int), p@),
            decreases cs@.len() - i,
        {
            assert(cs@.skip(i as int).skip(p@.len() as int) =~= cs@.skip(i + p@.len()));
            assert(i + p@.len() <= cs@.len());
            i = i + p.len();
        }
    } else {
        assert(cs@.skip(0) =~= cs@);
    }
    assert(cs@.skip(i as int) =~= cs@.subrange(i as int, cs@.len() as int));
    string_from(slice_subrange(cs.as_slice(), i, cs.len()))
}

/// `s` with one leading `prefix` removed, or `None` when `s` does not start
/// with it (`str::strip_prefix`).
pub fn strip_prefix(s: &str, prefix: &str) -> (r: Option<String>)
    ensures
        r matches Some(t) ==> Some(t@) == strip_prefix_spec(s@, prefix@),
        r is None <==> strip_prefix_spec(s@, prefix@) is None,
{
    let cs = chars_of(s);
    let p = chars_of(prefix);
    if occurs_at(cs.as_slice(), 0, p.as_slice()) {
        assert(cs@.skip(0) =~= cs@);
        assert(cs@.skip(p@.len() as int) =~= cs@.subrange(p@.len() as int, cs@.len() as int));
        Some(string_from(slice_subrange(cs.as_slice(), p.len(), cs.len())))
    } else {
        assert(cs@.skip(0) =~= cs@);
        None
    }
}


/// The characters of an optional string, or `None`.
pub open spec fn opt_view(o: Option<String>) -> Option<Seq<char>> {
    match o {
        Some(t) => Some(t@),
        None => None,
    }
}

/// The characters of an optional string, or nothing when it is absent
/// (`unwrap_or_default`).
pub open spec fn or_empty(o: Option<Seq<char>>) -> Seq<char> {
    match o {
        Some(t) => t,
        None => Seq::empty(),
    }
}

/// `k` copies of `p`, one after another.
pub open spec fn repeated(p: Seq<char>, k: nat) -> Seq<char>
    decreases k,
{
    if k == 0 {
        Seq::empty()
    } else {
        p + repeated(p, (k - 1) as nat)
    }
}

/// Once every leading `p` is gone, the result no longer starts with `p`, and it
/// is what follows some number of copies of `p` in `s`.
pub proof fn lemma_trim_start_matches_result(s: Seq<char>, p: Seq<char>)
    ensures
        p.len() > 0 ==> !p.is_prefix_of(trim_start_matches_spec(s, p)),
        trim_start_matches_spec(s, p).is_suffix_of(s),
        exists|k: nat| s == #[trigger] repeated(p, k) + trim_start_matches_spec(s, p),
    decreases s.len(),
{
    if p.len() > 0 && p.is_prefix_of(s) {
        let t = s.skip(p.len() as int);
        lemma_trim_start_matches_result(t, p);
        let k = choose|k: nat| t == #[trigger] repeated(p, k) + trim_start_matches_spec(t, p);
        assert(s =~= p + t);
        assert(repeated(p, k + 1) == p + repeated(p, k));
        assert(s =~= repeated(p, k + 1) + trim_start_matches_spec(s, p));
    } else {
        assert(s =~= repeated(p, 0) + s);
        assert(s.subrange(0, s.len() as int) =~= s);
    }
}

/// Removing the leading repetitions of a pattern a second time changes nothing.
pub proof fn lemma_trim_start_matches_idempotent(s: Seq<char>, p: Seq<char>)
    ensures
        trim_start_matches_spec(trim_start_matches_spec(s, p), p) == trim_start_matches_spec(s, p),
{
    lemma_trim_start_matches_result(s, p);
}

/// Removing one leading `p` before removing every leading `p` changes nothing.
pub proof fn lemma_strip_then_trim(s: Seq<char>, p: Seq<char>)
    ensures
        trim_start_matches_spec(or_default_to(strip_prefix_spec(s, p), s), p)
            == trim_start_matches_spec(s, p),
{
    if p.len() == 0 {
        assert(s.skip(0) =~= s);
    }
}

/// The value inside `o`, or `d` when there is none.
pub open spec fn or_default_to(o: Option<Seq<char>>, d: Seq<char>) -> Seq<char> {
    match o {
        Some(t) => t,
        None => d,
    }
}

/// Trimming whitespace a second time changes nothing, and a trimmed string
/// neither starts nor ends with whitespace.
pub proof fn lemma_trim_ws_idempotent(s: Seq<char>)
    ensures
        trim_ws(trim_ws(s)) == trim_ws(s),
        trim_ws(s).len() > 0 ==> !is_whitespace(trim_ws(s)[0]) && !is_whitespace(
            trim_ws(s).last(),
        ),
{
    let u = trim_start_ws(s);
    let t = trim_ws(s);
    lemma_trim_ws_bounds(s);
    lemma_trim_ws_bounds(u);
    if t.len() > 0 {
        assert(t[0] == u[0]);
    }
    assert(trim_start_ws(t) == t);
    assert(trim_end_ws(t) == t);
}

// ---------------------------------------------------------------------------
// Tab-separated fields
// ---------------------------------------------------------------------------

/// The text after the first `n` tab characters of `s`, or `None` when `s`
/// holds fewer than `n` tabs.
pub open spec fn after_tabs(s: Seq<char>, n: nat) -> Option<Seq<char>>
    decreases s.len(),
{
    if n == 0 {
        Some(s)
    } else if s.len() == 0 {
        None
    } else if s[0] == '\t' {
        after_tabs(s.drop_first(), (n - 1) as nat)
    } else {
        after_tabs(s.drop_first(), n)
    }
}

/// The text after the first `n` tabs of `line`, that is the last piece of
/// `line.splitn(n + 1, '\t')` when there are `n + 1` pieces; `None` when the
/// line holds fewer than `n` tabs.
pub fn rest_after_tabs(line: &str, n: usize) -> (r: Option<String>)
    ensures
        opt_view(r) == after_tabs(line@, n as nat),
{
    let cs = chars_of(line);
    let len = cs.len();
    let mut i: usize = 0;
    let mut seen: usize = 0;
    assert(cs@.skip(0) =~= cs@);
    while seen < n && i < len
        invariant
            len == cs@.len(),
            i <= len,
            seen <= n,
            after_tabs(cs@, n as nat) == after_tabs(cs@.skip(i as int), (n - seen) as nat),
        decreases len - i,
    {
        assert(cs@.skip(i as int).drop_first() =~= cs@.skip(i + 1));
        if cs[i] == '\t' {
            seen = seen + 1;
        }
        i = i + 1;
    }
    if seen == n {
        assert(cs@.skip(i as int) =~= cs@.subrange(i as int, len as int));
        Some(string_from(slice_subrange(cs.as_slice(), i, len)))
    } else {
        None
    }
}

/// What follows the first `n` tabs is the end of the line.
pub proof fn lemma_after_tabs_suffix(s: Seq<char>, n: nat)
    ensures
        after_tabs(s, n) matches Some(r) ==> r.is_suffix_of(s),
    decreases s.len(),
{
    if n > 0 && s.len() > 0 {
        if s[0] == '\t' {
            lemma_after_tabs_suffix(s.drop_first(), (n - 1) as nat);
        } else {
            lemma_after_tabs_suffix(s.drop_first(), n);
        }
    } else if n == 0 {
        assert(s.subrange(0, s.len() as int) =~= s);
    }
}

// ---------------------------------------------------------------------------
// File names in paths
// ---------------------------------------------------------------------------

/// Where the last `/`-separated segment of `p` starts: just after the last `/`
/// of `p`, or at 0 when `p` holds none.
pub open spec fn segment_start(p: Seq<char>) -> int
    decreases p.len(),
{
    if p.len() == 0 {
        0
    } else if p.last() == '/' {
        p.len() as int
    } else {
        segment_start(p.drop_last())
    }
}

/// The last segment starts within the path, before its end when the path does
/// not end in a separator.
pub proof fn lemma_segment_start_bounds(p: Seq<char>)
    ensures
        0 <= segment_start(p) <= p.len(),
        p.len() > 0 && p.last() != '/' ==> segment_start(p) < p.len(),
    decreases p.len(),
{
    if p.len() > 0 {
        lemma_segment_start_bounds(p.drop_last());
    }
}

/// The final component of a path, read the way `Path::file_name` reads a Unix
/// path: separators at the end and `.` components are passed over; a path
/// that ends in `..`, or that has no normal component (empty, `/`, `.`),
/// has none.
pub open spec fn file_name_spec(p: Seq<char>) -> Option<Seq<char>>
    decreases p.len(),
{
    if p.len() == 0 {
        None
    } else if p.last() == '/' {
        file_name_spec(p.drop_last())
    } else {
        let k = segment_start(p);
        let seg = p.skip(k);
        if seg == seq!['.'] {
            if k == 0 {
                None
            } else {
                proof {
                    lemma_segment_start_bounds(p);
                }
                file_name_spec(p.take(k))
            }
        } else if seg == seq!['.', '.'] {
            None
        } else {
            Some(seg)
        }
    }
}

proof fn lemma_segment_start_at(s: Seq<char>, k: int)
    requires
        0 <= k <= s.len(),
        forall|x: int| k <= x < s.len() ==> #[trigger] s[x] != '/',
        k == 0 || s[k - 1] == '/',
    ensures
        segment_start(s) == k,
    decreases s.len(),
{
    if s.len() > k {
        lemma_segment_start_at(s.drop_last(), k);
    }
}

/// The final component of `path` (`Path::file_name`), or the empty string
/// when there is none.
pub fn file_name_of(path: &str) -> (r: String)
    ensures
        r@ == or_empty(file_name_spec(path@)),
{
    let cs = chars_of(path);
    let mut e: usize = cs.len();
    assert(cs@.take(e as int) =~= cs@);
    loop
        invariant
            cs@ == path@,
            e <= cs@.len(),
            file_name_spec(cs@) == file_name_spec(cs@.take(e as int)),
        decreases e,
    {
        if e == 0 {
            assert(cs@.take(0) =~= Seq::<char>::empty());
            return String::new();
        }
        if cs[e - 1] == '/' {
            assert(cs@.take(e as int).drop_last() =~= cs@.take(e - 1));
            e = e - 1;
        } else {
            let mut k: usize = e - 1;
            while k > 0 && cs[k - 1] != '/'
                invariant
                    k < e <= cs@.len(),
                    forall|x: int| k <= x < e ==> #[trigger] cs@[x] != '/',
                decreases k,
            {
                k = k - 1;
            }
            let ghost pre = cs@.take(e as int);
            proof {
                assert(pre.last() == cs@[e - 1]);
                assert forall|x: int| k <= x < pre.len() implies #[trigger] pre[x] != '/' by {
                    assert(pre[x] == cs@[x]);
                }
                lemma_segment_start_at(pre, k as int);
                assert(pre.skip(k as int) =~= cs@.subrange(k as int, e as int));
            }
            if e - k == 1 && cs[k] == '.' {
                assert(pre.skip(k as int) =~= seq!['.']);
                if k == 0 {
                    return String::new();
                }
                assert(pre.take(k as int) =~= cs@.take(k as int));
                e = k;
            } else if e - k == 2 && cs[k] == '.' && cs[k + 1] == '.' {
                assert(pre.skip(k as int) =~= seq!['.', '.']);
                return String::new();
            } else {
                proof {
                    let seg = pre.skip(k as int);
                    if seg == seq!['.'] {
                        assert(seg[0] == cs@[k as int]);
                    }
                    if seg == seq!['.', '.'] {
                        assert(seg[0] == cs@[k as int]);
                        assert(seg[1] == cs@[k + 1]);
                    }
                }
                return string_from(slice_subrange(cs.as_slice(), k, e));
            }
        }
    }
}

/// A file name holds no separator.
pub proof fn lemma_file_name_has_no_separator(p: Seq<char>)
    ensures
        file_name_spec(p) matches Some(n) ==> n.len() > 0 && !n.contains('/'),
    decreases p.len(),
{
    if p.len() > 0 {
        if p.last() == '/' {
            lemma_file_name_has_no_separator(p.drop_last());
        } else {
            let k = segment_start(p);
            lemma_segment_start_bounds(p);
            lemma_segment_no_separator(p);
            let seg = p.skip(k);
            if seg == seq!['.'] && k != 0 {
                lemma_file_name_has_no_separator(p.take(k));
            }
            if !(seg == seq!['.'] || seg == seq!['.', '.']) {
                assert forall|x: int| 0 <= x < seg.len() implies seg[x] != '/' by {
                    assert(seg[x] == p[k + x]);
                }
            }
        }
    }
}

proof fn lemma_segment_no_separator(p: Seq<char>)
    ensures
        forall|x: int| segment_start(p) <= x < p.len() ==> #[trigger] p[x] != '/',
    decreases p.len(),
{
    lemma_segment_start_bounds(p);
    if p.len() > 0 && p.last() != '/' {
        lemma_segment_no_separator(p.drop_last());
        assert forall|x: int| segment_start(p) <= x < p.len() implies #[trigger] p[x] != '/' by {
            if x < p.len() - 1 {
                assert(p.drop_last()[x] == p[x]);
            }
        }
    }
}

// ---------------------------------------------------------------------------
// What the operations do, stated from their inputs
// ---------------------------------------------------------------------------

/// Trimming removes whitespace only: what goes from the front and from the
/// back of `s` is whitespace, and what stays is the rest of `s` in place.
pub proof fn lemma_trim_removes_only_whitespace(s: Seq<char>)
    ensures
        s == s.take(s.len() - trim_start_ws(s).len()) + trim_start_ws(s),
        forall|k: int|
            0 <= k < s.len() - trim_start_ws(s).len() ==> is_whitespace(#[trigger] s[k]),
        s == trim_end_ws(s) + s.skip(trim_end_ws(s).len() as int),
        forall|k: int| trim_end_ws(s).len() <= k < s.len() ==> is_whitespace(#[trigger] s[k]),
    decreases s.len(),
{
    lemma_trim_ws_bounds(s);
    if s.len() > 0 && is_whitespace(s[0]) {
        let t = s.drop_first();
        lemma_trim_removes_only_whitespace(t);
        assert forall|k: int|
            0 <= k < s.len() - trim_start_ws(s).len() implies is_whitespace(#[trigger] s[k]) by {
            if k > 0 {
                assert(s[k] == t[k - 1]);
            }
        }
        assert(s =~= s.take(s.len() - trim_start_ws(s).len()) + trim_start_ws(s)) by {
            assert(t =~= t.take(t.len() - trim_start_ws(t).len()) + trim_start_ws(t));
        }
    } else {
        assert(s =~= s.take(0) + s);
    }
    if s.len() > 0 && is_whitespace(s.last()) {
        let t = s.drop_last();
        lemma_trim_removes_only_whitespace(t);
        assert forall|k: int|
            trim_end_ws(s).len() <= k < s.len() implies is_whitespace(#[trigger] s[k]) by {
            if k < s.len() - 1 {
                assert(s[k] == t[k]);
            }
        }
        assert(s =~= trim_end_ws(s) + s.skip(trim_end_ws(s).len() as int)) by {
            assert(t =~= trim_end_ws(t) + t.skip(trim_end_ws(t).len() as int));
        }
    } else {
        assert(s =~= s + s.skip(s.len() as int));
    }
}

/// `strip_prefix` gives exactly the text that follows `p` in `s`, and gives
/// nothing when no text follows `p` to make up `s`.
pub proof fn lemma_strip_prefix_exact(s: Seq<char>, p: Seq<char>)
    ensures
        strip_prefix_spec(s, p) matches Some(r) ==> s == p + r,
        forall|r: Seq<char>| s == p + r ==> strip_prefix_spec(s, p) == Some(r),
{
    if strip_prefix_spec(s, p) is Some {
        assert(s =~= p + s.skip(p.len() as int));
    }
    assert forall|r: Seq<char>| s == p + r implies strip_prefix_spec(s, p) == Some(r) by {
        assert(p =~= s.subrange(0, p.len() as int));
        assert(r =~= s.skip(p.len() as int));
    }
}

/// Every line starts with all of its text: no tab is passed over for zero tabs.
pub proof fn lemma_after_no_tabs(s: Seq<char>)
    ensures
        after_tabs(s, 0) == Some(s),
{
}

/// Passing over `n + 1` tabs of `a`, a tab, then `b`, where `a` holds no tab,
/// is passing over `n` tabs of `b`, whatever the lengths; a text without a tab
/// has nothing after its first tab.
pub proof fn lemma_after_tabs_field(a: Seq<char>, b: Seq<char>, n: nat)
    requires
        forall|i: int| 0 <= i < a.len() ==> #[trigger] a[i] != '\t',
    ensures
        after_tabs(a + seq!['\t'] + b, n + 1) == after_tabs(b, n),
        n > 0 ==> after_tabs(a, n) is None,
    decreases a.len(),
{
    let line = a + seq!['\t'] + b;
    if a.len() == 0 {
        assert(line.drop_first() =~= b);
        assert(line[0] == '\t');
    } else {
        let a1 = a.drop_first();
        assert forall|i: int| 0 <= i < a1.len() implies #[trigger] a1[i] != '\t' by {
            assert(a1[i] == a[i + 1]);
        }
        lemma_after_tabs_field(a1, b, n);
        assert(line.drop_first() =~= a1 + seq!['\t'] + b);
        assert(line[0] == a[0]);
    }
}

/// The file name of `d/n` is `n`, and so is that of `n` alone, for any
/// component `n` that is not empty, holds no separator and is neither `.` nor
/// `..`, whatever its length.
pub proof fn lemma_file_name_of_component(d: Seq<char>, n: Seq<char>)
    requires
        n.len() > 0,
        forall|i: int| 0 <= i < n.len() ==> #[trigger] n[i] != '/',
        n != seq!['.'],
        n != seq!['.', '.'],
    ensures
        file_name_spec(d + seq!['/'] + n) == Some(n),
        file_name_spec(n) == Some(n),
{
    let p = d + seq!['/'] + n;
    let k: int = d.len() as int + 1;
    assert forall|x: int| k <= x < p.len() implies #[trigger] p[x] != '/' by {
        assert(p[x] == n[x - k]);
    }
    assert(p[k - 1] == '/');
    lemma_segment_start_at(p, k);
    assert(p.skip(k) =~= n);
    assert(p.last() == n.last());
    lemma_segment_start_at(n, 0);
    assert(n.skip(0) =~= n);
}

/// Separators at the end and a final `.` change no file name, and a path that
/// ends in `..` has none.
pub proof fn lemma_file_name_of_dots(d: Seq<char>)
    ensures
        file_name_spec(d.push('/')) == file_name_spec(d),
        file_name_spec(d + seq!['/', '.']) == file_name_spec(d),
        file_name_spec(d + seq!['/', '.', '.']) is None,
{
    assert(d.push('/').drop_last() =~= d);
    let k: int = d.len() as int + 1;
    let p1 = d + seq!['/', '.'];
    assert forall|x: int| k <= x < p1.len() implies #[trigger] p1[x] != '/' by {
    }
    lemma_segment_start_at(p1, k);
    assert(p1.skip(k) =~= seq!['.']);
    assert(p1.take(k) =~= d.push('/'));
    let p2 = d + seq!['/', '.', '.'];
    assert forall|x: int| k <= x < p2.len() implies #[trigger] p2[x] != '/' by {
    }
    lemma_segment_start_at(p2, k);
    assert(p2.skip(k) =~= seq!['.', '.']);
}

/// An optional string is read as its text when present and as the empty
/// text when absent.
pub proof fn lemma_optional_text(o: Option<String>)
    ensures
        o matches Some(t) ==> opt_view(o) == Some(t@) && or_empty(opt_view(o)) == t@,
        o is None ==> opt_view(o) is None && or_empty(opt_view(o)) == Seq::<char>::empty(),
{
}

/// Removing every leading copy of `p` from `j` copies of `p` followed by a
/// text that does not start with `p` leaves that text, whatever `j`.
pub proof fn lemma_trim_start_matches_of_copies(p: Seq<char>, j: nat, r: Seq<char>)
    requires
        p.len() > 0,
        !p.is_prefix_of(r),
    ensures
        trim_start_matches_spec(repeated(p, j) + r, p) == r,
    decreases j,
{
    if j > 0 {
        let s = repeated(p, j) + r;
        assert(s =~= p + (repeated(p, (j - 1) as nat) + r));
        assert(p.is_prefix_of(s)) by {
            assert(s.subrange(0, p.len() as int) =~= p);
        }
        assert(s.skip(p.len() as int) =~= repeated(p, (j - 1) as nat) + r);
        lemma_trim_start_matches_of_copies(p, (j - 1) as nat, r);
    } else {
        assert(repeated(p, 0) + r =~= r);
    }
}

/// Leading whitespace goes, and a text that starts with no whitespace stays.
proof fn lemma_trim_start_of_padded(w: Seq<char>, k: Seq<char>)
    requires
        forall|i: int| 0 <= i < w.len() ==> is_whitespace(#[trigger] w[i]),
        k.len() == 0 || !is_whitespace(k[0]),
    ensures
        trim_start_ws(w + k) == k,
    decreases w.len(),
{
    if w.len() > 0 {
        let w1 = w.drop_first();
        assert forall|i: int| 0 <= i < w1.len() implies is_whitespace(#[trigger] w1[i]) by {
            assert(w1[i] == w[i + 1]);
        }
        assert((w + k).drop_first() =~= w1 + k);
        assert((w + k)[0] == w[0]);
        lemma_trim_start_of_padded(w1, k);
    } else {
        assert(w + k =~= k);
    }
}

/// Trailing whitespace goes, and a text that ends in no whitespace stays.
proof fn lemma_trim_end_of_padded(k: Seq<char>, w: Seq<char>)
    requires
        forall|i: int| 0 <= i < w.len() ==> is_whitespace(#[trigger] w[i]),
        k.len() == 0 || !is_whitespace(k.last()),
    ensures
        trim_end_ws(k + w) == k,
    decreases w.len(),
{
    if w.len() > 0 {
        let w1 = w.drop_last();
        assert forall|i: int| 0 <= i < w1.len() implies is_whitespace(#[trigger] w1[i]) by {
            assert(w1[i] == w[i]);
        }
        assert((k + w).drop_last() =~= k + w1);
        assert((k + w).last() == w.last());
        lemma_trim_end_of_padded(k, w1);
    } else {
        assert(k + w =~= k);
    }
}

/// Trimming a text padded with whitespace on both sides gives the text back,
/// whatever the padding, when the text neither starts nor ends with whitespace.
pub proof fn lemma_trim_ws_of_padded(w1: Seq<char>, k: Seq<char>, w2: Seq<char>)
    requires
        forall|i: int| 0 <= i < w1.len() ==> is_whitespace(#[trigger] w1[i]),
        forall|i: int| 0 <= i < w2.len() ==> is_whitespace(#[trigger] w2[i]),
        k.len() == 0 || (!is_whitespace(k[0]) && !is_whitespace(k.last())),
    ensures
        trim_ws(w1 + k + w2) == k,
{
    let kw = k + w2;
    if k.len() == 0 {
        let e = Seq::<char>::empty();
        assert(w1 + w2 + e =~= w1 + k + w2);
        assert forall|i: int| 0 <= i < (w1 + w2).len() implies is_whitespace(
            #[trigger] (w1 + w2)[i],
        ) by {
            if i < w1.len() {
                assert((w1 + w2)[i] == w1[i]);
            } else {
                assert((w1 + w2)[i] == w2[i - w1.len()]);
            }
        }
        lemma_trim_start_of_padded(w1 + w2, e);
    } else {
        assert(kw[0] == k[0]);
        lemma_trim_start_of_padded(w1, kw);
        assert(w1 + kw =~= w1 + k + w2);
        lemma_trim_end_of_padded(k, w2);
    }
}

} // verus!
