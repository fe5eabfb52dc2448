use vstd::prelude::*;

verus! {

// ---------------------------------------------------------------------
// Character-level helpers
// ---------------------------------------------------------------------

/// Appends one character to a string.
/// Trusted: `String::push`, documented as appending the given `char` to the end.
#[verifier::external_body]
pub(crate) fn push_char(s: &mut String, c: char)
    ensures
        final(s)@ == old(s)@.push(c),
{
    s.push(c)
}

/// The characters of a string slice, in order.
pub fn chars_of(s: &str) -> (v: Vec<char>)
    ensures
        v@ == s@,
{
    let mut v: Vec<char> = Vec::new();
    for c in it: s.chars()
        invariant
            v@ == it.seq().take(it.index() as int),
    {
        v.push(c);
    }
    v
}

/// A string made of the given characters, in order.
pub fn string_of(v: &Vec<char>) -> (s: String)
    ensures
        s@ == v@,
{
    let mut s = String::new();
    let mut i: usize = 0;
    while i < v.len()
        invariant
            i <= v.len(),
            s@ == v@.take(i as int),
        decreases v.len() - i,
    {
        push_char(&mut s, v[i]);
        i += 1;
        assert(s@ == v@.take(i as int));
    }
    assert(v@.take(v.len() as int) == v@);
    s
}

/// A string holding the characters of a slice.
pub fn owned(s: &str) -> (r: String)
    ensures
        r@ == s@,
{
    String::from_str(s)
}

// ---------------------------------------------------------------------
// Decimal numerals
// ---------------------------------------------------------------------

/// The ASCII digit for `d` (meant for `0 <= d < 10`).
pub open spec fn digit_char(d: int) -> char {
    (d + 48) as char
}

/// The decimal numeral of `n`, most significant digit first, without
/// leading zeros (zero itself is `"0"`).
pub open spec fn decimal(n: nat) -> Seq<char>
    decreases n,
{
    if n < 10 {
        seq![digit_char(n as int)]
    } else {
        decimal(n / 10).push(digit_char((n % 10) as int))
    }
}

fn digit(d: u64) -> (c: char)
    requires
        d < 10,
    ensures
        c == digit_char(d as int),
{
    let b: u8 = 48u8 + (d as u8);
    b as char
}

/// The decimal numeral of `n`.
pub fn decimal_string(n: u64) -> (s: String)
    ensures
        s@ == decimal(n as nat),
    decreases n,
{
    if n < 10 {
        let mut s = String::new();
        push_char(&mut s, digit(n));
        s
    } else {
        let mut s = decimal_string(n / 10);
        push_char(&mut s, digit(n % 10));
        s
    }
}

// ---------------------------------------------------------------------
// Joining
// ---------------------------------------------------------------------

/// The parts written one after another with `sep` between neighbours.
pub open spec fn join(parts: Seq<Seq<char>>, sep: Seq<char>) -> Seq<char>
    decreases parts.len(),
{
    if parts.len() == 0 {
        Seq::empty()
    } else if parts.len() == 1 {
        parts[0]
    } else {
        join(parts.drop_last(), sep) + sep + parts.last()
    }
}

/// The character sequences of a sequence of strings.
pub open spec fn views(v: Seq<String>) -> Seq<Seq<char>> {
    v.map_values(|s: String| s@)
}

proof fn lemma_concat_contains(a: Seq<char>, b: Seq<char>, c: char)
    ensures
        (a + b).contains(c) ==> a.contains(c) || b.contains(c),
{
    if (a + b).contains(c) {
        let k = choose|k: int| 0 <= k < (a + b).len() && (a + b)[k] == c;
        if k < a.len() {
            assert(a[k] == c);
        } else {
            assert(b[k - a.len()] == c);
        }
    }
}

/// Every character of a joined text comes from the separator or a part.
pub(crate) proof fn lemma_join_chars(parts: Seq<Seq<char>>, sep: Seq<char>, c: char)
    ensures
        join(parts, sep).contains(c) ==> sep.contains(c) || exists|i: int|
            0 <= i < parts.len() && #[trigger] parts[i].contains(c),
    decreases parts.len(),
{
    if parts.len() == 1 {
        assert(parts[0].contains(c) ==> parts[0].contains(c));
    } else if parts.len() > 1 {
        let front = parts.drop_last();
        lemma_join_chars(front, sep, c);
        lemma_concat_contains(join(front, sep) + sep, parts.last(), c);
        lemma_concat_contains(join(front, sep), sep, c);
        if join(front, sep).contains(c) && !sep.contains(c) {
            let i = choose|i: int| 0 <= i < front.len() && #[trigger] front[i].contains(c);
            assert(parts[i] == front[i]);
        }
        if parts.last().contains(c) {
            assert(parts[parts.len() - 1].contains(c));
        }
    }
}

proof fn lemma_matches_in_concat(a: Seq<char>, b: Seq<char>, p: Seq<char>, k: int)
    ensures
        matches_at(a, p, k) ==> matches_at(a + b, p, k),
        matches_at(b, p, k) ==> matches_at(a + b, p, a.len() + k),
{
    if matches_at(a, p, k) {
        assert((a + b).subrange(k, k + p.len()) =~= a.subrange(k, k + p.len()));
    }
    if matches_at(b, p, k) {
        assert((a + b).subrange(a.len() + k, a.len() + k + p.len()) =~= b.subrange(
            k,
            k + p.len(),
        ));
    }
}

/// Each part occurs in the joined text.
pub(crate) proof fn lemma_join_has_part(parts: Seq<Seq<char>>, sep: Seq<char>, i: int)
    requires
        0 <= i < parts.len(),
    ensures
        occurs_in(join(parts, sep), parts[i]),
    decreases parts.len(),
{
    if parts.len() == 1 {
        assert(parts[0].subrange(0, parts[0].len() as int) =~= parts[0]);
        assert(matches_at(join(parts, sep), parts[i], 0));
    } else {
        let front = parts.drop_last();
        let j = join(front, sep);
        if i == parts.len() - 1 {
            let last = parts.last();
            assert(last.subrange(0, last.len() as int) =~= last);
            assert(matches_at(last, last, 0));
            lemma_matches_in_concat(j + sep, last, last, 0);
            assert(matches_at(join(parts, sep), parts[i], (j + sep).len() as int));
        } else {
            lemma_join_has_part(front, sep, i);
            let k = choose|k: int| matches_at(j, front[i], k);
            lemma_matches_in_concat(j, sep, front[i], k);
            lemma_matches_in_concat(j + sep, parts.last(), front[i], k);
            assert(front[i] == parts[i]);
            assert(matches_at(join(parts, sep), parts[i], k));
        }
    }
}

/// The strings joined by `sep`.
pub fn join_strings(parts: &Vec<String>, sep: &str) -> (r: String)
    ensures
        r@ == join(views(parts@), sep@),
{
    let mut r = String::new();
    let ghost all = views(parts@);
    let mut i: usize = 0;
    while i < parts.len()
        invariant
            i <= parts.len(),
            all == views(parts@),
            r@ == join(all.take(i as int), sep@),
        decreases parts.len() - i,
    {
        if i != 0 {
            r.append(sep);
        }
        r.append(parts[i].as_str());
        assert(all.take(i + 1).drop_last() == all.take(i as int));
        i += 1;
    }
    assert(all.take(parts.len() as int) == all);
    r
}


/// Whether two strings hold the same characters.
pub fn str_equal(a: &str, b: &str) -> (r: bool)
    ensures
        r == (a@ == b@),
{
    let av = chars_of(a);
    let bv = chars_of(b);
    assert(av@ == a@ && bv@ == b@);
    if av.len() != bv.len() {
        return false;
    }
    let mut k: usize = 0;
    while k < av.len()
        invariant
            k <= av.len(),
            av.len() == bv.len(),
            av@ == a@,
            bv@ == b@,
            forall|j: int| 0 <= j < k ==> av@[j] == bv@[j],
        decreases av.len() - k,
    {
        if av[k] != bv[k] {
            assert(av@[k as int] != bv@[k as int]);
            return false;
        }
        k += 1;
    }
    assert(av@ =~= bv@);
    true
}

// ---------------------------------------------------------------------
// Searching
// ---------------------------------------------------------------------

/// `pat` occurs in `h` starting at index `i`.
pub open spec fn matches_at(h: Seq<char>, pat: Seq<char>, i: int) -> bool {
    0 <= i && i + pat.len() <= h.len() && h.subrange(i, i + pat.len()) == pat
}

/// `pat` occurs somewhere in `h`.
pub open spec fn occurs_in(h: Seq<char>, pat: Seq<char>) -> bool {
    exists|i: int| matches_at(h, pat, i)
}

/// Whether `pat` occurs in `h` at index `i`.
pub fn matches_at_index(h: &Vec<char>, pat: &Vec<char>, i: usize) -> (r: bool)
    ensures
        r == matches_at(h@, pat@, i as int),
{
    if i > h.len() || pat.len() > h.len() - i {
        return false;
    }
    let mut k: usize = 0;
    while k < pat.len()
        invariant
            i + pat.len() <= h.len(),
            k <= pat.len(),
            forall|j: int| 0 <= j < k ==> h@[i + j] == pat@[j],
        decreases pat.len() - k,
    {
        if h[i + k] != pat[k] {
            assert(h@.subrange(i as int, i + pat.len())[k as int] != pat@[k as int]);
            return false;
        }
        k += 1;
    }
    assert(h@.subrange(i as int, i + pat.len()) =~= pat@);
    true
}

/// The first index at or after `from` where `pat` occurs in `h`, if any.
pub open spec fn first_match_from(h: Seq<char>, pat: Seq<char>, from: int) -> Option<int>
    decreases h.len() + 1 - from,
{
    if from > h.len() {
        None
    } else if matches_at(h, pat, from) {
        Some(from)
    } else {
        first_match_from(h, pat, from + 1)
    }
}

/// The first occurrence at or after `from` is at `k` when `pat` occurs at
/// `k` and nowhere between `from` and `k`.
pub(crate) proof fn lemma_first_match_at(h: Seq<char>, pat: Seq<char>, from: int, k: int)
    requires
        from <= k,
        matches_at(h, pat, k),
        forall|j: int| from <= j < k ==> !matches_at(h, pat, j),
    ensures
        first_match_from(h, pat, from) == Some(k),
    decreases k - from,
{
    if from < k {
        lemma_first_match_at(h, pat, from + 1, k);
    }
}

/// The first index at or after `from` where `pat` occurs in `h`.
pub fn find_from(h: &Vec<char>, pat: &Vec<char>, from: usize) -> (r: Option<usize>)
    ensures
        first_match_from(h@, pat@, from as int) == match r {
            Some(i) => Some(i as int),
            None => None,
        },
        match r {
            Some(i) => from <= i && matches_at(h@, pat@, i as int) && forall|j: int|
                from <= j < i ==> !matches_at(h@, pat@, j),
            None => forall|j: int| from <= j ==> !matches_at(h@, pat@, j),
        },
{
    let mut i: usize = from;
    while i <= h.len()
        invariant
            from <= i,
            forall|j: int| from <= j < i ==> !matches_at(h@, pat@, j),
            first_match_from(h@, pat@, from as int) == first_match_from(h@, pat@, i as int),
        decreases h.len() + 1 - i,
    {
        if matches_at_index(h, pat, i) {
            return Some(i);
        }
        if i == h.len() {
            assert(first_match_from(h@, pat@, i + 1) == None::<int>);
            assert forall|j: int| from <= j implies !matches_at(h@, pat@, j) by {
                if j > h@.len() {
                    assert(!(j + pat@.len() <= h@.len()));
                }
            }
            return None;
        }
        i += 1;
    }
    None
}

/// Whether `pat` occurs in `h`.
pub fn str_contains(h: &str, pat: &str) -> (r: bool)
    ensures
        r == occurs_in(h@, pat@),
{
    let hv = chars_of(h);
    let pv = chars_of(pat);
    match find_from(&hv, &pv, 0) {
        Some(_) => true,
        None => false,
    }
}

// ---------------------------------------------------------------------
// Replacing
// ---------------------------------------------------------------------

/// `s` with every occurrence of `pat` replaced by `rep`, occurrences being
/// taken from the left without overlap (for a non-empty `pat`).
pub open spec fn replaced(s: Seq<char>, pat: Seq<char>, rep: Seq<char>) -> Seq<char>
    decreases s.len(),
{
    if s.len() == 0 {
        Seq::empty()
    } else if pat.len() > 0 && matches_at(s, pat, 0) {
        rep + replaced(s.skip(pat.len() as int), pat, rep)
    } else {
        seq![s[0]] + replaced(s.skip(1), pat, rep)
    }
}

proof fn lemma_matches_at_skip(s: Seq<char>, pat: Seq<char>, i: int)
    requires
        0 <= i <= s.len(),
    ensures
        matches_at(s.skip(i), pat, 0) == matches_at(s, pat, i),
{
    if matches_at(s, pat, i) {
        assert(s.skip(i).subrange(0, pat.len() as int) =~= s.subrange(i, i + pat.len()));
    }
    if matches_at(s.skip(i), pat, 0) {
        assert(s.skip(i).subrange(0, pat.len() as int) =~= s.subrange(i, i + pat.len()));
    }
}

proof fn lemma_matches_at_shift(s: Seq<char>, pat: Seq<char>, j: int)
    requires
        s.len() > 0,
        0 <= j,
    ensures
        matches_at(s.skip(1), pat, j) == matches_at(s, pat, j + 1),
{
    if matches_at(s, pat, j + 1) {
        assert(s.skip(1).subrange(j, j + pat.len()) =~= s.subrange(j + 1, j + 1 + pat.len()));
    }
    if matches_at(s.skip(1), pat, j) {
        assert(s.skip(1).subrange(j, j + pat.len()) =~= s.subrange(j + 1, j + 1 + pat.len()));
    }
}

/// Replacing in a text that starts with the pattern: the replacement, then
/// the replaced rest.
pub(crate) proof fn lemma_replaced_after_match(pat: Seq<char>, t: Seq<char>, rep: Seq<char>)
    requires
        pat.len() > 0,
    ensures
        replaced(pat + t, pat, rep) == rep + replaced(t, pat, rep),
{
    assert((pat + t).subrange(0, pat.len() as int) =~= pat);
    assert((pat + t).skip(pat.len() as int) =~= t);
}

/// A prefix in which no occurrence of the pattern starts is kept as it is.
pub(crate) proof fn lemma_replaced_unmatched_prefix(
    u: Seq<char>,
    t: Seq<char>,
    pat: Seq<char>,
    rep: Seq<char>,
)
    requires
        pat.len() > 0,
        forall|j: int| 0 <= j < u.len() ==> !matches_at(u + t, pat, j),
    ensures
        replaced(u + t, pat, rep) == u + replaced(t, pat, rep),
    decreases u.len(),
{
    if u.len() == 0 {
        assert(u + t =~= t);
    } else {
        let ut = u + t;
        let u1 = u.skip(1);
        assert(ut.skip(1) =~= u1 + t);
        assert(!matches_at(ut, pat, 0));
        assert forall|j: int| 0 <= j < u1.len() implies !matches_at(u1 + t, pat, j) by {
            lemma_matches_at_shift(ut, pat, j);
        }
        lemma_replaced_unmatched_prefix(u1, t, pat, rep);
        assert(ut[0] == u[0]);
        assert(u =~= seq![u[0]] + u1);
    }
}

/// `s` with every occurrence of `pat` replaced by `rep`.
pub fn replace_all(s: &Vec<char>, pat: &Vec<char>, rep: &Vec<char>) -> (r: Vec<char>)
    requires
        pat.len() > 0,
    ensures
        r@ == replaced(s@, pat@, rep@),
{
    let mut out: Vec<char> = Vec::new();
    let mut i: usize = 0;
    assert(s@.skip(0) == s@);
    while i < s.len()
        invariant
            i <= s.len(),
            pat.len() > 0,
            replaced(s@, pat@, rep@) == out@ + replaced(s@.skip(i as int), pat@, rep@),
        decreases s.len() - i,
    {
        let ghost rest = s@.skip(i as int);
        proof {
            lemma_matches_at_skip(s@, pat@, i as int);
        }
        if matches_at_index(s, pat, i) {
            let mut k: usize = 0;
            let ghost before = out@;
            while k < rep.len()
                invariant
                    k <= rep.len(),
                    out@ == before + rep@.take(k as int),
                decreases rep.len() - k,
            {
                out.push(rep[k]);
                k += 1;
                assert(out@ == before + rep@.take(k as int));
            }
            assert(rep@.take(rep.len() as int) == rep@);
            assert(rest.skip(pat.len() as int) == s@.skip(i + pat.len()));
            assert(out@ + replaced(s@.skip(i + pat.len()), pat@, rep@) == before + (rep@
                + replaced(rest.skip(pat.len() as int), pat@, rep@)));
            i += pat.len();
        } else {
            let ghost before = out@;
            out.push(s[i]);
            assert(rest.skip(1) == s@.skip(i + 1));
            assert(rest[0] == s@[i as int]);
            assert(out@ + replaced(s@.skip(i + 1), pat@, rep@) == before + (seq![rest[0]]
                + replaced(rest.skip(1), pat@, rep@)));
            i += 1;
        }
    }
    assert(replaced(s@.skip(i as int), pat@, rep@) == Seq::<char>::empty());
    out
}

/// `s` with every occurrence of `pat` replaced by `rep`.
pub fn str_replace(s: &str, pat: &str, rep: &str) -> (r: String)
    requires
        pat@.len() > 0,
    ensures
        r@ == replaced(s@, pat@, rep@),
{
    let sv = chars_of(s);
    let pv = chars_of(pat);
    let rv = chars_of(rep);
    let out = replace_all(&sv, &pv, &rv);
    string_of(&out)
}


// ---------------------------------------------------------------------
// Whitespace and trimming
// ---------------------------------------------------------------------

/// The characters with the Unicode `White_Space` property, the set that
/// `char::is_whitespace` and `str::trim` use.
pub open spec fn is_white_space(c: char) -> bool {
    ||| ('\t' <= c && c <= '\r')
    ||| c == ' '
    ||| c == '\u{85}'
    ||| c == '\u{A0}'
    ||| c == '\u{1680}'
    ||| ('\u{2000}' <= c && c <= '\u{200A}')
    ||| c == '\u{2028}'
    ||| c == '\u{2029}'
    ||| c == '\u{202F}'
    ||| c == '\u{205F}'
    ||| c == '\u{3000}'
}

/// Whether `c` has the Unicode `White_Space` property.
pub fn white_space(c: char) -> (r: bool)
    ensures
        r == is_white_space(c),
{
    ('\t' <= c && c <= '\r') || c == ' ' || c == '\u{85}' || c == '\u{A0}' || c == '\u{1680}'
        || ('\u{2000}' <= c && c <= '\u{200A}') || c == '\u{2028}' || c == '\u{2029}' || c
        == '\u{202F}' || c == '\u{205F}' || c == '\u{3000}'
}

/// `s` without its leading white space.
pub open spec fn trim_start(s: Seq<char>) -> Seq<char>
    decreases s.len(),
{
    if s.len() > 0 && is_white_space(s[0]) {
        trim_start(s.skip(1))
    } else {
        s
    }
}

/// `s` without its trailing white space.
pub open spec fn trim_end(s: Seq<char>) -> Seq<char>
    decreases s.len(),
{
    if s.len() > 0 && is_white_space(s.last()) {
        trim_end(s.drop_last())
    } else {
        s
    }
}

/// `s` without leading and trailing white space.
pub open spec fn trimmed(s: Seq<char>) -> Seq<char> {
    trim_end(trim_start(s))
}

proof fn lemma_trim_start_at(s: Seq<char>, a: int)
    requires
        0 <= a <= s.len(),
        forall|k: int| 0 <= k < a ==> is_white_space(#[trigger] s[k]),
        a == s.len() || !is_white_space(s[a]),
    ensures
        trim_start(s) == s.skip(a),
    decreases a,
{
    if a == 0 {
        assert(s.skip(0) == s);
    } else {
        let t = s.skip(1);
        assert forall|k: int| 0 <= k < a - 1 implies is_white_space(#[trigger] t[k]) by {
            assert(t[k] == s[k + 1]);
        }
        if a - 1 < t.len() {
            assert(t[a - 1] == s[a]);
        }
        lemma_trim_start_at(t, a - 1);
        assert(t.skip(a - 1) == s.skip(a));
    }
}

proof fn lemma_trim_end_at(s: Seq<char>, b: int)
    requires
        0 <= b <= s.len(),
        forall|k: int| b <= k < s.len() ==> is_white_space(#[trigger] s[k]),
        b == 0 || !is_white_space(s[b - 1]),
    ensures
        trim_end(s) == s.take(b),
    decreases s.len() - b,
{
    if b == s.len() {
        assert(s.take(b) == s);
    } else {
        let t = s.drop_last();
        assert forall|k: int| b <= k < t.len() implies is_white_space(#[trigger] t[k]) by {
            assert(t[k] == s[k]);
        }
        if b > 0 {
            assert(t[b - 1] == s[b - 1]);
        }
        lemma_trim_end_at(t, b);
        assert(t.take(b) == s.take(b));
    }
}

/// The characters of `v` without leading and trailing white space.
pub fn trim_chars(v: &Vec<char>) -> (r: Vec<char>)
    ensures
        r@ == trimmed(v@),
{
    let mut a: usize = 0;
    while a < v.len() && white_space(v[a])
        invariant
            a <= v.len(),
            forall|k: int| 0 <= k < a ==> is_white_space(#[trigger] v@[k]),
        decreases v.len() - a,
    {
        a += 1;
    }
    proof {
        lemma_trim_start_at(v@, a as int);
    }
    let ghost t = v@.skip(a as int);
    let mut b: usize = v.len();
    while b > a && white_space(v[b - 1])
        invariant
            a <= b <= v.len(),
            forall|k: int| b <= k < v.len() ==> is_white_space(#[trigger] v@[k]),
        decreases b,
    {
        b -= 1;
    }
    proof {
        assert forall|k: int| b - a <= k < t.len() implies is_white_space(#[trigger] t[k]) by {
            assert(t[k] == v@[k + a]);
        }
        if b > a {
            assert(t[b - a - 1] == v@[b - 1]);
        }
        lemma_trim_end_at(t, b - a);
    }
    let mut r: Vec<char> = Vec::new();
    let mut k: usize = a;
    while k < b
        invariant
            a <= k <= b <= v.len(),
            r@ == v@.subrange(a as int, k as int),
        decreases b - k,
    {
        r.push(v[k]);
        k += 1;
        assert(r@ == v@.subrange(a as int, k as int));
    }
    assert(t.take(b - a) == v@.subrange(a as int, b as int));
    r
}

/// `s` without leading and trailing white space.
pub fn str_trim(s: &str) -> (r: String)
    ensures
        r@ == trimmed(s@),
{
    let v = chars_of(s);
    let t = trim_chars(&v);
    string_of(&t)
}

// ---------------------------------------------------------------------
// Lower case
// ---------------------------------------------------------------------

/// What `str::to_lowercase` returns for a string with these characters
/// (Unicode's lower-case mapping, which takes pages to state).
pub uninterp spec fn lowercase(s: Seq<char>) -> Seq<char>;

/// Trusted: `str::to_lowercase`. The result is named [`lowercase`] of the
/// argument's characters; nothing more of it is claimed.
#[verifier::external_body]
pub(crate) fn to_lowercase(s: &str) -> (r: String)
    ensures
        r@ == lowercase(s@),
{
    s.to_lowercase()
}

} // verus!
