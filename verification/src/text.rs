use vstd::prelude::*;

verus! {

// Character-level utilities shared by the scanner, matcher and parser.
//
// All comparisons in this crate are ASCII-aware: lowercasing folds only the
// letters 'A'..='Z', and whitespace means the ASCII whitespace characters.
// Registry display names, catalog keys and uninstall commands are treated
// character by character, so every function here is specified over `Seq<char>`.

/// ASCII lowercase of a single character; characters outside 'A'..='Z'
/// are returned unchanged.
pub open spec fn lower_char_spec(c: char) -> char {
    if 'A' <= c && c <= 'Z' {
        (c as u8 + 0x20) as char
    } else {
        c
    }
}

/// ASCII lowercase, applied character by character.
pub open spec fn lower_spec(s: Seq<char>) -> Seq<char> {
    s.map_values(|c: char| lower_char_spec(c))
}

/// ASCII whitespace: space, tab, line feed, vertical tab, form feed,
/// carriage return.
pub open spec fn is_space_char(c: char) -> bool {
    c == ' ' || c == '\t' || c == '\n' || c == '\u{b}' || c == '\u{c}' || c == '\r'
}

/// `needle` occurs in `hay` starting at position `i`.
pub open spec fn match_at(hay: Seq<char>, needle: Seq<char>, i: int) -> bool {
    0 <= i && i + needle.len() <= hay.len() && hay.subrange(i, i + needle.len() as int) == needle
}

/// `needle` occurs somewhere in `hay`.
pub open spec fn contains_spec(hay: Seq<char>, needle: Seq<char>) -> bool {
    exists|i: int| match_at(hay, needle, i)
}

pub open spec fn starts_with_spec(s: Seq<char>, p: Seq<char>) -> bool {
    p.len() <= s.len() && s.subrange(0, p.len() as int) == p
}

pub open spec fn ends_with_spec(s: Seq<char>, p: Seq<char>) -> bool {
    p.len() <= s.len() && s.subrange(s.len() - p.len(), s.len() as int) == p
}

/// Position of the first occurrence of `needle` in `hay`, if any.
pub open spec fn find_spec(hay: Seq<char>, needle: Seq<char>) -> Option<int>
    decreases hay.len(),
{
    if needle.len() > hay.len() {
        None
    } else if starts_with_spec(hay, needle) {
        Some(0)
    } else if hay.len() == 0 {
        None
    } else {
        match find_spec(hay.drop_first(), needle) {
            Some(i) => Some(i + 1),
            None => None,
        }
    }
}

/// `find_spec` returns the first match: a witness that matches, with no
/// match at any earlier position, or `None` when nothing matches at all.
pub proof fn lemma_find_spec(hay: Seq<char>, needle: Seq<char>)
    ensures
        match find_spec(hay, needle) {
            Some(i) => match_at(hay, needle, i) && forall|j: int|
                0 <= j < i ==> !match_at(hay, needle, j),
            None => forall|j: int| !match_at(hay, needle, j),
        },
    decreases hay.len(),
{
    if needle.len() > hay.len() {
        assert(forall|j: int| !match_at(hay, needle, j));
    } else if starts_with_spec(hay, needle) {
        assert(hay.subrange(0, needle.len() as int) == needle);
        assert(match_at(hay, needle, 0));
    } else if hay.len() == 0 {
        assert forall|j: int| !match_at(hay, needle, j) by {
            if match_at(hay, needle, j) {
                assert(hay.subrange(j, j + needle.len() as int) =~= needle);
                assert(starts_with_spec(hay, needle));
            }
        }
    } else {
        let tail = hay.drop_first();
        lemma_find_spec(tail, needle);
        assert forall|j: int| 1 <= j implies (match_at(tail, needle, j - 1) == #[trigger] match_at(
            hay,
            needle,
            j,
        )) by {
            if j - 1 + needle.len() <= tail.len() {
                assert(tail.subrange(j - 1, j - 1 + needle.len() as int) =~= hay.subrange(
                    j,
                    j + needle.len() as int,
                ));
            }
        }
        assert(!match_at(hay, needle, 0)) by {
            if match_at(hay, needle, 0) {
                assert(starts_with_spec(hay, needle));
            }
        }
        match find_spec(tail, needle) {
            Some(i) => {
                assert(match_at(tail, needle, i));
                assert(match_at(hay, needle, i + 1));
                assert forall|j: int| 0 <= j < i + 1 implies !match_at(hay, needle, j) by {
                    if 1 <= j {
                        assert(!match_at(tail, needle, j - 1));
                    }
                }
            },
            None => {
                assert forall|j: int| !match_at(hay, needle, j) by {
                    if 1 <= j {
                        assert(!match_at(tail, needle, j - 1));
                    }
                }
            },
        }
    }
}

/// The first match determines `find_spec`.
pub proof fn lemma_find_spec_unique(hay: Seq<char>, needle: Seq<char>, i: int)
    requires
        match_at(hay, needle, i),
        forall|j: int| 0 <= j < i ==> !match_at(hay, needle, j),
    ensures
        find_spec(hay, needle) == Some(i),
{
    lemma_find_spec(hay, needle);
    match find_spec(hay, needle) {
        Some(k) => {
            if k < i {
                assert(!match_at(hay, needle, k));
            } else if k > i {
                assert(!match_at(hay, needle, i));
            }
        },
        None => {
            assert(!match_at(hay, needle, i));
        },
    }
}

/// With no match anywhere, `find_spec` is `None`.
pub proof fn lemma_find_spec_none(hay: Seq<char>, needle: Seq<char>)
    requires
        forall|j: int| !match_at(hay, needle, j),
    ensures
        find_spec(hay, needle) is None,
{
    lemma_find_spec(hay, needle);
    match find_spec(hay, needle) {
        Some(k) => {
            assert(!match_at(hay, needle, k));
        },
        None => {},
    }
}

/// Collects the characters of a string slice into a vector.
pub fn chars_of(s: &str) -> (v: Vec<char>)
    ensures
        v@ == s@,
{
    let n = s.unicode_len();
    let mut v: Vec<char> = Vec::new();
    let mut i: usize = 0;
    while i < n
        invariant
            n == s@.len(),
            i <= n,
            v@ == s@.subrange(0, i as int),
        decreases n - i,
    {
        v.push(s.get_char(i));
        i += 1;
    }
    assert(v@ =~= s@);
    v
}

fn lower_char(c: char) -> (r: char)
    ensures
        r == lower_char_spec(c),
{
    if 'A' <= c && c <= 'Z' {
        ((c as u8) + 0x20) as char
    } else {
        c
    }
}

pub fn lower_chars(v: &Vec<char>) -> (r: Vec<char>)
    ensures
        r@ == lower_spec(v@),
{
    let mut r: Vec<char> = Vec::new();
    let mut i: usize = 0;
    while i < v.len()
        invariant
            i <= v@.len(),
            r@ == lower_spec(v@.subrange(0, i as int)),
        decreases v@.len() - i,
    {
        r.push(lower_char(v[i]));
        assert(lower_spec(v@.subrange(0, i + 1 as int)) =~= lower_spec(
            v@.subrange(0, i as int),
        ).push(lower_char_spec(v@[i as int])));
        i += 1;
    }
    assert(v@.subrange(0, v@.len() as int) =~= v@);
    r
}

fn is_space(c: char) -> (r: bool)
    ensures
        r == is_space_char(c),
{
    c == ' ' || c == '\t' || c == '\n' || c == '\u{b}' || c == '\u{c}' || c == '\r'
}

/// `needle` occurs in `hay` starting at position `i`.
fn matches_at(hay: &Vec<char>, needle: &Vec<char>, i: usize) -> (r: bool)
    requires
        i + needle@.len() <= hay@.len(),
    ensures
        r == match_at(hay@, needle@, i as int),
{
    let hl = hay.len();
    let nl = needle.len();
    let mut k: usize = 0;
    while k < nl
        invariant
            hl == hay@.len(),
            nl == needle@.len(),
            i + nl <= hl,
            k <= nl,
            forall|m: int| 0 <= m < k ==> hay@[i + m] == needle@[m],
        decreases nl - k,
    {
        if hay[i + k] != needle[k] {
            assert(hay@.subrange(i as int, i + needle@.len() as int)[k as int] != needle@[k as int]);
            return false;
        }
        k += 1;
    }
    assert(hay@.subrange(i as int, i + needle@.len() as int) =~= needle@);
    true
}

/// Position of the first occurrence of `needle` in `hay`, if any.
pub fn find_sub(hay: &Vec<char>, needle: &Vec<char>) -> (r: Option<usize>)
    ensures
        match r {
            Some(i) => Some(i as int) == find_spec(hay@, needle@),
            None => find_spec(hay@, needle@) is None,
        },
{
    proof {
        lemma_find_spec(hay@, needle@);
    }
    if needle.len() > hay.len() {
        return None;
    }
    let limit = hay.len() - needle.len();
    let mut i: usize = 0;
    while i < limit
        invariant
            needle@.len() <= hay@.len(),
            limit == hay@.len() - needle@.len(),
            i <= limit,
            forall|j: int| 0 <= j < i ==> !match_at(hay@, needle@, j),
        decreases limit - i,
    {
        if matches_at(hay, needle, i) {
            proof {
                lemma_find_spec_unique(hay@, needle@, i as int);
            }
            return Some(i);
        }
        i += 1;
    }
    if matches_at(hay, needle, limit) {
        proof {
            lemma_find_spec_unique(hay@, needle@, limit as int);
        }
        Some(limit)
    } else {
        proof {
            lemma_find_spec_none(hay@, needle@);
        }
        None
    }
}

/// `needle` occurs somewhere in `hay`.
pub fn contains_sub(hay: &Vec<char>, needle: &Vec<char>) -> (r: bool)
    ensures
        r == contains_spec(hay@, needle@),
{
    proof {
        lemma_find_spec(hay@, needle@);
    }
    match find_sub(hay, needle) {
        Some(_) => true,
        None => false,
    }
}

pub fn starts_with_chars(s: &Vec<char>, p: &Vec<char>) -> (r: bool)
    ensures
        r == starts_with_spec(s@, p@),
{
    if p.len() > s.len() {
        return false;
    }
    matches_at(s, p, 0)
}

pub fn ends_with_chars(s: &Vec<char>, p: &Vec<char>) -> (r: bool)
    ensures
        r == ends_with_spec(s@, p@),
{
    if p.len() > s.len() {
        return false;
    }
    let start = s.len() - p.len();
    let r = matches_at(s, p, start);
    assert(match_at(s@, p@, start as int) == ends_with_spec(s@, p@));
    r
}

/// Copy of `v[a..b]`.
pub fn subvec(v: &Vec<char>, a: usize, b: usize) -> (r: Vec<char>)
    requires
        a <= b <= v@.len(),
    ensures
        r@ == v@.subrange(a as int, b as int),
{
    let mut r: Vec<char> = Vec::new();
    let mut i = a;
    while i < b
        invariant
            a <= i <= b <= v@.len(),
            r@ == v@.subrange(a as int, i as int),
        decreases b - i,
    {
        r.push(v[i]);
        assert(v@.subrange(a as int, i + 1 as int) =~= v@.subrange(a as int, i as int).push(
            v@[i as int],
        ));
        i += 1;
    }
    r
}

/// The input without leading ASCII whitespace.
pub open spec fn trim_start_spec(s: Seq<char>) -> Seq<char>
    decreases s.len(),
{
    if s.len() > 0 && is_space_char(s[0]) {
        trim_start_spec(s.drop_first())
    } else {
        s
    }
}

/// The input without trailing ASCII whitespace.
pub open spec fn trim_end_spec(s: Seq<char>) -> Seq<char>
    decreases s.len(),
{
    if s.len() > 0 && is_space_char(s.last()) {
        trim_end_spec(s.drop_last())
    } else {
        s
    }
}

/// The input without leading and trailing ASCII whitespace.
pub open spec fn trim_spec(s: Seq<char>) -> Seq<char> {
    trim_end_spec(trim_start_spec(s))
}

/// Bounds `(a, b)` such that `v[a..b]` is the trimmed input.
pub fn trim_bounds(v: &Vec<char>) -> (r: (usize, usize))
    ensures
        r.0 <= r.1 <= v@.len(),
        v@.subrange(r.0 as int, r.1 as int) == trim_spec(v@),
{
    let n = v.len();
    let mut a: usize = 0;
    proof {
        assert(v@.skip(0) =~= v@);
    }
    while a < n && is_space(v[a])
        invariant
            a <= n == v@.len(),
            trim_start_spec(v@) == trim_start_spec(v@.skip(a as int)),
        decreases n - a,
    {
        assert(v@.skip(a as int).drop_first() =~= v@.skip(a + 1 as int));
        a += 1;
    }
    assert(trim_start_spec(v@) == v@.skip(a as int)) by {
        if a < n {
            assert(!is_space_char(v@.skip(a as int)[0]));
        }
    }
    let mut b: usize = n;
    while b > a && is_space(v[b - 1])
        invariant
            a <= b <= n == v@.len(),
            trim_spec(v@) == trim_end_spec(v@.subrange(a as int, b as int)),
        decreases b,
    {
        assert(v@.subrange(a as int, b as int).drop_last() =~= v@.subrange(a as int, b - 1));
        assert(v@.subrange(a as int, b as int).last() == v@[b - 1]);
        b -= 1;
    }
    assert(v@.skip(a as int) =~= v@.subrange(a as int, n as int));
    assert(trim_end_spec(v@.subrange(a as int, b as int)) == v@.subrange(a as int, b as int)) by {
        if b > a {
            assert(v@.subrange(a as int, b as int).last() == v@[b - 1]);
        }
    }
    (a, b)
}

/// The ASCII-whitespace-separated words of the input, in order.
pub open spec fn split_ws_spec(s: Seq<char>) -> Seq<Seq<char>>
    decreases s.len(),
{
    if s.len() == 0 {
        Seq::empty()
    } else if is_space_char(s[0]) {
        split_ws_spec(s.drop_first())
    } else {
        let rest = split_ws_spec(s.drop_first());
        if s.len() >= 2 && !is_space_char(s[1]) {
            // the next character continues this word
            seq![seq![s[0]] + rest[0]] + rest.drop_first()
        } else {
            seq![seq![s[0]]] + rest
        }
    }
}

/// Skipping a whitespace character does not change the words.
proof fn lemma_split_skip_space(s: Seq<char>, i: int)
    requires
        0 <= i < s.len(),
        is_space_char(s[i]),
    ensures
        split_ws_spec(s.skip(i)) == split_ws_spec(s.skip(i + 1)),
{
    assert(s.skip(i)[0] == s[i]);
    assert(s.skip(i).drop_first() =~= s.skip(i + 1));
}

/// A maximal run of non-whitespace characters is one word of the result.
proof fn lemma_split_token(s: Seq<char>, i: int, j: int)
    requires
        0 <= i < j <= s.len(),
        forall|m: int| i <= m < j ==> !is_space_char(s[m]),
        j < s.len() ==> is_space_char(s[j]),
    ensures
        split_ws_spec(s.skip(i)) == seq![s.subrange(i, j)] + split_ws_spec(s.skip(j)),
    decreases j - i,
{
    let t = s.skip(i);
    assert(t[0] == s[i]);
    assert(!is_space_char(t[0]));
    assert(t.drop_first() =~= s.skip(i + 1));
    if i + 1 == j {
        if j < s.len() {
            assert(t.len() >= 2 && t[1] == s[j]);
            assert(split_ws_spec(t) == seq![seq![s[i]]] + split_ws_spec(s.skip(j)));
        } else {
            assert(t.len() == 1);
            assert(split_ws_spec(t) == seq![seq![s[i]]] + split_ws_spec(s.skip(j)));
        }
        assert(seq![s[i]] =~= s.subrange(i, j));
        assert(seq![s.subrange(i, j)] =~= seq![seq![s[i]]]);
    } else {
        lemma_split_token(s, i + 1, j);
        let rest = split_ws_spec(s.skip(i + 1));
        assert(rest == seq![s.subrange(i + 1, j)] + split_ws_spec(s.skip(j)));
        assert(t.len() >= 2 && t[1] == s[i + 1]);
        assert(!is_space_char(t[1]));
        assert(split_ws_spec(t) == seq![seq![s[i]] + rest[0]] + rest.drop_first());
        assert(rest[0] == s.subrange(i + 1, j));
        assert(rest.drop_first() =~= split_ws_spec(s.skip(j)));
        assert(seq![s[i]] + s.subrange(i + 1, j) =~= s.subrange(i, j));
        assert(seq![seq![s[i]] + rest[0]] =~= seq![s.subrange(i, j)]);
    }
}

/// The words of the input, each as a character vector.
pub fn split_ws_chars(v: &Vec<char>) -> (r: Vec<Vec<char>>)
    ensures
        r.deep_view() == split_ws_spec(v@),
{
    let n = v.len();
    let mut out: Vec<Vec<char>> = Vec::new();
    let mut i: usize = 0;
    proof {
        assert(v@.skip(0) =~= v@);
    }
    while i < n
        invariant
            i <= n == v@.len(),
            split_ws_spec(v@) == out.deep_view() + split_ws_spec(v@.skip(i as int)),
        decreases n - i,
    {
        if is_space(v[i]) {
            proof {
                lemma_split_skip_space(v@, i as int);
            }
            i += 1;
        } else {
            let start = i;
            while i < n && !is_space(v[i])
                invariant
                    start <= i <= n == v@.len(),
                    forall|m: int| start <= m < i ==> !is_space_char(v@[m]),
                decreases n - i,
            {
                i += 1;
            }
            let token = subvec(v, start, i);
            proof {
                lemma_split_token(v@, start as int, i as int);
            }
            let ghost old_deep = out.deep_view();
            out.push(token);
            proof {
                assert(out.deep_view() =~~= old_deep.push(v@.subrange(start as int, i as int)));
                assert(out.deep_view() =~~= old_deep + seq![v@.subrange(start as int, i as int)]);
            }
        }
    }
    assert(split_ws_spec(v@.skip(n as int)) =~= Seq::<Seq<char>>::empty());
    assert(out.deep_view() =~~= out.deep_view() + Seq::<Seq<char>>::empty());
    out
}

/// The words of the input, each as an owned string.
pub fn split_ws_str(s: &str) -> (r: Vec<String>)
    ensures
        r.deep_view() == split_ws_spec(s@),
{
    let v = chars_of(s);
    let n = v.len();
    let mut out: Vec<String> = Vec::new();
    let mut i: usize = 0;
    proof {
        assert(v@.skip(0) =~= v@);
    }
    while i < n
        invariant
            i <= n == v@.len(),
            v@ == s@,
            split_ws_spec(v@) == out.deep_view() + split_ws_spec(v@.skip(i as int)),
        decreases n - i,
    {
        if is_space(v[i]) {
            proof {
                lemma_split_skip_space(v@, i as int);
            }
            i += 1;
        } else {
            let start = i;
            while i < n && !is_space(v[i])
                invariant
                    start <= i <= n == v@.len(),
                    forall|m: int| start <= m < i ==> !is_space_char(v@[m]),
                decreases n - i,
            {
                i += 1;
            }
            let token = String::from_str(s.substring_char(start, i));
            proof {
                lemma_split_token(v@, start as int, i as int);
            }
            let ghost old_deep = out.deep_view();
            out.push(token);
            proof {
                assert(out.deep_view() =~~= old_deep.push(v@.subrange(start as int, i as int)));
                assert(out.deep_view() =~~= old_deep + seq![v@.subrange(start as int, i as int)]);
            }
        }
    }
    assert(split_ws_spec(v@.skip(n as int)) =~= Seq::<Seq<char>>::empty());
    assert(out.deep_view() =~~= out.deep_view() + Seq::<Seq<char>>::empty());
    out
}

/// Lexicographic order on character sequences, by character code.
pub open spec fn lex_le_spec(a: Seq<char>, b: Seq<char>) -> bool
    decreases a.len(),
{
    if a.len() == 0 {
        true
    } else if b.len() == 0 {
        false
    } else if a[0] != b[0] {
        a[0] < b[0]
    } else {
        lex_le_spec(a.drop_first(), b.drop_first())
    }
}

pub proof fn lemma_lex_le_total(a: Seq<char>, b: Seq<char>)
    ensures
        lex_le_spec(a, b) || lex_le_spec(b, a),
    decreases a.len(),
{
    if a.len() == 0 || b.len() == 0 {
    } else if a[0] != b[0] {
    } else {
        lemma_lex_le_total(a.drop_first(), b.drop_first());
    }
}

pub proof fn lemma_lex_le_trans(a: Seq<char>, b: Seq<char>, c: Seq<char>)
    requires
        lex_le_spec(a, b),
        lex_le_spec(b, c),
    ensures
        lex_le_spec(a, c),
    decreases a.len(),
{
    if a.len() == 0 {
    } else if b.len() == 0 {
    } else if c.len() == 0 {
    } else {
        if a[0] == b[0] && b[0] == c[0] {
            lemma_lex_le_trans(a.drop_first(), b.drop_first(), c.drop_first());
        }
    }
}

/// Lexicographic comparison by character code: `a` at or before `b`.
pub fn lex_le_chars(a: &Vec<char>, b: &Vec<char>) -> (r: bool)
    ensures
        r == lex_le_spec(a@, b@),
{
    let mut i: usize = 0;
    proof {
        assert(a@.skip(0) =~= a@);
        assert(b@.skip(0) =~= b@);
    }
    while i < a.len() && i < b.len() && a[i] == b[i]
        invariant
            i <= a@.len(),
            i <= b@.len(),
            lex_le_spec(a@, b@) == lex_le_spec(a@.skip(i as int), b@.skip(i as int)),
        decreases a@.len() - i,
    {
        proof {
            assert(a@.skip(i as int).drop_first() =~= a@.skip(i + 1 as int));
            assert(b@.skip(i as int).drop_first() =~= b@.skip(i + 1 as int));
        }
        i += 1;
    }
    if i == a.len() {
        true
    } else if i == b.len() {
        false
    } else {
        a[i] < b[i]
    }
}

/// The decimal digit `d` as a character.
pub open spec fn digit_char_spec(d: int) -> char {
    ((0x30 + d) as u8) as char
}

/// The decimal rendering of a natural number, without sign or padding.
pub open spec fn dec_str_spec(n: int) -> Seq<char>
    decreases n,
{
    if n < 10 {
        seq![digit_char_spec(n)]
    } else {
        dec_str_spec(n / 10).push(digit_char_spec(n % 10))
    }
}

fn digit_str(d: u32) -> (r: &'static str)
    requires
        d < 10,
    ensures
        r@ == seq![digit_char_spec(d as int)],
{
    let r = match d {
        0 => "0",
        1 => "1",
        2 => "2",
        3 => "3",
        4 => "4",
        5 => "5",
        6 => "6",
        7 => "7",
        8 => "8",
        _ => "9",
    };
    proof {
        reveal_strlit("0");
        reveal_strlit("1");
        reveal_strlit("2");
        reveal_strlit("3");
        reveal_strlit("4");
        reveal_strlit("5");
        reveal_strlit("6");
        reveal_strlit("7");
        reveal_strlit("8");
        reveal_strlit("9");
        assert(r@ =~= seq![digit_char_spec(d as int)]);
    }
    r
}

/// Appends the decimal rendering of `n`.
pub fn push_u32_dec(s: &mut String, n: u32)
    ensures
        final(s)@ == old(s)@ + dec_str_spec(n as int),
    decreases n,
{
    if n >= 10 {
        push_u32_dec(s, n / 10);
        s.append(digit_str(n % 10));
        assert(final(s)@ =~= old(s)@ + dec_str_spec(n as int));
    } else {
        s.append(digit_str(n));
        assert(final(s)@ =~= old(s)@ + dec_str_spec(n as int));
    }
}

/// The words joined with single spaces between them.
pub open spec fn join_ws_spec(parts: Seq<Seq<char>>) -> Seq<char>
    decreases parts.len(),
{
    if parts.len() == 0 {
        Seq::empty()
    } else if parts.len() == 1 {
        parts[0]
    } else {
        parts[0] + seq![' '] + join_ws_spec(parts.drop_first())
    }
}

/// Joins owned strings with single spaces, as joining with `" "` does.
pub fn join_ws(parts: &Vec<String>) -> (r: String)
    ensures
        r@ == join_ws_spec(parts.deep_view()),
{
    let mut r = String::new();
    if parts.len() == 0 {
        return r;
    }
    let mut i: usize = 0;
    proof {
        assert(parts.deep_view().skip(0) =~= parts.deep_view());
    }
    let n = parts.len();
    while i + 1 < n
        invariant
            n == parts@.len(),
            i < parts@.len(),
            parts@.len() == parts.deep_view().len(),
            join_ws_spec(parts.deep_view()) == r@ + join_ws_spec(
                parts.deep_view().skip(i as int),
            ),
        decreases parts@.len() - i,
    {
        r.append(parts[i].as_str());
        r.append(" ");
        proof {
            reveal_strlit(" ");
            let d = parts.deep_view();
            assert(d.skip(i as int).len() >= 2);
            assert(d.skip(i as int)[0] == d[i as int]);
            assert(d.skip(i as int).drop_first() =~= d.skip(i + 1 as int));
            assert(" "@ =~= seq![' ']);
            assert(d[i as int] == parts@[i as int]@);
        }
        i += 1;
    }
    r.append(parts[i].as_str());
    proof {
        let d = parts.deep_view();
        assert(d.skip(i as int).len() == 1);
        assert(d.skip(i as int)[0] == d[i as int]);
        assert(d[i as int] == parts@[i as int]@);
        assert(d.skip(i as int) =~= seq![d[i as int]]);
    }
    r
}

/// Character-for-character equality.
pub fn eq_chars(a: &Vec<char>, b: &Vec<char>) -> (r: bool)
    ensures
        r == (a@ == b@),
{
    if a.len() != b.len() {
        return false;
    }
    let mut i: usize = 0;
    while i < a.len()
        invariant
            a@.len() == b@.len(),
            i <= a@.len(),
            forall|j: int| 0 <= j < i ==> a@[j] == b@[j],
        decreases a@.len() - i,
    {
        if a[i] != b[i] {
            return false;
        }
        i += 1;
    }
    assert(a@ =~= b@);
    true
}

} // verus!