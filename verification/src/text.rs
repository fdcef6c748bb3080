//! Verified helpers for character-level work on strings: lexicographic
//! order, prefix and suffix tests, searching, splitting into lines, and
//! trimming, each pinned to a spec function over `Seq<char>` views.

use vstd::prelude::*;

verus! {

/// Strict lexicographic (code-point) order on character sequences.
pub open spec fn lex_lt(a: Seq<char>, b: Seq<char>) -> bool
    decreases a.len(),
{
    if b.len() == 0 {
        false
    } else if a.len() == 0 {
        true
    } else if a[0] < b[0] {
        true
    } else if b[0] < a[0] {
        false
    } else {
        lex_lt(a.skip(1), b.skip(1))
    }
}

/// Reflexive closure of [`lex_lt`].
pub open spec fn lex_le(a: Seq<char>, b: Seq<char>) -> bool {
    lex_lt(a, b) || a == b
}

/// Equal prefixes do not affect the order of what follows them.
proof fn lemma_lex_lt_skip(a: Seq<char>, b: Seq<char>, i: int)
    requires
        0 <= i <= a.len(),
        i <= b.len(),
        forall|j: int| 0 <= j < i ==> a[j] == b[j],
    ensures
        lex_lt(a, b) == lex_lt(a.skip(i), b.skip(i)),
    decreases i,
{
    if i > 0 {
        assert(a.len() > 0 && b.len() > 0);
        assert(a[0] == b[0]);
        lemma_lex_lt_skip(a.skip(1), b.skip(1), i - 1);
        assert(a.skip(1).skip(i - 1) =~= a.skip(i));
        assert(b.skip(1).skip(i - 1) =~= b.skip(i));
    } else {
        assert(a.skip(0) =~= a);
        assert(b.skip(0) =~= b);
    }
}

/// `lex_lt` is trichotomous: distinct sequences compare one way or the other.
pub proof fn lemma_lex_lt_total(a: Seq<char>, b: Seq<char>)
    ensures
        lex_lt(a, b) || lex_lt(b, a) || a == b,
    decreases a.len(),
{
    if a.len() > 0 && b.len() > 0 && a[0] == b[0] {
        lemma_lex_lt_total(a.skip(1), b.skip(1));
        if a.skip(1) == b.skip(1) {
            assert forall|i: int| 0 <= i < a.len() implies a[i] == b[i] by {
                if i > 0 {
                    assert(a[i] == a.skip(1)[i - 1]);
                    assert(b[i] == b.skip(1)[i - 1]);
                }
            }
            assert(a =~= b);
        }
    }
}

/// `lex_lt` is irreflexive and asymmetric.
pub proof fn lemma_lex_lt_asymmetric(a: Seq<char>, b: Seq<char>)
    ensures
        !(lex_lt(a, b) && lex_lt(b, a)),
        !lex_lt(a, a),
    decreases a.len(),
{
    if a.len() > 0 && b.len() > 0 && a[0] == b[0] {
        lemma_lex_lt_asymmetric(a.skip(1), b.skip(1));
    }
    if a.len() > 0 {
        lemma_lex_lt_asymmetric(a.skip(1), a.skip(1));
    }
}

/// `lex_lt` is transitive.
pub proof fn lemma_lex_lt_transitive(a: Seq<char>, b: Seq<char>, c: Seq<char>)
    requires
        lex_lt(a, b),
        lex_lt(b, c),
    ensures
        lex_lt(a, c),
    decreases a.len(),
{
    if a.len() > 0 && b.len() > 0 && c.len() > 0 {
        if a[0] == b[0] && b[0] == c[0] {
            lemma_lex_lt_transitive(a.skip(1), b.skip(1), c.skip(1));
        }
    }
}

/// Compares two strings in lexicographic code-point order.
pub fn str_lt(a: &str, b: &str) -> (r: bool)
    ensures
        r == lex_lt(a@, b@),
{
    let alen = a.unicode_len();
    let blen = b.unicode_len();
    let mut i: usize = 0;
    loop
        invariant
            i <= alen,
            i <= blen,
            alen == a@.len(),
            blen == b@.len(),
            forall|j: int| 0 <= j < i ==> a@[j] == b@[j],
        decreases alen - i,
    {
        if i == alen || i == blen {
            proof {
                lemma_lex_lt_skip(a@, b@, i as int);
            }
            return alen < blen;
        }
        let ca = a.get_char(i);
        let cb = b.get_char(i);
        if ca != cb {
            proof {
                lemma_lex_lt_skip(a@, b@, i as int);
            }
            return ca < cb;
        }
        i = i + 1;
    }
}

/// Tests whether the views of two strings are equal.
pub fn str_eq(a: &str, b: &str) -> (r: bool)
    ensures
        r == (a@ == b@),
{
    let alen = a.unicode_len();
    let blen = b.unicode_len();
    if alen != blen {
        return false;
    }
    let mut i: usize = 0;
    while i < alen
        invariant
            i <= alen,
            alen == a@.len(),
            alen == b@.len(),
            forall|j: int| 0 <= j < i ==> a@[j] == b@[j],
        decreases alen - i,
    {
        if a.get_char(i) != b.get_char(i) {
            return false;
        }
        i = i + 1;
    }
    assert(a@ =~= b@);
    true
}

/// Tests whether `p` is a prefix of `s`.
pub fn starts_with(s: &str, p: &str) -> (r: bool)
    ensures
        r == p@.is_prefix_of(s@),
{
    let slen = s.unicode_len();
    let plen = p.unicode_len();
    if plen > slen {
        return false;
    }
    let mut i: usize = 0;
    while i < plen
        invariant
            i <= plen <= slen,
            slen == s@.len(),
            plen == p@.len(),
            forall|j: int| 0 <= j < i ==> s@[j] == p@[j],
        decreases plen - i,
    {
        if s.get_char(i) != p.get_char(i) {
            assert(!p@.is_prefix_of(s@)) by {
                assert(s@.subrange(0, p@.len() as int)[i as int] != p@[i as int]);
            }
            return false;
        }
        i = i + 1;
    }
    assert(s@.subrange(0, p@.len() as int) =~= p@);
    true
}

/// Tests whether `p` is a suffix of `s`.
pub fn ends_with(s: &str, p: &str) -> (r: bool)
    ensures
        r == p@.is_suffix_of(s@),
{
    let slen = s.unicode_len();
    let plen = p.unicode_len();
    if plen > slen {
        return false;
    }
    let off = slen - plen;
    let mut i: usize = 0;
    while i < plen
        invariant
            i <= plen <= slen,
            off == slen - plen,
            slen == s@.len(),
            plen == p@.len(),
            forall|j: int| 0 <= j < i ==> s@[off + j] == p@[j],
        decreases plen - i,
    {
        if s.get_char(off + i) != p.get_char(i) {
            assert(!p@.is_suffix_of(s@)) by {
                let tail = s@.subrange(s@.len() - p@.len(), s@.len() as int);
                assert(tail[i as int] != p@[i as int]);
            }
            return false;
        }
        i = i + 1;
    }
    assert(s@.subrange(s@.len() - p@.len(), s@.len() as int) =~= p@);
    true
}

/// Index of the first occurrence of `c` in `s` at or after `from`, if any.
pub open spec fn first_index_from(s: Seq<char>, c: char, from: int) -> Option<int>
    decreases s.len() - from,
{
    if from < 0 || from >= s.len() {
        None
    } else if s[from] == c {
        Some(from)
    } else {
        first_index_from(s, c, from + 1)
    }
}

/// Finds the first occurrence of `c` in `s` at or after `from`.
pub fn find_char_from(s: &str, c: char, from: usize) -> (r: Option<usize>)
    ensures
        match r {
            Some(i) => first_index_from(s@, c, from as int) == Some(i as int),
            None => first_index_from(s@, c, from as int) is None,
        },
{
    let slen = s.unicode_len();
    let mut i: usize = from;
    loop
        invariant
            from <= i,
            slen == s@.len(),
            first_index_from(s@, c, from as int) == first_index_from(s@, c, i as int),
        decreases slen - i,
    {
        if i >= slen {
            return None;
        }
        if s.get_char(i) == c {
            return Some(i);
        }
        i = i + 1;
    }
}

/// Splits `s` at each occurrence of `sep`; the result always has one more
/// element than there are separators.
pub open spec fn split_on(s: Seq<char>, sep: char) -> Seq<Seq<char>>
    decreases s.len(),
{
    if s.len() == 0 {
        seq![Seq::empty()]
    } else if s[0] == sep {
        seq![Seq::<char>::empty()] + split_on(s.skip(1), sep)
    } else {
        let rest = split_on(s.skip(1), sep);
        seq![seq![s[0]] + rest[0]] + rest.skip(1)
    }
}

/// A split never yields an empty list of pieces.
pub proof fn lemma_split_on_len(s: Seq<char>, sep: char)
    ensures
        split_on(s, sep).len() >= 1,
    decreases s.len(),
{
    if s.len() > 0 {
        lemma_split_on_len(s.skip(1), sep);
    }
}

/// Splitting a sequence whose first separator stands at `i` yields the part
/// before it, then the split of the part after it.
pub proof fn lemma_split_on_at(s: Seq<char>, sep: char, i: int)
    requires
        first_index_from(s, sep, 0) == Some(i),
    ensures
        0 <= i < s.len(),
        s[i] == sep,
        split_on(s, sep) =~= seq![s.subrange(0, i)] + split_on(
            s.subrange(i + 1, s.len() as int),
            sep,
        ),
    decreases s.len(),
{
    lemma_first_index_bounds(s, sep, 0, i);
    if i == 0 {
        assert(s.skip(1) =~= s.subrange(1, s.len() as int));
        assert(s.subrange(0, 0) =~= Seq::<char>::empty());
    } else {
        assert(s[0] != sep);
        let t = s.skip(1);
        assert(first_index_from(s, sep, 0) == first_index_from(s, sep, 1));
        lemma_first_index_shift(s, sep, i);
        lemma_split_on_at(t, sep, i - 1);
        lemma_split_on_len(t.subrange(i, t.len() as int), sep);
        assert(t.subrange(0, i - 1) =~= s.subrange(1, i));
        assert(t.subrange(i, t.len() as int) =~= s.subrange(i + 1, s.len() as int));
        assert(seq![s[0]] + s.subrange(1, i) =~= s.subrange(0, i));
        let rest = split_on(t, sep);
        assert(rest[0] == s.subrange(1, i));
        assert(rest.skip(1) =~= split_on(s.subrange(i + 1, s.len() as int), sep));
    }
}

/// Splitting a sequence without separators yields the sequence alone.
pub proof fn lemma_split_on_none(s: Seq<char>, sep: char)
    requires
        first_index_from(s, sep, 0) is None,
    ensures
        split_on(s, sep) =~= seq![s],
    decreases s.len(),
{
    if s.len() > 0 {
        assert(s[0] != sep);
        lemma_first_index_none_shift(s, sep, 1);
        lemma_split_on_none(s.skip(1), sep);
        let rest = split_on(s.skip(1), sep);
        assert(rest == seq![s.skip(1)]);
        assert(rest[0] == s.skip(1));
        assert(rest.skip(1) =~= Seq::<Seq<char>>::empty());
        assert(seq![s[0]] + s.skip(1) =~= s);
        assert(split_on(s, sep) == seq![seq![s[0]] + rest[0]] + rest.skip(1));
        assert(split_on(s, sep) =~= seq![s]);
    } else {
        assert(s =~= Seq::<char>::empty());
    }
}

proof fn lemma_first_index_none_shift(s: Seq<char>, c: char, from: int)
    requires
        1 <= from <= s.len(),
        first_index_from(s, c, from) is None,
    ensures
        first_index_from(s.skip(1), c, from - 1) is None,
    decreases s.len() - from,
{
    if from < s.len() && s[from] != c {
        lemma_first_index_none_shift(s, c, from + 1);
    }
}

/// The first hit of a search is within bounds and is indeed a hit.
pub proof fn lemma_first_index_bounds(s: Seq<char>, c: char, from: int, i: int)
    requires
        first_index_from(s, c, from) == Some(i),
    ensures
        from <= i < s.len(),
        s[i] == c,
    decreases s.len() - from,
{
    if from < s.len() && s[from] != c {
        lemma_first_index_bounds(s, c, from + 1, i);
    }
}

/// Searching from the head relates to searching the tail.
proof fn lemma_first_index_shift(s: Seq<char>, c: char, i: int)
    requires
        s.len() > 0,
        s[0] != c,
        first_index_from(s, c, 0) == Some(i),
    ensures
        first_index_from(s.skip(1), c, 0) == Some(i - 1),
    decreases s.len(),
{
    lemma_first_index_shift_gen(s, c, 1, i);
}

proof fn lemma_first_index_shift_gen(s: Seq<char>, c: char, from: int, i: int)
    requires
        1 <= from <= s.len(),
        first_index_from(s, c, from) == Some(i),
    ensures
        first_index_from(s.skip(1), c, from - 1) == Some(i - 1),
    decreases s.len() - from,
{
    if from < s.len() && s[from] != c {
        lemma_first_index_shift_gen(s, c, from + 1, i);
    }
}

/// Searching from `start` is searching the subrange that begins there.
proof fn lemma_first_index_subrange(s: Seq<char>, c: char, start: int)
    requires
        0 <= start <= s.len(),
    ensures
        match first_index_from(s, c, start) {
            Some(i) => first_index_from(s.subrange(start, s.len() as int), c, 0) == Some(
                i - start,
            ),
            None => first_index_from(s.subrange(start, s.len() as int), c, 0) is None,
        },
    decreases start,
{
    if start == 0 {
        assert(s.subrange(0, s.len() as int) =~= s);
    } else {
        let t = s.skip(1);
        match first_index_from(s, c, start) {
            Some(i) => {
                lemma_first_index_shift_gen(s, c, start, i);
                lemma_first_index_subrange(t, c, start - 1);
                assert(t.subrange(start - 1, t.len() as int) =~= s.subrange(
                    start,
                    s.len() as int,
                ));
            },
            None => {
                lemma_first_index_none_shift(s, c, start);
                lemma_first_index_subrange(t, c, start - 1);
                assert(t.subrange(start - 1, t.len() as int) =~= s.subrange(
                    start,
                    s.len() as int,
                ));
            },
        }
    }
}

/// Splits a string at each occurrence of `sep`, pinned to [`split_on`].
pub fn split_str(s: &str, sep: char) -> (r: Vec<String>)
    ensures
        r.deep_view() == split_on(s@, sep),
{
    let slen = s.unicode_len();
    let mut out: Vec<String> = Vec::new();
    let mut start: usize = 0;
    proof {
        assert(s@.subrange(0, slen as int) =~= s@);
        assert(out.deep_view() + split_on(s@, sep) =~= split_on(s@, sep));
    }
    loop
        invariant
            start <= slen,
            slen == s@.len(),
            split_on(s@, sep) =~= out.deep_view() + split_on(
                s@.subrange(start as int, slen as int),
                sep,
            ),
        decreases slen - start,
    {
        let ghost rem = s@.subrange(start as int, slen as int);
        match find_char_from(s, sep, start) {
            Some(i) => {
                proof {
                    lemma_first_index_bounds(s@, sep, start as int, i as int);
                }
                let piece = s.substring_char(start, i).to_owned();
                proof {
                    lemma_first_index_subrange(s@, sep, start as int);
                    lemma_split_on_at(rem, sep, i - start);
                    assert(rem.subrange(0, i - start) =~= s@.subrange(start as int, i as int));
                    assert(rem.subrange(i - start + 1, rem.len() as int) =~= s@.subrange(
                        i + 1,
                        slen as int,
                    ));
                }
                out.push(piece);
                proof {
                    assert(out.deep_view() + split_on(
                        s@.subrange(i + 1, slen as int),
                        sep,
                    ) =~= split_on(s@, sep));
                }
                start = i + 1;
            },
            None => {
                let piece = s.substring_char(start, slen).to_owned();
                proof {
                    lemma_first_index_subrange(s@, sep, start as int);
                    lemma_split_on_none(rem, sep);
                }
                out.push(piece);
                proof {
                    assert(out.deep_view() =~= split_on(s@, sep));
                }
                return out;
            },
        }
    }
}

/// A line-terminator-aware view of a text: pieces between `'\n'` characters,
/// each with a trailing `'\r'` removed, and with a final empty piece (after a
/// terminating newline, or of an empty text) dropped.
pub open spec fn strip_cr(l: Seq<char>) -> Seq<char> {
    if l.len() > 0 && l[l.len() - 1] == '\r' {
        l.drop_last()
    } else {
        l
    }
}

/// The lines of a text, as [`strip_cr`] explains.
pub open spec fn lines_of(s: Seq<char>) -> Seq<Seq<char>> {
    let parts = split_on(s, '\n');
    let kept = if parts.len() > 0 && parts.last().len() == 0 {
        parts.drop_last()
    } else {
        parts
    };
    kept.map_values(|l: Seq<char>| strip_cr(l))
}

/// Splits a string into lines, pinned to [`lines_of`].
pub fn split_lines(s: &str) -> (r: Vec<String>)
    ensures
        r.deep_view() == lines_of(s@),
{
    let mut parts = split_str(s, '\n');
    proof {
        lemma_split_on_len(s@, '\n');
    }
    if parts.len() > 0 {
        let last_empty = parts[parts.len() - 1].as_str().is_empty();
        if last_empty {
            parts.pop();
        }
    }
    let mut out: Vec<String> = Vec::new();
    let ghost kept = {
        let ps = split_on(s@, '\n');
        if ps.len() > 0 && ps.last().len() == 0 {
            ps.drop_last()
        } else {
            ps
        }
    };
    proof {
        assert(parts.deep_view() =~= kept);
    }
    let n = parts.len();
    let mut i: usize = 0;
    while i < n
        invariant
            i <= n,
            n == parts.len(),
            parts.deep_view() == kept,
            out.deep_view() =~= kept.take(i as int).map_values(|l: Seq<char>| strip_cr(l)),
        decreases n - i,
    {
        let line = &parts[i];
        let llen = line.as_str().unicode_len();
        let stripped = if llen > 0 && line.as_str().get_char(llen - 1) == '\r' {
            line.as_str().substring_char(0, llen - 1).to_owned()
        } else {
            line.clone()
        };
        proof {
            assert(stripped@ =~= strip_cr(kept[i as int]));
        }
        let ghost pre = out.deep_view();
        let ghost stripped_view = stripped@;
        out.push(stripped);
        proof {
            let f = |l: Seq<char>| strip_cr(l);
            assert(out.deep_view() =~= pre.push(stripped_view));
            assert(kept.take(i + 1).map_values(f) =~= pre.push(stripped_view));
        }
        i = i + 1;
    }
    proof {
        assert(kept.take(n as int) =~= kept);
    }
    out
}

/// The characters the front-matter grammar and path handling treat as
/// horizontal whitespace.
pub open spec fn is_ws(c: char) -> bool {
    c == ' ' || c == '\t'
}

/// Executable twin of [`is_ws`].
pub fn is_ws_char(c: char) -> (r: bool)
    ensures
        r == is_ws(c),
{
    c == ' ' || c == '\t'
}

/// Drops leading whitespace.
pub open spec fn trim_front(s: Seq<char>) -> Seq<char>
    decreases s.len(),
{
    if s.len() > 0 && is_ws(s[0]) {
        trim_front(s.skip(1))
    } else {
        s
    }
}

/// Drops trailing whitespace.
pub open spec fn trim_back(s: Seq<char>) -> Seq<char>
    decreases s.len(),
{
    if s.len() > 0 && is_ws(s[s.len() - 1]) {
        trim_back(s.drop_last())
    } else {
        s
    }
}

/// Drops whitespace at both ends.
pub open spec fn trimmed(s: Seq<char>) -> Seq<char> {
    trim_back(trim_front(s))
}

proof fn lemma_trim_front_at(s: Seq<char>, k: int)
    requires
        0 <= k <= s.len(),
        forall|j: int| 0 <= j < k ==> is_ws(s[j]),
        k == s.len() || !is_ws(s[k]),
    ensures
        trim_front(s) == s.skip(k),
    decreases k,
{
    if k == 0 {
        assert(s.skip(0) =~= s);
    } else {
        lemma_trim_front_at(s.skip(1), k - 1);
        assert(s.skip(1).skip(k - 1) =~= s.skip(k));
    }
}

proof fn lemma_trim_back_at(s: Seq<char>, e: int)
    requires
        0 <= e <= s.len(),
        forall|j: int| e <= j < s.len() ==> is_ws(s[j]),
        e == 0 || !is_ws(s[e - 1]),
    ensures
        trim_back(s) == s.take(e),
    decreases s.len() - e,
{
    if e == s.len() {
        assert(s.take(e) =~= s);
    } else {
        lemma_trim_back_at(s.drop_last(), e);
        assert(s.drop_last().take(e) =~= s.take(e));
    }
}

/// Removes whitespace at both ends of a string, pinned to [`trimmed`].
pub fn trim_str(s: &str) -> (r: String)
    ensures
        r@ == trimmed(s@),
{
    let slen = s.unicode_len();
    let mut start: usize = 0;
    while start < slen && is_ws_char(s.get_char(start))
        invariant
            start <= slen,
            slen == s@.len(),
            forall|j: int| 0 <= j < start ==> is_ws(s@[j]),
        decreases slen - start,
    {
        start = start + 1;
    }
    let mut end: usize = slen;
    while end > start && is_ws_char(s.get_char(end - 1))
        invariant
            start <= end <= slen,
            slen == s@.len(),
            forall|j: int| 0 <= j < start ==> is_ws(s@[j]),
            forall|j: int| end <= j < slen ==> is_ws(s@[j]),
        decreases end,
    {
        end = end - 1;
    }
    proof {
        lemma_trim_front_at(s@, start as int);
        let t = s@.skip(start as int);
        lemma_trim_back_at(t, end - start);
        assert(t.take(end - start) =~= s@.subrange(start as int, end as int));
    }
    s.substring_char(start, end).to_owned()
}

} // verus!
