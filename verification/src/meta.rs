//! Document metadata and the front-matter grammar.
//!
//! A document may open with a fenced block labelled `meta` whose text is a
//! sequence of `key = value` lines: `title` (string, required), `date`
//! (calendar date, required, written either as a bare `YYYY-MM-DD` or as a
//! string holding one), `lang` and `desc` (strings, optional). Strings are
//! written between double quotes, with the escapes `\"`, `\\`, `\n`, `\t`
//! and `\r`, or between single quotes with no escapes. Blank lines and lines
//! starting with `#` are skipped, and `#` starts a comment after an unquoted
//! value. Unknown keys are allowed when their value is a string, a date, an
//! integer or a boolean. A repeated key, or any line that fits none of these
//! forms, makes the whole block invalid, and the document then carries no
//! metadata.

use vstd::prelude::*;

use crate::date::{spec_digit, spec_parse_date, parse_date, Date};
use crate::text::{
    first_index_from, lines_of, split_lines, trim_str, trimmed, str_eq,
    lemma_first_index_bounds,
};

verus! {

/// Metadata of one document.
#[derive(Debug)]
pub struct Meta {
    pub title: String,
    pub date: Date,
    pub lang: Option<String>,
    pub desc: Option<String>,
}

impl Clone for Meta {
    /// The copy carries the same view.
    fn clone(&self) -> (r: Meta)
        ensures
            r@ == self@,
    {
        Meta {
            title: self.title.clone(),
            date: self.date,
            lang: match &self.lang {
                Some(s) => Some(s.clone()),
                None => None,
            },
            desc: match &self.desc {
                Some(s) => Some(s.clone()),
                None => None,
            },
        }
    }
}

/// The mathematical shape of a [`Meta`]: character sequences in place of
/// strings.
#[verifier::ext_equal]
pub struct MetaView {
    pub title: Seq<char>,
    pub date: Date,
    pub lang: Option<Seq<char>>,
    pub desc: Option<Seq<char>>,
}

/// The view of an optional string.
pub open spec fn view_opt_string(s: Option<String>) -> Option<Seq<char>> {
    match s {
        Some(x) => Some(x@),
        None => None,
    }
}

impl View for Meta {
    type V = MetaView;

    open spec fn view(&self) -> MetaView {
        MetaView {
            title: self.title@,
            date: self.date,
            lang: view_opt_string(self.lang),
            desc: view_opt_string(self.desc),
        }
    }
}

/// The view of an optional [`Meta`].
pub open spec fn view_opt_meta(m: Option<Meta>) -> Option<MetaView> {
    match m {
        Some(x) => Some(x@),
        None => None,
    }
}

/// The metadata a document renders with when its front matter is absent or
/// invalid: a sentinel title and a fixed placeholder date.
pub open spec fn spec_default_meta() -> MetaView {
    MetaView {
        title: "UNTITLED!"@,
        date: (Date { year: 2024, month: 1, day: 1 }),
        lang: None,
        desc: None,
    }
}

impl Default for Meta {
    /// Builds the placeholder metadata of [`spec_default_meta`].
    fn default() -> (r: Meta)
        ensures
            r@ == spec_default_meta(),
    {
        Meta {
            title: String::from_str("UNTITLED!"),
            date: Date { year: 2024, month: 1, day: 1 },
            lang: None,
            desc: None,
        }
    }
}

/// A front-matter value.
pub enum FrontValue {
    /// A quoted string.
    Text(String),
    /// A bare calendar date.
    Day(Date),
    /// An integer or boolean; its value plays no part in the metadata.
    Scalar,
}

/// The mathematical shape of a [`FrontValue`].
pub enum FrontValueView {
    Text(Seq<char>),
    Day(Date),
    Scalar,
}

impl View for FrontValue {
    type V = FrontValueView;

    open spec fn view(&self) -> FrontValueView {
        match self {
            FrontValue::Text(s) => FrontValueView::Text(s@),
            FrontValue::Day(d) => FrontValueView::Day(*d),
            FrontValue::Scalar => FrontValueView::Scalar,
        }
    }
}

/// What one front-matter line denotes.
pub enum LineParsed {
    /// Blank or comment: carries nothing.
    Skip,
    /// A well-formed `key = value`.
    Pair(String, FrontValue),
    /// A line the grammar rejects.
    Bad,
}

/// The mathematical shape of a [`LineParsed`].
pub enum LineParsedView {
    Skip,
    Pair(Seq<char>, FrontValueView),
    Bad,
}

impl View for LineParsed {
    type V = LineParsedView;

    open spec fn view(&self) -> LineParsedView {
        match self {
            LineParsed::Skip => LineParsedView::Skip,
            LineParsed::Pair(k, v) => LineParsedView::Pair(k@, v@),
            LineParsed::Bad => LineParsedView::Bad,
        }
    }
}

/// What a backslash escape stands for, or `None` for an unknown escape.
pub open spec fn spec_escape(c: char) -> Option<char> {
    if c == '"' {
        Some('"')
    } else if c == '\\' {
        Some('\\')
    } else if c == 'n' {
        Some('\n')
    } else if c == 't' {
        Some('\t')
    } else if c == 'r' {
        Some('\r')
    } else {
        None
    }
}

/// Reads a double-quoted string body from position `i` up to its closing
/// quote: the content with escapes resolved, and the position after the
/// quote. `None` when the quote never closes or an escape is unknown.
pub open spec fn spec_scan_basic(s: Seq<char>, i: int) -> Option<(Seq<char>, int)>
    decreases s.len() - i,
{
    if i < 0 || i >= s.len() {
        None
    } else if s[i] == '"' {
        Some((Seq::empty(), i + 1))
    } else if s[i] == '\\' {
        if i + 1 < s.len() {
            match spec_escape(s[i + 1]) {
                Some(c) => match spec_scan_basic(s, i + 2) {
                    Some(p) => Some((seq![c] + p.0, p.1)),
                    None => None,
                },
                None => None,
            }
        } else {
            None
        }
    } else {
        match spec_scan_basic(s, i + 1) {
            Some(p) => Some((seq![s[i]] + p.0, p.1)),
            None => None,
        }
    }
}

/// After a closed value only whitespace or a comment may follow.
pub open spec fn spec_rest_ok(r: Seq<char>) -> bool {
    trimmed(r).len() == 0 || trimmed(r)[0] == '#'
}

/// Whether every character may stand in a bare key.
pub open spec fn is_key_char(c: char) -> bool {
    ('a' <= c && c <= 'z') || ('A' <= c && c <= 'Z') || ('0' <= c && c <= '9') || c == '_' || c
        == '-'
}

/// A bare key: nonempty, of letters, digits, `_` and `-`.
pub open spec fn is_bare_key(s: Seq<char>) -> bool {
    s.len() > 0 && forall|i: int| 0 <= i < s.len() ==> is_key_char(#[trigger] s[i])
}

/// A nonempty run of decimal digits.
pub open spec fn all_digits(s: Seq<char>) -> bool {
    s.len() > 0 && forall|i: int| 0 <= i < s.len() ==> spec_digit(#[trigger] s[i]) is Some
}

/// An integer token: digits with an optional sign.
pub open spec fn is_int_token(s: Seq<char>) -> bool {
    s.len() > 0 && (all_digits(s) || ((s[0] == '+' || s[0] == '-') && all_digits(s.skip(1))))
}

/// What an already-trimmed value text denotes.
pub open spec fn spec_parse_value(v: Seq<char>) -> Option<FrontValueView> {
    if v.len() > 0 && v[0] == '"' {
        match spec_scan_basic(v, 1) {
            Some(p) => if spec_rest_ok(v.skip(p.1)) {
                Some(FrontValueView::Text(p.0))
            } else {
                None
            },
            None => None,
        }
    } else if v.len() > 0 && v[0] == '\'' {
        match first_index_from(v, '\'', 1) {
            Some(j) => if spec_rest_ok(v.skip(j + 1)) {
                Some(FrontValueView::Text(v.subrange(1, j)))
            } else {
                None
            },
            None => None,
        }
    } else {
        let cut = match first_index_from(v, '#', 0) {
            Some(c) => v.take(c),
            None => v,
        };
        let tok = trimmed(cut);
        if tok.len() == 0 {
            None
        } else {
            match spec_parse_date(tok) {
                Some(d) => Some(FrontValueView::Day(d)),
                None => if is_int_token(tok) || tok == "true"@ || tok == "false"@ {
                    Some(FrontValueView::Scalar)
                } else {
                    None
                },
            }
        }
    }
}

/// What one line of a front-matter block denotes.
pub open spec fn spec_parse_line(l: Seq<char>) -> LineParsedView {
    let t = trimmed(l);
    if t.len() == 0 || t[0] == '#' {
        LineParsedView::Skip
    } else {
        match first_index_from(t, '=', 0) {
            None => LineParsedView::Bad,
            Some(i) => {
                let key = trimmed(t.take(i));
                let val = trimmed(t.skip(i + 1));
                if is_bare_key(key) {
                    match spec_parse_value(val) {
                        Some(v) => LineParsedView::Pair(key, v),
                        None => LineParsedView::Bad,
                    }
                } else {
                    LineParsedView::Bad
                }
            },
        }
    }
}

/// The fields gathered while reading a block, and the keys already seen.
#[verifier::ext_equal]
pub struct FmState {
    pub title: Option<Seq<char>>,
    pub date: Option<Date>,
    pub lang: Option<Seq<char>>,
    pub desc: Option<Seq<char>>,
    pub seen: Seq<Seq<char>>,
}

/// The state before any line has been read.
pub open spec fn fm_init() -> FmState {
    FmState { title: None, date: None, lang: None, desc: None, seen: Seq::empty() }
}

/// How one line changes the gathered state; `None` rejects the block.
pub open spec fn fm_step(st: FmState, l: Seq<char>) -> Option<FmState> {
    match spec_parse_line(l) {
        LineParsedView::Skip => Some(st),
        LineParsedView::Bad => None,
        LineParsedView::Pair(k, v) => if st.seen.contains(k) {
            None
        } else {
            let st1 = FmState { seen: st.seen.push(k), ..st };
            if k == "title"@ {
                match v {
                    FrontValueView::Text(t) => Some(FmState { title: Some(t), ..st1 }),
                    _ => None,
                }
            } else if k == "date"@ {
                match v {
                    FrontValueView::Day(d) => Some(FmState { date: Some(d), ..st1 }),
                    FrontValueView::Text(ds) => match spec_parse_date(ds) {
                        Some(d) => Some(FmState { date: Some(d), ..st1 }),
                        None => None,
                    },
                    FrontValueView::Scalar => None,
                }
            } else if k == "lang"@ {
                match v {
                    FrontValueView::Text(t) => Some(FmState { lang: Some(t), ..st1 }),
                    _ => None,
                }
            } else if k == "desc"@ {
                match v {
                    FrontValueView::Text(t) => Some(FmState { desc: Some(t), ..st1 }),
                    _ => None,
                }
            } else {
                Some(st1)
            }
        },
    }
}

/// Reads the lines in order, stopping at the first rejection.
pub open spec fn fm_fold(ls: Seq<Seq<char>>, st: FmState) -> Option<FmState>
    decreases ls.len(),
{
    if ls.len() == 0 {
        Some(st)
    } else {
        match fm_step(st, ls[0]) {
            Some(st2) => fm_fold(ls.skip(1), st2),
            None => None,
        }
    }
}

/// What a whole front-matter block denotes: metadata exactly when every line
/// is well formed and both `title` and `date` were given.
pub open spec fn spec_front_matter(s: Seq<char>) -> Option<MetaView> {
    match fm_fold(lines_of(s), fm_init()) {
        Some(st) => match (st.title, st.date) {
            (Some(t), Some(d)) => Some(
                (MetaView { title: t, date: d, lang: st.lang, desc: st.desc }),
            ),
            _ => None,
        },
        None => None,
    }
}

/// Resolves double-quoted escapes from position `i`, pinned to
/// [`spec_scan_basic`].
fn scan_basic(s: &str, start: usize) -> (r: Option<(String, usize)>)
    requires
        start <= s@.len(),
    ensures
        match r {
            Some(p) => spec_scan_basic(s@, start as int) == Some((p.0@, p.1 as int)) && p.1
                <= s@.len(),
            None => spec_scan_basic(s@, start as int) is None,
        },
{
    let slen = s.unicode_len();
    let mut out = String::new();
    let mut i: usize = start;
    loop
        invariant
            start <= i <= slen,
            slen == s@.len(),
            match spec_scan_basic(s@, i as int) {
                Some(p) => spec_scan_basic(s@, start as int) == Some((out@ + p.0, p.1)),
                None => spec_scan_basic(s@, start as int) is None,
            },
        decreases slen - i,
    {
        if i >= slen {
            return None;
        }
        let c = s.get_char(i);
        if c == '"' {
            proof {
                assert(out@ + Seq::<char>::empty() =~= out@);
            }
            return Some((out, i + 1));
        }
        if c == '\\' {
            if i + 1 >= slen {
                return None;
            }
            let e = s.get_char(i + 1);
            let ghost pre = out@;
            if e == '"' {
                out.append("\"");
            } else if e == '\\' {
                out.append("\\");
            } else if e == 'n' {
                out.append("\n");
            } else if e == 't' {
                out.append("\t");
            } else if e == 'r' {
                out.append("\r");
            } else {
                return None;
            }
            proof {
                reveal_strlit("\"");
                reveal_strlit("\\");
                reveal_strlit("\n");
                reveal_strlit("\t");
                reveal_strlit("\r");
                let ec = spec_escape(s@[i + 1])->0;
                assert(out@ =~= pre + seq![ec]);
                match spec_scan_basic(s@, i + 2) {
                    Some(p) => {
                        assert(out@ + p.0 =~= pre + (seq![ec] + p.0));
                    },
                    None => {},
                }
            }
            i = i + 2;
        } else {
            let ghost pre = out@;
            let piece = s.substring_char(i, i + 1);
            out.append(piece);
            proof {
                assert(out@ =~= pre + seq![s@[i as int]]);
                match spec_scan_basic(s@, i + 1) {
                    Some(p) => {
                        assert(out@ + p.0 =~= pre + (seq![s@[i as int]] + p.0));
                    },
                    None => {},
                }
            }
            i = i + 1;
        }
    }
}

/// Tests that only whitespace or a comment follows, pinned to
/// [`spec_rest_ok`].
fn rest_ok(r: &str) -> (b: bool)
    ensures
        b == spec_rest_ok(r@),
{
    let t = trim_str(r);
    let tlen = t.as_str().unicode_len();
    tlen == 0 || t.as_str().get_char(0) == '#'
}

/// Tests [`is_bare_key`].
fn is_bare_key_str(s: &str) -> (r: bool)
    ensures
        r == is_bare_key(s@),
{
    let slen = s.unicode_len();
    if slen == 0 {
        return false;
    }
    let mut i: usize = 0;
    while i < slen
        invariant
            i <= slen,
            slen == s@.len(),
            forall|j: int| 0 <= j < i ==> is_key_char(#[trigger] s@[j]),
        decreases slen - i,
    {
        let c = s.get_char(i);
        let ok = ('a' <= c && c <= 'z') || ('A' <= c && c <= 'Z') || ('0' <= c && c <= '9') || c
            == '_' || c == '-';
        if !ok {
            return false;
        }
        i = i + 1;
    }
    true
}

/// Tests [`is_int_token`].
fn is_int_token_str(s: &str) -> (r: bool)
    ensures
        r == is_int_token(s@),
{
    let slen = s.unicode_len();
    if slen == 0 {
        return false;
    }
    let first = s.get_char(0);
    let signed = first == '+' || first == '-';
    let start: usize = if signed {
        1
    } else {
        0
    };
    if start >= slen {
        return false;
    }
    let mut i: usize = start;
    let mut all: bool = true;
    while i < slen
        invariant
            start <= i <= slen,
            slen == s@.len(),
            all == (forall|j: int| start <= j < i ==> spec_digit(#[trigger] s@[j]) is Some),
        decreases slen - i,
    {
        if digit_is_none(s.get_char(i)) {
            all = false;
        }
        i = i + 1;
    }
    proof {
        if all {
            if signed {
                assert(forall|j: int|
                    0 <= j < s@.skip(1).len() ==> spec_digit(#[trigger] s@.skip(1)[j]) is Some);
            }
        } else {
            if !signed {
                assert(!all_digits(s@));
            }
            assert(!(signed && all_digits(s@.skip(1)))) by {
                if signed && all_digits(s@.skip(1)) {
                    let j = choose|j: int| start <= j < slen && spec_digit(#[trigger] s@[j]) is None;
                    assert(spec_digit(s@.skip(1)[j - 1]) is Some);
                }
            }
            assert(!all_digits(s@)) by {
                if all_digits(s@) {
                    let j = choose|j: int| start <= j < slen && spec_digit(#[trigger] s@[j]) is None;
                    assert(spec_digit(s@[j]) is Some);
                }
            }
        }
    }
    all
}

/// Tests that a character is not a digit.
fn digit_is_none(c: char) -> (r: bool)
    ensures
        r == (spec_digit(c) is None),
{
    !(c == '0' || c == '1' || c == '2' || c == '3' || c == '4' || c == '5' || c == '6' || c == '7'
        || c == '8' || c == '9')
}

/// Parses an already-trimmed value text, pinned to [`spec_parse_value`].
fn parse_value(v: &str) -> (r: Option<FrontValue>)
    ensures
        match r {
            Some(fv) => spec_parse_value(v@) == Some(fv@),
            None => spec_parse_value(v@) is None,
        },
{
    let vlen = v.unicode_len();
    if vlen > 0 && v.get_char(0) == '"' {
        match scan_basic(v, 1) {
            Some((content, e)) => {
                let rest = v.substring_char(e, vlen);
                proof {
                    assert(rest@ =~= v@.skip(e as int));
                }
                if rest_ok(rest) {
                    Some(FrontValue::Text(content))
                } else {
                    None
                }
            },
            None => None,
        }
    } else if vlen > 0 && v.get_char(0) == '\'' {
        match crate::text::find_char_from(v, '\'', 1) {
            Some(j) => {
                proof {
                    lemma_first_index_bounds(v@, '\'', 1, j as int);
                }
                let content = v.substring_char(1, j).to_owned();
                let rest = v.substring_char(j + 1, vlen);
                proof {
                    assert(rest@ =~= v@.skip(j + 1));
                }
                if rest_ok(rest) {
                    Some(FrontValue::Text(content))
                } else {
                    None
                }
            },
            None => None,
        }
    } else {
        let cut = match crate::text::find_char_from(v, '#', 0) {
            Some(c) => {
                proof {
                    lemma_first_index_bounds(v@, '#', 0, c as int);
                }
                v.substring_char(0, c)
            },
            None => v,
        };
        proof {
            match first_index_from(v@, '#', 0) {
                Some(c) => {
                    assert(cut@ =~= v@.take(c));
                },
                None => {},
            }
        }
        let tok = trim_str(cut);
        let tok_len = tok.as_str().unicode_len();
        if tok_len == 0 {
            return None;
        }
        match parse_date(tok.as_str()) {
            Some(d) => Some(FrontValue::Day(d)),
            None => {
                if is_int_token_str(tok.as_str()) || str_eq(tok.as_str(), "true") || str_eq(
                    tok.as_str(),
                    "false",
                ) {
                    Some(FrontValue::Scalar)
                } else {
                    None
                }
            },
        }
    }
}

/// Parses one line, pinned to [`spec_parse_line`].
fn parse_line(l: &str) -> (r: LineParsed)
    ensures
        r@ == spec_parse_line(l@),
{
    let t = trim_str(l);
    let tlen = t.as_str().unicode_len();
    if tlen == 0 || t.as_str().get_char(0) == '#' {
        return LineParsed::Skip;
    }
    match crate::text::find_char_from(t.as_str(), '=', 0) {
        None => LineParsed::Bad,
        Some(i) => {
            proof {
                lemma_first_index_bounds(t@, '=', 0, i as int);
            }
            let key = trim_str(t.as_str().substring_char(0, i));
            let val = trim_str(t.as_str().substring_char(i + 1, tlen));
            proof {
                assert(t@.subrange(0, i as int) =~= t@.take(i as int));
                assert(t@.subrange(i + 1, tlen as int) =~= t@.skip(i + 1));
            }
            if is_bare_key_str(key.as_str()) {
                match parse_value(val.as_str()) {
                    Some(v) => LineParsed::Pair(key, v),
                    None => LineParsed::Bad,
                }
            } else {
                LineParsed::Bad
            }
        },
    }
}

/// The fields gathered so far, in executable form.
struct FmPartial {
    title: Option<String>,
    date: Option<Date>,
    lang: Option<String>,
    desc: Option<String>,
    seen: Vec<String>,
}

/// The state an [`FmPartial`] stands for.
spec fn partial_view(p: FmPartial) -> FmState {
    FmState {
        title: view_opt_string(p.title),
        date: p.date,
        lang: view_opt_string(p.lang),
        desc: view_opt_string(p.desc),
        seen: p.seen.deep_view(),
    }
}

/// Whether `k` was already seen.
fn seen_contains(seen: &Vec<String>, k: &str) -> (r: bool)
    ensures
        r == seen.deep_view().contains(k@),
{
    let n = seen.len();
    let mut i: usize = 0;
    while i < n
        invariant
            i <= n,
            n == seen.len(),
            forall|j: int| 0 <= j < i ==> seen.deep_view()[j] != k@,
        decreases n - i,
    {
        if str_eq(seen[i].as_str(), k) {
            assert(seen.deep_view()[i as int] == k@);
            return true;
        }
        i = i + 1;
    }
    false
}

/// Parses a whole front-matter block, pinned to [`spec_front_matter`]: the
/// metadata exactly when every line is well formed and both `title` and
/// `date` were given.
pub fn parse_front_matter(text: &str) -> (r: Option<Meta>)
    ensures
        view_opt_meta(r) == spec_front_matter(text@),
{
    let lines = split_lines(text);
    let n = lines.len();
    let mut p = FmPartial { title: None, date: None, lang: None, desc: None, seen: Vec::new() };
    proof {
        assert(partial_view(p) =~= fm_init());
        assert(lines.deep_view().skip(0) =~= lines.deep_view());
    }
    let ghost ls = lines.deep_view();
    let mut i: usize = 0;
    while i < n
        invariant
            i <= n,
            n == lines.len(),
            ls == lines.deep_view(),
            ls == lines_of(text@),
            fm_fold(ls, fm_init()) == fm_fold(ls.skip(i as int), partial_view(p)),
        decreases n - i,
    {
        let ghost st = partial_view(p);
        proof {
            assert(ls.skip(i as int)[0] == ls[i as int]);
            assert(ls.skip(i as int).skip(1) =~= ls.skip(i + 1));
        }
        let parsed = parse_line(lines[i].as_str());
        match parsed {
            LineParsed::Skip => {},
            LineParsed::Bad => {
                return None;
            },
            LineParsed::Pair(k, v) => {
                if seen_contains(&p.seen, k.as_str()) {
                    return None;
                }
                let ghost pre_seen = p.seen.deep_view();
                p.seen.push(k.clone());
                proof {
                    assert(p.seen.deep_view() =~= pre_seen.push(k@));
                }
                let is_title = str_eq(k.as_str(), "title");
                let is_date = str_eq(k.as_str(), "date");
                let is_lang = str_eq(k.as_str(), "lang");
                let is_desc = str_eq(k.as_str(), "desc");
                if is_title {
                    match v {
                        FrontValue::Text(t) => {
                            p.title = Some(t);
                        },
                        _ => {
                            return None;
                        },
                    }
                } else if is_date {
                    match v {
                        FrontValue::Day(d) => {
                            p.date = Some(d);
                        },
                        FrontValue::Text(ds) => {
                            match parse_date(ds.as_str()) {
                                Some(d) => {
                                    p.date = Some(d);
                                },
                                None => {
                                    return None;
                                },
                            }
                        },
                        FrontValue::Scalar => {
                            return None;
                        },
                    }
                } else if is_lang {
                    match v {
                        FrontValue::Text(t) => {
                            p.lang = Some(t);
                        },
                        _ => {
                            return None;
                        },
                    }
                } else if is_desc {
                    match v {
                        FrontValue::Text(t) => {
                            p.desc = Some(t);
                        },
                        _ => {
                            return None;
                        },
                    }
                }
                proof {
                    assert(fm_step(st, ls[i as int]) == Some(partial_view(p))) by {
                        assert(partial_view(p) =~= fm_step(st, ls[i as int])->0);
                    }
                }
            },
        }
        i = i + 1;
    }
    proof {
        assert(ls.skip(n as int) =~= Seq::<Seq<char>>::empty());
    }
    match (p.title, p.date) {
        (Some(t), Some(d)) => Some(Meta { title: t, date: d, lang: p.lang, desc: p.desc }),
        _ => None,
    }
}

} // verus!
