//! The rendering pipeline: one Markdown document in, HTML and optional
//! metadata out.
//!
//! The document's event stream is read once. A fenced code block labelled
//! `meta` is suppressed and its text parsed as front matter; any other
//! fenced code block is suppressed and replaced by a syntax-highlighted
//! fragment, falling back to the plain block text when highlighting fails;
//! every other event passes through unchanged. The Markdown parsing, the
//! HTML conversion and the highlighter are outside collaborators; the state
//! machine that drives them is verified, and their results are named so
//! that rendering is a function of the document text alone.

use vstd::prelude::*;

use crate::meta::{spec_front_matter, parse_front_matter, view_opt_string, view_opt_meta, Meta, MetaView};
use crate::text::str_eq;

verus! {

/// One classified Markdown event.
pub enum MdEvent {
    /// A fenced code block opens; the trimmed fence token.
    FenceStart(String),
    /// A chunk of text.
    Text(String),
    /// A code block closes.
    FenceEnd,
    /// Any other event; it takes no part in the state machine.
    Other,
}

/// The mathematical shape of an [`MdEvent`].
pub enum MdTok {
    FenceStart(Seq<char>),
    Text(Seq<char>),
    FenceEnd,
    Other,
}

impl View for MdEvent {
    type V = MdTok;

    open spec fn view(&self) -> MdTok {
        match self {
            MdEvent::FenceStart(l) => MdTok::FenceStart(l@),
            MdEvent::Text(t) => MdTok::Text(t@),
            MdEvent::FenceEnd => MdTok::FenceEnd,
            MdEvent::Other => MdTok::Other,
        }
    }
}

impl DeepView for MdEvent {
    type V = MdTok;

    open spec fn deep_view(&self) -> MdTok {
        self.view()
    }
}

/// What becomes of one event when the HTML is produced.
pub enum Directive {
    /// The event passes through unchanged.
    Keep,
    /// The event is suppressed.
    Omit,
    /// The event is replaced by a raw HTML fragment.
    Emit(String),
}

/// The mathematical shape of a [`Directive`].
pub enum DirTok {
    Keep,
    Omit,
    Emit(Seq<char>),
}

impl View for Directive {
    type V = DirTok;

    open spec fn view(&self) -> DirTok {
        match self {
            Directive::Keep => DirTok::Keep,
            Directive::Omit => DirTok::Omit,
            Directive::Emit(h) => DirTok::Emit(h@),
        }
    }
}

impl DeepView for Directive {
    type V = DirTok;

    open spec fn deep_view(&self) -> DirTok {
        self.view()
    }
}

/// The classified event stream of a Markdown text. Named: it stands for
/// what the Markdown parser returns and is a function of the text alone.
pub uninterp spec fn events_of(s: Seq<char>) -> Seq<MdTok>;

/// The HTML the Markdown converter writes for a text under a list of
/// per-event directives. Named: a function of the two arguments alone.
pub uninterp spec fn html_of(s: Seq<char>, dirs: Seq<DirTok>) -> Seq<char>;

/// The highlighter's HTML fragment for a code text under a fence token, or
/// `None` when highlighting fails. Named: a function of the two arguments
/// alone.
pub uninterp spec fn highlight_of(code: Seq<char>, lang: Seq<char>) -> Option<Seq<char>>;

/// Relies on `pulldown_cmark::Parser::new_ext` with the GitHub-flavored
/// extensions (tables, footnotes, strikethrough, task lists and the GFM
/// flag): the document's event stream, each event classified as a
/// fenced-code-block start carrying its trimmed fence token, a text chunk,
/// a code-block end, or anything else.
#[verifier::external_body]
fn md_events(contents: &str) -> (evs: Vec<MdEvent>)
    ensures
        evs.deep_view() == events_of(contents@),
{
    let opts = pulldown_cmark::Options::ENABLE_GFM | pulldown_cmark::Options::ENABLE_TABLES
        | pulldown_cmark::Options::ENABLE_FOOTNOTES | pulldown_cmark::Options::ENABLE_STRIKETHROUGH
        | pulldown_cmark::Options::ENABLE_TASKLISTS;
    pulldown_cmark::Parser::new_ext(contents, opts).map(|ev| match ev {
        pulldown_cmark::Event::Start(pulldown_cmark::Tag::CodeBlock(
            pulldown_cmark::CodeBlockKind::Fenced(lang),
        )) => MdEvent::FenceStart(lang.trim().to_string()),
        pulldown_cmark::Event::Text(t) => MdEvent::Text(t.to_string()),
        pulldown_cmark::Event::End(pulldown_cmark::TagEnd::CodeBlock) => MdEvent::FenceEnd,
        _ => MdEvent::Other,
    }).collect()
}

/// Relies on `pulldown_cmark::html::push_html`: the HTML for the document's
/// event stream after applying one directive per event, in order: the event
/// is kept, suppressed, or replaced by a raw HTML fragment.
#[verifier::external_body]
fn md_to_html(contents: &str, dirs: &Vec<Directive>) -> (r: String)
    ensures
        r@ == html_of(contents@, dirs.deep_view()),
{
    let opts = pulldown_cmark::Options::ENABLE_GFM | pulldown_cmark::Options::ENABLE_TABLES
        | pulldown_cmark::Options::ENABLE_FOOTNOTES | pulldown_cmark::Options::ENABLE_STRIKETHROUGH
        | pulldown_cmark::Options::ENABLE_TASKLISTS;
    let parser = pulldown_cmark::Parser::new_ext(contents, opts);
    let events = parser.zip(dirs.iter()).filter_map(|(ev, d)| match d {
        Directive::Keep => Some(ev),
        Directive::Omit => None,
        Directive::Emit(h) => Some(pulldown_cmark::Event::Html(h.clone().into())),
    });
    let mut out = String::new();
    pulldown_cmark::html::push_html(&mut out, events);
    out
}

/// Relies on `syntect::html::highlighted_html_for_string` with the bundled
/// default syntaxes (newline variant) and the default `base16-ocean.dark`
/// theme: an HTML fragment for `code`, with the grammar looked up by the
/// fence token and falling back to plain text, or `None` when highlighting
/// fails.
#[verifier::external_body]
fn highlight(code: &str, lang: &str) -> (r: Option<String>)
    ensures
        view_opt_string(r) == highlight_of(code@, lang@),
{
    let ss = syntect::parsing::SyntaxSet::load_defaults_newlines();
    let ts = syntect::highlighting::ThemeSet::load_defaults();
    let theme = &ts.themes["base16-ocean.dark"];
    let syntax = ss.find_syntax_by_token(lang).unwrap_or_else(|| ss.find_syntax_plain_text());
    syntect::html::highlighted_html_for_string(code, &ss, syntax, theme).ok()
}

/// The three modes of the per-document state machine.
pub enum RenderMode {
    /// Events pass through.
    Normal,
    /// Inside a `meta` block: text is gathered as front matter.
    InMeta,
    /// Inside any other fenced block: text is gathered for highlighting.
    InHighlight,
}

/// The machine's state between events.
#[verifier::ext_equal]
pub struct RenderState {
    pub mode: RenderMode,
    /// Block text gathered since the current block opened.
    pub gathered: Seq<char>,
    /// The fence token of the block being gathered.
    pub lang: Seq<char>,
    /// The front matter found so far.
    pub meta: Option<MetaView>,
}

/// The state before any event.
pub open spec fn render_init() -> RenderState {
    RenderState { mode: RenderMode::Normal, gathered: Seq::empty(), lang: Seq::empty(), meta: None }
}

/// One transition: the next state and the directive for this event.
pub open spec fn render_step(st: RenderState, ev: MdTok) -> (RenderState, DirTok) {
    match ev {
        MdTok::FenceStart(lang) => if lang == "meta"@ {
            (RenderState { mode: RenderMode::InMeta, gathered: Seq::empty(), ..st }, DirTok::Omit)
        } else {
            (
                RenderState { mode: RenderMode::InHighlight, gathered: Seq::empty(), lang, ..st },
                DirTok::Omit,
            )
        },
        MdTok::Text(t) => match st.mode {
            RenderMode::Normal => (st, DirTok::Keep),
            RenderMode::InMeta => (
                RenderState { gathered: st.gathered + t, ..st },
                DirTok::Omit,
            ),
            RenderMode::InHighlight => (
                RenderState { gathered: st.gathered + t, ..st },
                DirTok::Omit,
            ),
        },
        MdTok::FenceEnd => match st.mode {
            RenderMode::Normal => (st, DirTok::Keep),
            RenderMode::InMeta => (
                RenderState {
                    mode: RenderMode::Normal,
                    gathered: Seq::empty(),
                    meta: match spec_front_matter(st.gathered) {
                        Some(m) => Some(m),
                        None => st.meta,
                    },
                    ..st
                },
                DirTok::Omit,
            ),
            RenderMode::InHighlight => (
                RenderState { mode: RenderMode::Normal, gathered: Seq::empty(), ..st },
                DirTok::Emit(
                    match highlight_of(st.gathered, st.lang) {
                        Some(h) => h,
                        None => st.gathered,
                    },
                ),
            ),
        },
        MdTok::Other => (st, DirTok::Keep),
    }
}

/// Runs the machine over a whole event stream: the final state and one
/// directive per event.
pub open spec fn render_run(evs: Seq<MdTok>, st: RenderState) -> (RenderState, Seq<DirTok>)
    decreases evs.len(),
{
    if evs.len() == 0 {
        (st, Seq::empty())
    } else {
        let step = render_step(st, evs[0]);
        let rest = render_run(evs.skip(1), step.0);
        (rest.0, seq![step.1] + rest.1)
    }
}

/// The directives a document's own event stream earns.
pub open spec fn doc_directives(s: Seq<char>) -> Seq<DirTok> {
    render_run(events_of(s), render_init()).1
}

/// The front matter a document carries: what its last well-formed `meta`
/// block says, or nothing.
pub open spec fn doc_meta(s: Seq<char>) -> Option<MetaView> {
    render_run(events_of(s), render_init()).0.meta
}

/// The HTML body a document renders to.
pub open spec fn rendered_html(s: Seq<char>) -> Seq<char> {
    html_of(s, doc_directives(s))
}

/// Renders one Markdown document: the HTML body and the front matter, if a
/// well-formed `meta` block was present.
pub fn render_markdown(contents: &str) -> (r: (String, Option<Meta>))
    ensures
        r.0@ == rendered_html(contents@),
        view_opt_meta(r.1) == doc_meta(contents@),
{
    let evs = md_events(contents);
    let ghost toks = evs.deep_view();
    let n = evs.len();
    let mut dirs: Vec<Directive> = Vec::new();
    let mut mode = RenderMode::Normal;
    let mut gathered = String::new();
    let mut lang = String::new();
    let mut meta: Option<Meta> = None;
    proof {
        assert(toks.skip(0) =~= toks);
        let st0 = RenderState { mode, gathered: gathered@, lang: lang@, meta: view_opt_meta(meta) };
        assert(st0 =~= render_init());
        assert(dirs.deep_view() + render_run(toks, st0).1 =~= render_run(toks, render_init()).1);
    }
    let mut i: usize = 0;
    while i < n
        invariant
            i <= n,
            n == evs.len(),
            toks == evs.deep_view(),
            ({
                let st = RenderState {
                    mode,
                    gathered: gathered@,
                    lang: lang@,
                    meta: view_opt_meta(meta),
                };
                render_run(toks, render_init()).0 == render_run(toks.skip(i as int), st).0
                    && render_run(toks, render_init()).1 == dirs.deep_view() + render_run(
                    toks.skip(i as int),
                    st,
                ).1
            }),
        decreases n - i,
    {
        let ghost st = RenderState { mode, gathered: gathered@, lang: lang@, meta: view_opt_meta(meta) };
        proof {
            assert(toks.skip(i as int)[0] == toks[i as int]);
            assert(toks.skip(i as int).skip(1) =~= toks.skip(i + 1));
        }
        let ghost step = render_step(st, toks[i as int]);
        let ghost pre_dirs = dirs.deep_view();
        match &evs[i] {
            MdEvent::FenceStart(l) => {
                if str_eq(l.as_str(), "meta") {
                    mode = RenderMode::InMeta;
                    gathered = String::new();
                } else {
                    mode = RenderMode::InHighlight;
                    gathered = String::new();
                    lang = l.clone();
                }
                dirs.push(Directive::Omit);
            },
            MdEvent::Text(t) => {
                match mode {
                    RenderMode::Normal => {
                        dirs.push(Directive::Keep);
                    },
                    RenderMode::InMeta => {
                        gathered.append(t.as_str());
                        dirs.push(Directive::Omit);
                    },
                    RenderMode::InHighlight => {
                        gathered.append(t.as_str());
                        dirs.push(Directive::Omit);
                    },
                }
            },
            MdEvent::FenceEnd => {
                match mode {
                    RenderMode::Normal => {
                        dirs.push(Directive::Keep);
                    },
                    RenderMode::InMeta => {
                        match parse_front_matter(gathered.as_str()) {
                            Some(m) => {
                                meta = Some(m);
                            },
                            None => {},
                        }
                        mode = RenderMode::Normal;
                        gathered = String::new();
                        dirs.push(Directive::Omit);
                    },
                    RenderMode::InHighlight => {
                        let frag = match highlight(gathered.as_str(), lang.as_str()) {
                            Some(h) => h,
                            None => gathered.clone(),
                        };
                        mode = RenderMode::Normal;
                        gathered = String::new();
                        dirs.push(Directive::Emit(frag));
                    },
                }
            },
            MdEvent::Other => {
                dirs.push(Directive::Keep);
            },
        }
        proof {
            let st2 = RenderState {
                mode,
                gathered: gathered@,
                lang: lang@,
                meta: view_opt_meta(meta),
            };
            assert(st2 =~= step.0);
            assert(dirs.deep_view() =~= pre_dirs.push(step.1));
            assert(dirs.deep_view() + render_run(toks.skip(i + 1), st2).1 =~= pre_dirs + (seq![
                step.1,
            ] + render_run(toks.skip(i + 1), st2).1));
        }
        i = i + 1;
    }
    proof {
        assert(toks.skip(n as int) =~= Seq::<MdTok>::empty());
        let st = RenderState { mode, gathered: gathered@, lang: lang@, meta: view_opt_meta(meta) };
        assert(dirs.deep_view() + Seq::<DirTok>::empty() =~= dirs.deep_view());
    }
    let html = md_to_html(contents, &dirs);
    (html, meta)
}

} // verus!
