//! The immutable result of one content scan: the section labels and the
//! document index, together with the predicates that say what a well-formed
//! snapshot looks like.

use vstd::prelude::*;

use crate::meta::{Meta, MetaView};
use crate::text::{lex_lt, split_on, starts_with, str_eq, split_str};

verus! {

/// One indexed document.
#[derive(Debug)]
pub struct IndexEntry {
    pub meta: Meta,
    /// The document's section: the first component of its path, or the
    /// empty string for a document at the content root.
    pub section: String,
    /// The document's path, relative to the content root, with `/`
    /// separators.
    pub path: String,
}

impl Clone for IndexEntry {
    /// The copy carries the same view.
    fn clone(&self) -> (r: IndexEntry)
        ensures
            r@ == self@,
    {
        IndexEntry {
            meta: self.meta.clone(),
            section: self.section.clone(),
            path: self.path.clone(),
        }
    }
}

/// The mathematical shape of an [`IndexEntry`].
#[verifier::ext_equal]
pub struct EntryView {
    pub meta: MetaView,
    pub section: Seq<char>,
    pub path: Seq<char>,
}

impl View for IndexEntry {
    type V = EntryView;

    open spec fn view(&self) -> EntryView {
        EntryView { meta: self.meta@, section: self.section@, path: self.path@ }
    }
}

impl DeepView for IndexEntry {
    type V = EntryView;

    open spec fn deep_view(&self) -> EntryView {
        self.view()
    }
}

/// What one scan found: the sections and the document index.
#[derive(Debug)]
pub struct Snapshot {
    pub sections: Vec<String>,
    pub index: Vec<IndexEntry>,
}

/// The mathematical shape of a [`Snapshot`].
#[verifier::ext_equal]
pub struct SnapshotView {
    pub sections: Seq<Seq<char>>,
    pub index: Seq<EntryView>,
}

impl View for Snapshot {
    type V = SnapshotView;

    open spec fn view(&self) -> SnapshotView {
        SnapshotView { sections: self.sections.deep_view(), index: self.index.deep_view() }
    }
}

/// A clean relative path: every `/`-separated segment is nonempty and does
/// not begin with the hidden marker `.`. In particular `.`, `..` and hidden
/// names are excluded, as are empty paths, leading or doubled slashes.
pub open spec fn path_clean(p: Seq<char>) -> bool {
    let parts = split_on(p, '/');
    forall|i: int|
        0 <= i < parts.len() ==> (#[trigger] parts[i]).len() > 0 && parts[i][0] != '.'
}

/// Tests [`path_clean`].
pub fn path_clean_str(p: &str) -> (r: bool)
    ensures
        r == path_clean(p@),
{
    let parts = split_str(p, '/');
    let n = parts.len();
    let mut i: usize = 0;
    while i < n
        invariant
            i <= n,
            n == parts.len(),
            parts.deep_view() == split_on(p@, '/'),
            forall|j: int|
                0 <= j < i ==> (#[trigger] parts.deep_view()[j]).len() > 0
                    && parts.deep_view()[j][0] != '.',
        decreases n - i,
    {
        let piece = &parts[i];
        let plen = piece.as_str().unicode_len();
        if plen == 0 || piece.as_str().get_char(0) == '.' {
            proof {
                let ps = split_on(p@, '/');
                assert(ps[i as int] == parts.deep_view()[i as int]);
                assert(!(ps[i as int].len() > 0 && ps[i as int][0] != '.'));
            }
            return false;
        }
        i = i + 1;
    }
    true
}

/// Sections are strictly sorted (hence unique) and hold the root label.
pub open spec fn sections_wf(ss: Seq<Seq<char>>) -> bool {
    &&& ss.contains(Seq::<char>::empty())
    &&& forall|i: int, j: int| 0 <= i < j < ss.len() ==> lex_lt(#[trigger] ss[i], #[trigger] ss[j])
}

/// The index is sorted by date, newest first.
pub open spec fn index_date_sorted(ix: Seq<EntryView>) -> bool {
    forall|i: int, j: int|
        0 <= i < j < ix.len() ==> (#[trigger] ix[j]).meta.date.spec_le((#[trigger] ix[i]).meta.date)
}

/// Every indexed path is clean.
pub open spec fn index_paths_clean(ix: Seq<EntryView>) -> bool {
    forall|i: int| 0 <= i < ix.len() ==> path_clean((#[trigger] ix[i]).path)
}

/// A well-formed snapshot: the root section present, sections sorted and
/// unique, the index sorted by date descending, and every indexed path
/// clean.
pub open spec fn snapshot_wf(s: SnapshotView) -> bool {
    sections_wf(s.sections) && index_date_sorted(s.index) && index_paths_clean(s.index)
}

/// No section label hides behind the marker `.`; the root label is the only
/// empty one allowed.
pub open spec fn sections_visible(ss: Seq<Seq<char>>) -> bool {
    forall|i: int|
        0 <= i < ss.len() ==> ((#[trigger] ss[i]).len() == 0 || ss[i][0] != '.')
}

impl Snapshot {
    /// Whether `p` equals the path of some indexed document.
    pub fn contains_path(&self, p: &str) -> (r: bool)
        ensures
            r == exists|i: int| 0 <= i < self@.index.len() && (#[trigger] self@.index[i]).path
                == p@,
    {
        let n = self.index.len();
        let mut i: usize = 0;
        while i < n
            invariant
                i <= n,
                n == self@.index.len(),
                forall|j: int| 0 <= j < i ==> (#[trigger] self@.index[j]).path != p@,
            decreases n - i,
        {
            if str_eq(self.index[i].path.as_str(), p) {
                assert(self@.index[i as int].path == p@);
                return true;
            }
            i = i + 1;
        }
        false
    }

    /// The index entries a listing shows: all of them, or those whose path
    /// begins with a section name.
    pub open spec fn spec_entries_for(ix: Seq<EntryView>, section: Option<Seq<char>>) -> Seq<
        EntryView,
    > {
        match section {
            None => ix,
            Some(s) => ix.filter(|e: EntryView| s.is_prefix_of(e.path)),
        }
    }

    /// Filters the index for a listing, pinned to
    /// [`Snapshot::spec_entries_for`].
    pub fn entries_for_section(&self, section: Option<&str>) -> (r: Vec<IndexEntry>)
        ensures
            r.deep_view() == Self::spec_entries_for(
                self@.index,
                match section {
                    Some(s) => Some(s@),
                    None => None,
                },
            ),
    {
        match section {
            None => {
                let n = self.index.len();
                let mut out: Vec<IndexEntry> = Vec::new();
                let mut i: usize = 0;
                while i < n
                    invariant
                        i <= n,
                        n == self@.index.len(),
                        out.deep_view() =~= self@.index.take(i as int),
                    decreases n - i,
                {
                    let ghost pre = out.deep_view();
                    out.push(self.index[i].clone());
                    proof {
                        assert(out.deep_view() =~= pre.push(self@.index[i as int]));
                        assert(self@.index.take(i + 1) =~= pre.push(self@.index[i as int]));
                    }
                    i = i + 1;
                }
                proof {
                    assert(self@.index.take(n as int) =~= self@.index);
                }
                out
            },
            Some(s) => {
                let ghost pred = |e: EntryView| s@.is_prefix_of(e.path);
                let n = self.index.len();
                let mut out: Vec<IndexEntry> = Vec::new();
                proof {
                    assert(self@.index.take(0) =~= Seq::<EntryView>::empty());
                    reveal(Seq::filter);
                }
                let mut i: usize = 0;
                while i < n
                    invariant
                        i <= n,
                        n == self@.index.len(),
                        out.deep_view() == self@.index.take(i as int).filter(pred),
                        pred == (|e: EntryView| s@.is_prefix_of(e.path)),
                    decreases n - i,
                {
                    let keep = starts_with(self.index[i].path.as_str(), s);
                    let ghost pre = out.deep_view();
                    if keep {
                        out.push(self.index[i].clone());
                    }
                    proof {
                        let elem = self@.index[i as int];
                        assert(self@.index.take(i + 1) =~= self@.index.take(i as int) + seq![
                            elem,
                        ]);
                        Seq::<EntryView>::filter_distributes_over_add(
                            self@.index.take(i as int),
                            seq![elem],
                            pred,
                        );
                        reveal_with_fuel(Seq::<EntryView>::filter, 3);
                        assert(seq![elem].drop_last() =~= Seq::<EntryView>::empty());
                        assert(seq![elem].last() == elem);
                        assert(Seq::<EntryView>::empty().filter(pred) == Seq::<
                            EntryView,
                        >::empty());
                        assert(Seq::<EntryView>::empty().push(elem) =~= seq![elem]);
                        assert(seq![elem].filter(pred) == if pred(elem) {
                            seq![elem]
                        } else {
                            Seq::<EntryView>::empty()
                        });
                        if keep {
                            assert(self.index[i as int]@ == elem);
                            assert(out.deep_view() =~= pre.push(elem));
                            assert(pre + seq![elem] =~= pre.push(elem));
                        } else {
                            assert(out.deep_view() =~= pre + Seq::<EntryView>::empty());
                        }
                    }
                    i = i + 1;
                }
                proof {
                    assert(self@.index.take(n as int) =~= self@.index);
                }
                out
            },
        }
    }
}

} // verus!
