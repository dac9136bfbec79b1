use vstd::prelude::*;
use crate::names::{lemma_lex_total, lemma_lex_trans, lex_lt, name_lt};

verus! {

broadcast use vstd::seq_lib::group_to_multiset_ensures;

/// One entry of a directory listing.
pub struct FileEntry {
    name: String,
    path: String,
    is_dir: bool,
}

impl FileEntry {
    pub closed spec fn name_view(&self) -> Seq<char> {
        self.name@
    }

    pub closed spec fn path_view(&self) -> Seq<char> {
        self.path@
    }

    pub closed spec fn dir_flag(&self) -> bool {
        self.is_dir
    }

    /// The entry `name` at `path`, a directory when `is_dir` is set.
    pub fn new(name: String, path: String, is_dir: bool) -> (r: FileEntry)
        ensures
            r.name_view() == name@,
            r.path_view() == path@,
            r.dir_flag() == is_dir,
    {
        FileEntry { name, path, is_dir }
    }

    /// The entry's name.
    pub fn name(&self) -> (r: &String)
        ensures
            r@ == self.name_view(),
    {
        &self.name
    }

    /// The entry's full path.
    pub fn path(&self) -> (r: &String)
        ensures
            r@ == self.path_view(),
    {
        &self.path
    }

    /// Whether the entry is a directory.
    pub fn is_dir(&self) -> (r: bool)
        ensures
            r == self.dir_flag(),
    {
        self.is_dir
    }
}

/// Whether `a` is listed before `b`: directories before files, and by name
/// within each.
pub open spec fn listed_before(a: FileEntry, b: FileEntry) -> bool {
    (a.dir_flag() && !b.dir_flag()) || (a.dir_flag() == b.dir_flag() && lex_lt(
        a.name_view(),
        b.name_view(),
    ))
}

/// Whether the entries `s` stand in listing order.
pub open spec fn in_listing_order(s: Seq<FileEntry>) -> bool {
    forall|i: int, j: int| 0 <= i < j < s.len() ==> !listed_before(#[trigger] s[j], #[trigger] s[i])
}

proof fn lemma_listed_before_order(a: FileEntry, b: FileEntry, c: FileEntry)
    ensures
        !(listed_before(a, b) && listed_before(b, a)),
        listed_before(a, b) && listed_before(b, c) ==> listed_before(a, c),
{
    lemma_lex_total(a.name_view(), b.name_view());
    if listed_before(a, b) && listed_before(b, c) && a.dir_flag() == c.dir_flag() {
        lemma_lex_trans(a.name_view(), b.name_view(), c.name_view());
    }
}

fn entry_before(a: &FileEntry, b: &FileEntry) -> (r: bool)
    ensures
        r == listed_before(*a, *b),
{
    if a.is_dir != b.is_dir {
        a.is_dir
    } else {
        name_lt(a.name.as_str(), b.name.as_str())
    }
}

/// The entries in listing order: directories first, then by name.
pub fn order_entries(entries: Vec<FileEntry>) -> (r: Vec<FileEntry>)
    ensures
        in_listing_order(r@),
        r@.to_multiset() == entries@.to_multiset(),
{
    let mut rest = entries;
    let ghost all = rest@;
    let mut out: Vec<FileEntry> = Vec::new();
    let ghost mut taken: Seq<FileEntry> = Seq::empty();
    assert(taken + rest@ =~= all);
    while rest.len() > 0
        invariant
            in_listing_order(out@),
            out@.to_multiset() == taken.to_multiset(),
            taken + rest@ == all,
        decreases rest@.len(),
    {
        let ghost before_rest = rest@;
        let e = rest.remove(0);
        let mut p: usize = 0;
        while p < out.len() && !entry_before(&e, &out[p])
            invariant
                p <= out@.len(),
                forall|i: int| 0 <= i < p ==> !listed_before(e, #[trigger] out@[i]),
            decreases out@.len() - p,
        {
            p = p + 1;
        }
        let ghost before = out@;
        out.insert(p, e);
        proof {
            assert(out@ == before.insert(p as int, e));
            assert forall|i: int, j: int| 0 <= i < j < out@.len() implies !listed_before(
                #[trigger] out@[j],
                #[trigger] out@[i],
            ) by {
                if i == p as int {
                    if j - 1 > p {
                        lemma_listed_before_order(before[j - 1], e, before[p as int]);
                    } else {
                        lemma_listed_before_order(before[j - 1], e, e);
                    }
                }
            }
        }
        proof {
            vstd::seq_lib::to_multiset_insert(before, p as int, e);
            vstd::seq_lib::to_multiset_build(taken, e);
            taken = taken.push(e);
            assert(taken + rest@ =~= all) by {
                assert(before_rest =~= seq![e] + rest@);
            }
        }
    }
    assert(taken =~= all);
    out
}

} // verus!
