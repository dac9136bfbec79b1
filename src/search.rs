use vstd::prelude::*;
use crate::text::{chars, lines, lines_of, lower_of, lowercase, trim, trimmed_of};

verus! {

/// Most hits that one search returns.
pub const MAX_RESULTS: usize = 100;

/// Whether `needle` occurs in `hay` as a run of consecutive characters.
pub open spec fn occurs_in(hay: Seq<char>, needle: Seq<char>) -> bool {
    exists|i: int| 0 <= i <= hay.len() - needle.len() && #[trigger] hay.subrange(i, i + needle.len()) == needle
}

fn occurs_at(hay: &Vec<char>, needle: &Vec<char>, i: usize) -> (r: bool)
    requires
        i + needle@.len() <= hay@.len(),
    ensures
        r == (hay@.subrange(i as int, i + needle@.len()) == needle@),
{
    let mut j: usize = 0;
    while j < needle.len()
        invariant
            i + needle@.len() <= hay@.len(),
            j <= needle@.len(),
            hay@.len() == hay.len(),
            forall|k: int| 0 <= k < j ==> hay@[i + k] == needle@[k],
        decreases needle@.len() - j,
    {
        if hay[i + j] != needle[j] {
            assert(hay@.subrange(i as int, i + needle@.len())[j as int] != needle@[j as int]);
            return false;
        }
        j = j + 1;
    }
    assert(hay@.subrange(i as int, i + needle@.len()) =~= needle@);
    true
}

/// Whether `needle` occurs in `hay`.
pub fn occurs(hay: &str, needle: &str) -> (r: bool)
    ensures
        r == occurs_in(hay@, needle@),
{
    let h = chars(hay);
    let n = chars(needle);
    if n.len() > h.len() {
        return false;
    }
    let last = h.len() - n.len();
    let mut i: usize = 0;
    loop
        invariant
            h@ == hay@,
            n@ == needle@,
            last == h@.len() - n@.len(),
            i <= last,
            forall|k: int| 0 <= k < i ==> #[trigger] h@.subrange(k, k + n@.len()) != n@,
        decreases last - i,
    {
        if occurs_at(&h, &n, i) {
            return true;
        }
        if i == last {
            return false;
        }
        i = i + 1;
    }
}

/// The first of the lines `ls` whose lower case holds `q`.
pub open spec fn first_hit_line(ls: Seq<Seq<char>>, q: Seq<char>) -> Option<Seq<char>>
    decreases ls.len(),
{
    if ls.len() == 0 {
        None
    } else if occurs_in(lower_of(ls[0]), q) {
        Some(ls[0])
    } else {
        first_hit_line(ls.drop_first(), q)
    }
}

/// The snippet of a file whose text is `content`, for the query `query`:
/// none when the text, in lower case, does not hold the query in lower case;
/// else the first line that does, trimmed, or nothing when no single line
/// holds it.
pub open spec fn hit_snippet(content: Seq<char>, query: Seq<char>) -> Option<Seq<char>> {
    let q = lower_of(query);
    if !occurs_in(lower_of(content), q) {
        None
    } else {
        match first_hit_line(lines_of(content), q) {
            Some(l) => Some(trimmed_of(l)),
            None => Some(Seq::empty()),
        }
    }
}

/// Whether the query holds nothing but white space.
pub fn is_blank_query(query: &str) -> (r: bool)
    ensures
        r == (trimmed_of(query@).len() == 0),
{
    let t = trim(query);
    t.as_str().unicode_len() == 0
}

/// Whether an extension, already in lower case, marks a searched file:
/// Markdown or plain text.
pub fn is_text_extension(ext_lower: &str) -> (r: bool)
    ensures
        r == (ext_lower@ == "md"@ || ext_lower@ == "txt"@),
{
    let e = String::from_str(ext_lower);
    let md = String::from_str("md");
    let txt = String::from_str("txt");
    e == md || e == txt
}

/// Whether a file with extension `ext` is searched: Markdown and plain text,
/// in any case.
pub fn is_searchable_extension(ext: Option<&str>) -> (r: bool)
    ensures
        r == match ext {
            Some(e) => lower_of(e@) == "md"@ || lower_of(e@) == "txt"@,
            None => false,
        },
{
    match ext {
        Some(e) => {
            let l = lowercase(e);
            is_text_extension(l.as_str())
        },
        None => false,
    }
}

/// The index of the first of the lines `lowered`, already in lower case,
/// that holds `query_lower`.
pub fn first_hit_index(lowered: &Vec<String>, query_lower: &str) -> (r: Option<usize>)
    ensures
        match r {
            Some(i) => i < lowered@.len() && occurs_in(lowered@[i as int]@, query_lower@)
                && forall|j: int| 0 <= j < i ==> !occurs_in(#[trigger] lowered@[j]@, query_lower@),
            None => forall|j: int| 0 <= j < lowered@.len() ==> !occurs_in(#[trigger] lowered@[j]@, query_lower@),
        },
{
    let mut i: usize = 0;
    while i < lowered.len()
        invariant
            i <= lowered@.len(),
            forall|j: int| 0 <= j < i ==> !occurs_in(#[trigger] lowered@[j]@, query_lower@),
        decreases lowered@.len() - i,
    {
        if occurs(lowered[i].as_str(), query_lower) {
            return Some(i);
        }
        i = i + 1;
    }
    None
}

proof fn lemma_first_hit_line(ls: Seq<Seq<char>>, lowered: Seq<Seq<char>>, q: Seq<char>, i: int)
    requires
        lowered.len() == ls.len(),
        forall|j: int| 0 <= j < ls.len() ==> #[trigger] lowered[j] == lower_of(ls[j]),
        0 <= i <= ls.len(),
        forall|j: int| 0 <= j < i ==> !occurs_in(#[trigger] lowered[j], q),
        i < ls.len() ==> occurs_in(lowered[i], q),
    ensures
        first_hit_line(ls, q) == if i < ls.len() { Some(ls[i]) } else { None },
    decreases ls.len(),
{
    if ls.len() > 0 {
        assert(lowered[0] == lower_of(ls[0]));
        if i > 0 {
            assert forall|j: int| 0 <= j < ls.len() - 1 implies #[trigger] lowered.drop_first()[j]
                == lower_of(ls.drop_first()[j]) by {
                assert(lowered[j + 1] == lower_of(ls[j + 1]));
            }
            assert forall|j: int| 0 <= j < i - 1 implies !occurs_in(#[trigger] lowered.drop_first()[j], q) by {
                assert(!occurs_in(lowered[j + 1], q));
            }
            lemma_first_hit_line(ls.drop_first(), lowered.drop_first(), q, i - 1);
        }
    }
}

/// The snippet that a file with text `content` yields for `query`, if the
/// file is a hit.
pub fn file_hit(content: &str, query: &str) -> (r: Option<String>)
    ensures
        match hit_snippet(content@, query@) {
            Some(sn) => r is Some && r->Some_0@ == sn,
            None => r is None,
        },
{
    let q = lowercase(query);
    let whole = lowercase(content);
    if !occurs(whole.as_str(), q.as_str()) {
        return None;
    }
    let ls = lines(content);
    let mut lowered: Vec<String> = Vec::new();
    let mut i: usize = 0;
    while i < ls.len()
        invariant
            i <= ls@.len(),
            lowered@.len() == i,
            forall|j: int| 0 <= j < i ==> #[trigger] lowered@[j]@ == lower_of(ls@[j]@),
        decreases ls@.len() - i,
    {
        lowered.push(lowercase(ls[i].as_str()));
        i = i + 1;
    }
    let found = first_hit_index(&lowered, q.as_str());
    let ghost all = lines_of(content@);
    let ghost low = lowered@.map_values(|s: String| s@);
    proof {
        assert forall|j: int| 0 <= j < all.len() implies #[trigger] low[j] == lower_of(all[j]) by {
            assert(ls@[j]@ == all[j]);
            assert(lowered@[j]@ == lower_of(ls@[j]@));
        }
        let n = match found {
            Some(k) => k as int,
            None => all.len() as int,
        };
        assert forall|j: int| 0 <= j < n implies !occurs_in(#[trigger] low[j], q@) by {
            assert(low[j] == lowered@[j]@);
        }
        lemma_first_hit_line(all, low, q@, n);
    }
    match found {
        Some(k) => {
            assert(ls@[k as int]@ == all[k as int]);
            Some(trim(ls[k].as_str()))
        },
        None => Some(String::new()),
    }
}

/// The name shown for a hit: the file's name, or "Unknown" when it has none.
pub fn display_name(name: Option<String>) -> (r: String)
    ensures
        match name {
            Some(n) => r@ == n@,
            None => r@ == "Unknown"@,
        },
{
    match name {
        Some(n) => n,
        None => String::from_str("Unknown"),
    }
}

/// The hits of one search, in the order the files were offered, at most
/// `MAX_RESULTS` of them.
pub struct SearchHits {
    query: String,
    results: Vec<SearchResult>,
}

impl SearchHits {
    /// The query searched for.
    pub closed spec fn query_view(&self) -> Seq<char> {
        self.query@
    }

    /// The hits so far.
    pub closed spec fn hits(&self) -> Seq<SearchResult> {
        self.results@
    }

    /// A search for `query` with no hits yet.
    pub fn new(query: &str) -> (r: SearchHits)
        ensures
            r.query_view() == query@,
            r.hits().len() == 0,
    {
        SearchHits { query: String::from_str(query), results: Vec::new() }
    }

    /// Whether the search has all the hits it may return.
    pub fn is_full(&self) -> (r: bool)
        ensures
            r == (self.hits().len() >= MAX_RESULTS),
    {
        self.results.len() >= MAX_RESULTS
    }

    /// Offers the file at `path`, named `name`, with text `content`. It is
    /// added as a hit, after those found before, when the search is not full
    /// and the file's text holds the query; else nothing changes.
    pub fn offer(&mut self, path: String, name: Option<String>, content: &str)
        ensures
            final(self).query_view() == old(self).query_view(),
            old(self).hits().len() >= MAX_RESULTS || hit_snippet(content@, old(self).query_view())
                is None ==> final(self).hits() == old(self).hits(),
            old(self).hits().len() < MAX_RESULTS && hit_snippet(content@, old(self).query_view())
                is Some ==> {
                let h = final(self).hits().last();
                &&& final(self).hits() == old(self).hits().push(h)
                &&& h.path_view() == path@
                &&& h.name_view() == match name {
                    Some(n) => n@,
                    None => "Unknown"@,
                }
                &&& !h.dir_flag()
                &&& h.snippet_view() == hit_snippet(content@, old(self).query_view())->Some_0
            },
    {
        if self.results.len() >= MAX_RESULTS {
            return;
        }
        match file_hit(content, self.query.as_str()) {
            Some(snippet) => {
                let name = display_name(name);
                let hit = SearchResult::new(path, name, false, snippet);
                let ghost before = self.results@;
                self.results.push(hit);
                assert(self.results@.drop_last() =~= before);
            },
            None => {},
        }
    }

    /// The hits, in the order found.
    pub fn into_results(self) -> (r: Vec<SearchResult>)
        ensures
            r@ == self.hits(),
    {
        self.results
    }
}

/// One file whose text holds the query.
pub struct SearchResult {
    path: String,
    name: String,
    is_dir: bool,
    snippet: String,
}

impl SearchResult {
    pub closed spec fn path_view(&self) -> Seq<char> {
        self.path@
    }

    pub closed spec fn name_view(&self) -> Seq<char> {
        self.name@
    }

    pub closed spec fn dir_flag(&self) -> bool {
        self.is_dir
    }

    pub closed spec fn snippet_view(&self) -> Seq<char> {
        self.snippet@
    }

    /// A hit on the file at `path`, named `name`, with the line `snippet`.
    pub fn new(path: String, name: String, is_dir: bool, snippet: String) -> (r: SearchResult)
        ensures
            r.path_view() == path@,
            r.name_view() == name@,
            r.dir_flag() == is_dir,
            r.snippet_view() == snippet@,
    {
        SearchResult { path, name, is_dir, snippet }
    }

    /// The full path of the file.
    pub fn path(&self) -> (r: &String)
        ensures
            r@ == self.path_view(),
    {
        &self.path
    }

    /// The file's name.
    pub fn name(&self) -> (r: &String)
        ensures
            r@ == self.name_view(),
    {
        &self.name
    }

    /// Whether the hit is a directory; searches report files only.
    pub fn is_dir(&self) -> (r: bool)
        ensures
            r == self.dir_flag(),
    {
        self.is_dir
    }

    /// The first line, trimmed, that holds the query.
    pub fn snippet(&self) -> (r: &String)
        ensures
            r@ == self.snippet_view(),
    {
        &self.snippet
    }
}

} // verus!
