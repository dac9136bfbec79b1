use vstd::prelude::*;
use crate::error::TerminalError;

verus! {

/// Rows of a freshly allocated terminal.
pub const INITIAL_ROWS: u16 = 24;

/// Columns of a freshly allocated terminal.
pub const INITIAL_COLS: u16 = 80;

/// The size of a terminal, in character cells.
#[derive(Clone, Copy, Debug, PartialEq, Eq, Structural)]
pub struct Geometry {
    pub rows: u16,
    pub cols: u16,
}

impl Geometry {
    /// The size that every terminal starts with.
    pub fn initial() -> (r: Geometry)
        ensures
            r.rows == INITIAL_ROWS,
            r.cols == INITIAL_COLS,
    {
        Geometry { rows: INITIAL_ROWS, cols: INITIAL_COLS }
    }
}

/// One registered session: its terminal's size, whether it still runs, and
/// the handle through which the host reaches its terminal and its writer.
pub struct Session<H> {
    pub geometry: Geometry,
    pub live: bool,
    pub handle: H,
}

/// The sessions that the entries `s` describe, a later entry hiding an
/// earlier one with the same id.
pub open spec fn map_of<H>(s: Seq<(String, Session<H>)>) -> Map<Seq<char>, Session<H>>
    decreases s.len(),
{
    if s.len() == 0 {
        Map::empty()
    } else {
        map_of(s.drop_last()).insert(s.last().0@, s.last().1)
    }
}

pub open spec fn ids_unique<H>(s: Seq<(String, Session<H>)>) -> bool {
    forall|i: int, j: int| 0 <= i < j < s.len() ==> s[i].0@ != s[j].0@
}

proof fn lemma_map_of_keys<H>(s: Seq<(String, Session<H>)>, k: Seq<char>)
    ensures
        map_of(s).dom().finite(),
        map_of(s).contains_key(k) <==> exists|i: int| 0 <= i < s.len() && s[i].0@ == k,
    decreases s.len(),
{
    if s.len() > 0 {
        let t = s.drop_last();
        lemma_map_of_keys(t, k);
        if map_of(s).contains_key(k) && k != s.last().0@ {
            let i = choose|i: int| 0 <= i < t.len() && t[i].0@ == k;
            assert(s[i] == t[i]);
        }
        if exists|i: int| 0 <= i < s.len() && s[i].0@ == k {
            let i = choose|i: int| 0 <= i < s.len() && s[i].0@ == k;
            if i < s.len() - 1 {
                assert(t[i] == s[i]);
            }
        }
    }
}

proof fn lemma_map_of_at<H>(s: Seq<(String, Session<H>)>, i: int)
    requires
        ids_unique(s),
        0 <= i < s.len(),
    ensures
        map_of(s).contains_key(s[i].0@),
        map_of(s)[s[i].0@] == s[i].1,
    decreases s.len(),
{
    if i < s.len() - 1 {
        let t = s.drop_last();
        assert(t[i] == s[i]);
        lemma_map_of_at(t, i);
    }
}

proof fn lemma_map_of_len<H>(s: Seq<(String, Session<H>)>)
    requires
        ids_unique(s),
    ensures
        map_of(s).len() == s.len(),
    decreases s.len(),
{
    if s.len() > 0 {
        let t = s.drop_last();
        lemma_map_of_len(t);
        lemma_map_of_keys(t, s.last().0@);
        if map_of(t).contains_key(s.last().0@) {
            let i = choose|i: int| 0 <= i < t.len() && t[i].0@ == s.last().0@;
            assert(s[i] == t[i]);
        }
    }
}

proof fn lemma_map_of_update<H>(s: Seq<(String, Session<H>)>, i: int, v: Session<H>)
    requires
        ids_unique(s),
        0 <= i < s.len(),
    ensures
        map_of(s.update(i, (s[i].0, v))) == map_of(s).insert(s[i].0@, v),
    decreases s.len(),
{
    let u = s.update(i, (s[i].0, v));
    let t = s.drop_last();
    if i == s.len() - 1 {
        assert(u.drop_last() =~= t);
        lemma_map_of_keys(t, s[i].0@);
        assert(map_of(u) =~= map_of(s).insert(s[i].0@, v));
    } else {
        assert(t[i] == s[i]);
        lemma_map_of_update(t, i, v);
        assert(u.drop_last() =~= t.update(i, (t[i].0, v)));
        assert(s.last() == u.last());
        assert(s.last().0@ != s[i].0@);
        assert(map_of(u) =~= map_of(s).insert(s[i].0@, v));
    }
}

/// The sessions known to the host, by id. At most one entry exists per id.
pub struct Registry<H> {
    entries: Vec<(String, Session<H>)>,
}

impl<H> View for Registry<H> {
    type V = Map<Seq<char>, Session<H>>;

    closed spec fn view(&self) -> Map<Seq<char>, Session<H>> {
        map_of(self.entries@)
    }
}

impl<H> Registry<H> {
    pub closed spec fn wf(&self) -> bool {
        ids_unique(self.entries@)
    }

    /// An empty registry.
    pub fn new() -> (r: Registry<H>)
        ensures
            r.wf(),
            r@ == Map::<Seq<char>, Session<H>>::empty(),
    {
        Registry { entries: Vec::new() }
    }

    /// The number of registered sessions, live or ended.
    pub fn len(&self) -> (r: usize)
        requires
            self.wf(),
        ensures
            r == self@.len(),
    {
        proof {
            lemma_map_of_len(self.entries@);
        }
        self.entries.len()
    }

    fn find(&self, id: &String) -> (r: Option<usize>)
        requires
            self.wf(),
        ensures
            match r {
                Some(i) => i < self.entries@.len() && self.entries@[i as int].0@ == id@
                    && self@.contains_key(id@) && self@[id@] == self.entries@[i as int].1,
                None => !self@.contains_key(id@),
            },
    {
        let mut i: usize = 0;
        while i < self.entries.len()
            invariant
                self.wf(),
                i <= self.entries@.len(),
                forall|j: int| 0 <= j < i ==> self.entries@[j].0@ != id@,
            decreases self.entries@.len() - i,
        {
            if self.entries[i].0 == *id {
                proof {
                    lemma_map_of_at(self.entries@, i as int);
                }
                return Some(i);
            }
            i = i + 1;
        }
        proof {
            lemma_map_of_keys(self.entries@, id@);
        }
        None
    }

    /// Whether a live session is registered under `id`.
    pub fn is_live(&self, id: &String) -> (r: bool)
        requires
            self.wf(),
        ensures
            r == (self@.contains_key(id@) && self@[id@].live),
    {
        match self.find(id) {
            Some(i) => self.entries[i].1.live,
            None => false,
        }
    }

    /// Decides whether a session may be created under `id`: not while a live
    /// one is registered there. Nothing is launched when this refuses.
    pub fn check_create(&self, id: &String) -> (r: Result<(), TerminalError>)
        requires
            self.wf(),
        ensures
            r is Err <==> (self@.contains_key(id@) && self@[id@].live),
            r is Err ==> r == Err::<(), TerminalError>(TerminalError::AlreadyExists),
    {
        if self.is_live(id) {
            Err(TerminalError::AlreadyExists)
        } else {
            Ok(())
        }
    }

    /// Registers a new live session under `id`, with the initial size, in
    /// place of an ended one there. While a live session is registered under
    /// `id` the registry is left as it was and `handle` is handed back, for
    /// the caller to release.
    pub fn register(&mut self, id: String, handle: H) -> (r: Result<(), H>)
        requires
            old(self).wf(),
        ensures
            final(self).wf(),
            (old(self)@.contains_key(id@) && old(self)@[id@].live) ==> r == Err::<(), H>(handle)
                && final(self)@ == old(self)@,
            !(old(self)@.contains_key(id@) && old(self)@[id@].live) ==> r is Ok && final(self)@
                == old(self)@.insert(id@, new_session(handle)),
    {
        match self.find(&id) {
            Some(i) => {
                if self.entries[i].1.live {
                    return Err(handle);
                }
                let session = Session { geometry: Geometry::initial(), live: true, handle };
                self.replace_at(i, session);
                Ok(())
            },
            None => {
                let ghost before = self.entries@;
                let session = Session { geometry: Geometry::initial(), live: true, handle };
                let ghost key = id@;
                self.entries.push((id, session));
                proof {
                    assert(self.entries@.drop_last() =~= before);
                    lemma_map_of_keys(before, key);
                    assert forall|a: int, b: int| 0 <= a < b < self.entries@.len() implies
                        self.entries@[a].0@ != self.entries@[b].0@ by {
                        if b < before.len() {
                            assert(before[a].0@ != before[b].0@);
                        } else {
                            assert(self.entries@[a] == before[a]);
                        }
                    }
                }
                Ok(())
            },
        }
    }

    /// The handle of the live session `id`, through which input reaches its
    /// shell. An ended session accepts no more input.
    pub fn writer_of(&self, id: &String) -> (r: Result<&H, TerminalError>)
        requires
            self.wf(),
        ensures
            !self@.contains_key(id@) ==> r == Err::<&H, TerminalError>(TerminalError::NotFound),
            self@.contains_key(id@) && !self@[id@].live ==> r == Err::<&H, TerminalError>(
                TerminalError::Closed,
            ),
            self@.contains_key(id@) && self@[id@].live ==> r == Ok::<&H, TerminalError>(
                &self@[id@].handle,
            ),
    {
        match self.find(id) {
            Some(i) => {
                if self.entries[i].1.live {
                    Ok(&self.entries[i].1.handle)
                } else {
                    Err(TerminalError::Closed)
                }
            },
            None => Err(TerminalError::NotFound),
        }
    }

    /// The handle of the session `id`, live or ended.
    pub fn get(&self, id: &String) -> (r: Option<&H>)
        requires
            self.wf(),
        ensures
            !self@.contains_key(id@) ==> r == None::<&H>,
            self@.contains_key(id@) ==> r == Some(&self@[id@].handle),
    {
        match self.find(id) {
            Some(i) => Some(&self.entries[i].1.handle),
            None => None,
        }
    }

    /// The size recorded for the terminal of session `id`.
    pub fn geometry(&self, id: &String) -> (r: Option<Geometry>)
        requires
            self.wf(),
        ensures
            !self@.contains_key(id@) ==> r == None::<Geometry>,
            self@.contains_key(id@) ==> r == Some(self@[id@].geometry),
    {
        match self.find(id) {
            Some(i) => Some(self.entries[i].1.geometry),
            None => None,
        }
    }

    fn replace_at(&mut self, i: usize, session: Session<H>)
        requires
            old(self).wf(),
            i < old(self).entries@.len(),
        ensures
            final(self).wf(),
            final(self)@ == old(self)@.insert(old(self).entries@[i as int].0@, session),
    {
        proof {
            lemma_map_of_update(self.entries@, i as int, session);
        }
        let ghost before = self.entries@;
        self.entries[i].1 = session;
        proof {
            assert(self.entries@ == before.update(i as int, (before[i as int].0, session)));
            assert forall|a: int, b: int| 0 <= a < b < self.entries@.len() implies
                self.entries@[a].0@ != self.entries@[b].0@ by {
                assert(before[a].0@ != before[b].0@);
            }
        }
    }

    /// Records that the terminal of the live session `id` now has `rows`
    /// rows and `cols` columns, and returns that size for the host to apply.
    pub fn resize(&mut self, id: &String, rows: u16, cols: u16) -> (r: Result<Geometry, TerminalError>)
        requires
            old(self).wf(),
        ensures
            final(self).wf(),
            !old(self)@.contains_key(id@) ==> r == Err::<Geometry, TerminalError>(
                TerminalError::NotFound,
            ) && final(self)@ == old(self)@,
            old(self)@.contains_key(id@) && !old(self)@[id@].live ==> r == Err::<
                Geometry,
                TerminalError,
            >(TerminalError::Closed) && final(self)@ == old(self)@,
            old(self)@.contains_key(id@) && old(self)@[id@].live ==> r == Ok::<
                Geometry,
                TerminalError,
            >((Geometry { rows, cols })) && final(self)@ == old(self)@.insert(
                id@,
                resized(old(self)@[id@], (Geometry { rows, cols })),
            ),
    {
        match self.find(id) {
            Some(i) => {
                if !self.entries[i].1.live {
                    return Err(TerminalError::Closed);
                }
                let g = Geometry { rows, cols };
                let ghost before = self.entries@;
                proof {
                    lemma_map_of_update(before, i as int, resized(before[i as int].1, g));
                }
                self.entries[i].1.geometry = g;
                proof {
                    assert(self.entries@ =~= before.update(
                        i as int,
                        (before[i as int].0, resized(before[i as int].1, g)),
                    ));
                    assert forall|a: int, b: int| 0 <= a < b < self.entries@.len() implies
                        self.entries@[a].0@ != self.entries@[b].0@ by {
                        assert(before[a].0@ != before[b].0@);
                    }
                }
                Ok(g)
            },
            None => Err(TerminalError::NotFound),
        }
    }

    /// Marks the live session `id` as ended, once its pumps have stopped:
    /// from then on it accepts no input and no resize. Returns whether a live
    /// session was there; otherwise the registry is left as it was.
    pub fn close(&mut self, id: &String) -> (r: bool)
        requires
            old(self).wf(),
        ensures
            final(self).wf(),
            r == (old(self)@.contains_key(id@) && old(self)@[id@].live),
            r ==> final(self)@ == old(self)@.insert(id@, ended(old(self)@[id@])),
            !r ==> final(self)@ == old(self)@,
    {
        match self.find(id) {
            Some(i) => {
                if !self.entries[i].1.live {
                    return false;
                }
                let ghost before = self.entries@;
                proof {
                    lemma_map_of_update(before, i as int, ended(before[i as int].1));
                }
                self.entries[i].1.live = false;
                proof {
                    assert(self.entries@ =~= before.update(
                        i as int,
                        (before[i as int].0, ended(before[i as int].1)),
                    ));
                    assert forall|a: int, b: int| 0 <= a < b < self.entries@.len() implies
                        self.entries@[a].0@ != self.entries@[b].0@ by {
                        assert(before[a].0@ != before[b].0@);
                    }
                }
                true
            },
            None => false,
        }
    }
}

/// The entry that `register` makes for `handle`.
pub open spec fn new_session<H>(handle: H) -> Session<H> {
    Session { geometry: Geometry { rows: INITIAL_ROWS, cols: INITIAL_COLS }, live: true, handle }
}

/// `s` with its terminal's size set to `g`.
pub open spec fn resized<H>(s: Session<H>, g: Geometry) -> Session<H> {
    Session { geometry: g, ..s }
}

/// `s` marked as ended.
pub open spec fn ended<H>(s: Session<H>) -> Session<H> {
    Session { live: false, ..s }
}

/// The sessions that registering `handles[i]` under `ids[i]`, in order,
/// makes of the sessions `m`, every id being free when its turn comes.
pub open spec fn registered_all<H>(
    m: Map<Seq<char>, Session<H>>,
    ids: Seq<Seq<char>>,
    handles: Seq<H>,
) -> Map<Seq<char>, Session<H>>
    recommends
        ids.len() == handles.len(),
    decreases ids.len(),
{
    if ids.len() == 0 {
        m
    } else {
        registered_all(m, ids.drop_last(), handles.drop_last()).insert(
            ids.last(),
            new_session(handles.last()),
        )
    }
}

/// Registering sessions under `n` distinct ids that the registry `m` does not
/// hold, in any order of arrival, adds exactly `n` entries, each holding the
/// handle registered under its own id, live and at the initial size, and
/// leaves every entry of `m` as it was.
pub proof fn lemma_distinct_registrations<H>(
    m: Map<Seq<char>, Session<H>>,
    ids: Seq<Seq<char>>,
    handles: Seq<H>,
)
    requires
        m.dom().finite(),
        ids.len() == handles.len(),
        forall|i: int, j: int| 0 <= i < j < ids.len() ==> ids[i] != ids[j],
        forall|i: int| 0 <= i < ids.len() ==> !m.contains_key(#[trigger] ids[i]),
    ensures
        registered_all(m, ids, handles).dom() == m.dom().union(ids.to_set()),
        registered_all(m, ids, handles).len() == m.len() + ids.len(),
        forall|k: Seq<char>| #[trigger] m.contains_key(k) ==> registered_all(m, ids, handles)[k] == m[k],
        forall|i: int|
            0 <= i < ids.len() ==> #[trigger] registered_all(m, ids, handles)[ids[i]]
                == new_session(handles[i]),
    decreases ids.len(),
{
    let r = registered_all(m, ids, handles);
    if ids.len() == 0 {
        assert(ids.to_set() =~= Set::empty());
        assert(m.dom().union(ids.to_set()) =~= m.dom());
    } else {
        let ti = ids.drop_last();
        let th = handles.drop_last();
        assert forall|i: int| 0 <= i < ti.len() implies !m.contains_key(#[trigger] ti[i]) by {
            assert(ti[i] == ids[i]);
        }
        lemma_distinct_registrations(m, ti, th);
        let p = registered_all(m, ti, th);
        assert(!ti.to_set().contains(ids.last())) by {
            if ti.to_set().contains(ids.last()) {
                let k = choose|k: int| 0 <= k < ti.len() && ti[k] == ids.last();
                assert(ids[k] == ti[k]);
            }
        }
        assert(!m.contains_key(ids.last())) by {
            assert(ids[ids.len() - 1] == ids.last());
        }
        assert(!p.dom().contains(ids.last()));
        assert(ids.to_set() =~= ti.to_set().insert(ids.last())) by {
            assert forall|x: Seq<char>| ids.to_set().contains(x) implies ti.to_set().insert(
                ids.last(),
            ).contains(x) by {
                let k = choose|k: int| 0 <= k < ids.len() && ids[k] == x;
                if k < ids.len() - 1 {
                    assert(ti[k] == ids[k]);
                }
            }
            assert forall|x: Seq<char>| ti.to_set().insert(ids.last()).contains(x) implies ids.to_set().contains(
                x,
            ) by {
                if x != ids.last() {
                    let k = choose|k: int| 0 <= k < ti.len() && ti[k] == x;
                    assert(ids[k] == ti[k]);
                } else {
                    assert(ids[ids.len() - 1] == x);
                }
            }
        }
        assert(r.dom() =~= p.dom().insert(ids.last()));
        assert(r.dom() =~= m.dom().union(ids.to_set()));
        assert forall|k: Seq<char>| #[trigger] m.contains_key(k) implies r[k] == m[k] by {
            assert(k != ids.last());
        }
        assert forall|i: int| 0 <= i < ids.len() implies #[trigger] r[ids[i]] == new_session(
            handles[i],
        ) by {
            if i < ids.len() - 1 {
                assert(ti[i] == ids[i]);
                assert(th[i] == handles[i]);
                assert(p[ti[i]] == new_session(th[i]));
            }
        }
    }
}

/// The entry that registering under `id` leaves is present and live: the
/// condition on which `check_create` and `register` refuse a second creation
/// under `id`.
pub proof fn lemma_duplicate_create_refused<H>(m: Map<Seq<char>, Session<H>>, id: Seq<char>, h: H)
    ensures
        m.insert(id, new_session(h)).contains_key(id),
        m.insert(id, new_session(h))[id].live,
{
}

/// The sessions that a resize of the live session `id` to `rows` by `cols`
/// leaves record exactly that size for `id`, and every other entry as it was.
pub proof fn lemma_resize_recorded<H>(m: Map<Seq<char>, Session<H>>, id: Seq<char>, rows: u16, cols: u16)
    requires
        m.contains_key(id),
        m[id].live,
    ensures
        m.insert(id, resized(m[id], (Geometry { rows, cols })))[id].geometry == (Geometry { rows, cols }),
        forall|k: Seq<char>|
            k != id && #[trigger] m.contains_key(k) ==> m.insert(id, resized(m[id], (Geometry { rows, cols })))[k]
                == m[k],
{
}

/// The entry that closing `id` leaves is present and not live: the condition
/// on which `writer_of` and `resize` answer `Closed` and `check_create`
/// allows a new session under `id`.
pub proof fn lemma_ended_accepts_no_input<H>(m: Map<Seq<char>, Session<H>>, id: Seq<char>)
    requires
        m.contains_key(id),
    ensures
        m.insert(id, ended(m[id])).contains_key(id),
        !m.insert(id, ended(m[id]))[id].live,
{
}

} // verus!
