//! The environment manager: at most one handle per environment path.
use crate::order::equal_bytes;
use vstd::prelude::*;
use vstd::utf8::*;

verus! {

broadcast use vstd::utf8::encode_utf8_decode_utf8;

/// Keeps one handle per canonical environment path.
pub struct Manager<H> {
    entries: Vec<(String, H)>,
}

/// The handle kept for `path`, if any.
pub open spec fn handle_of<H>(entries: Seq<(Seq<char>, H)>, path: Seq<char>) -> Option<H> {
    if exists|i: int| 0 <= i < entries.len() && #[trigger] entries[i].0 == path {
        Some(entries[choose|i: int| 0 <= i < entries.len() && #[trigger] entries[i].0 == path].1)
    } else {
        None
    }
}

/// No path is kept twice.
pub open spec fn distinct_paths<H>(entries: Seq<(Seq<char>, H)>) -> bool {
    forall|i: int, j: int| 0 <= i < j < entries.len() ==> #[trigger] entries[i].0 != #[trigger] entries[j].0
}

fn same_path(a: &String, b: &str) -> (r: bool)
    ensures
        r == (a@ == b@),
{
    let x = a.as_str();
    let eq = equal_bytes(x.as_bytes(), b.as_bytes());
    proof {
        if eq {
            assert(decode_utf8(encode_utf8(x@)) == x@);
            assert(decode_utf8(encode_utf8(b@)) == b@);
        }
    }
    eq
}

impl<H> View for Manager<H> {
    type V = Seq<(Seq<char>, H)>;

    closed spec fn view(&self) -> Seq<(Seq<char>, H)> {
        self.entries@.map_values(|e: (String, H)| (e.0@, e.1))
    }
}

impl<H> Manager<H> {
    /// A manager that keeps no handle.
    pub fn new() -> (r: Manager<H>)
        ensures
            r@.len() == 0,
            distinct_paths(r@),
    {
        let m = Manager { entries: Vec::new() };
        assert(m@ =~= Seq::<(Seq<char>, H)>::empty());
        m
    }

    fn find(&self, path: &str) -> (r: Option<usize>)
        requires
            distinct_paths(self@),
        ensures
            r matches Some(i) ==> i < self@.len() && self@[i as int].0 == path@ && handle_of(self@, path@) == Some(
                self@[i as int].1,
            ),
            r is None ==> handle_of(self@, path@) is None,
    {
        let mut i: usize = 0;
        while i < self.entries.len()
            invariant
                i <= self.entries@.len(),
                self@.len() == self.entries@.len(),
                distinct_paths(self@),
                forall|j: int| 0 <= j < i ==> #[trigger] self@[j].0 != path@,
            decreases self.entries@.len() - i,
        {
            assert(self@[i as int] == (self.entries@[i as int].0@, self.entries@[i as int].1));
            if same_path(&self.entries[i].0, path) {
                proof {
                    let j = choose|j: int| 0 <= j < self@.len() && #[trigger] self@[j].0 == path@;
                    if j != i {
                        if j < i {
                            assert(self@[j].0 != self@[i as int].0);
                        } else {
                            assert(self@[i as int].0 != self@[j].0);
                        }
                    }
                }
                return Some(i);
            }
            i = i + 1;
        }
        None
    }

    /// The handle kept for `path`, if any.
    pub fn get(&self, path: &str) -> (r: Option<&H>)
        requires
            distinct_paths(self@),
        ensures
            r matches Some(h) ==> handle_of(self@, path@) == Some(*h),
            r is None ==> handle_of(self@, path@) is None,
    {
        match self.find(path) {
            Some(i) => Some(&self.entries[i].1),
            None => None,
        }
    }

    /// The handle kept for `path`; when there is none, the one `create` makes,
    /// which is kept from then on. `create` is called only when there is none,
    /// and its error is handed back unchanged.
    pub fn get_or_create<E, F: FnOnce(&str) -> Result<H, E>>(&mut self, path: &str, create: F) -> (r: Result<&H, E>)
        requires
            distinct_paths(old(self)@),
            create.requires((path,)),
        ensures
            distinct_paths(final(self)@),
            handle_of(old(self)@, path@) matches Some(h) ==> r is Ok && *r->Ok_0 == h && final(self)@ == old(self)@,
            handle_of(old(self)@, path@) is None ==> match r {
                Ok(h) => create.ensures((path,), Ok::<H, E>(*h)) && final(self)@ == old(self)@.push((path@, *h))
                    && handle_of(final(self)@, path@) == Some(*h),
                Err(e) => create.ensures((path,), Err::<H, E>(e)) && final(self)@ == old(self)@,
            },
    {
        match self.find(path) {
            Some(i) => Ok(&self.entries[i].1),
            None => {
                let made = create(path);
                match made {
                    Ok(h) => {
                        let ghost before = self@;
                        let n = self.entries.len();
                        self.entries.push((path.to_owned(), h));
                        proof {
                            assert(self@ =~= before.push((path@, self.entries@[n as int].1)));
                            assert(self@[n as int].0 == path@);
                            assert forall|a: int, b: int| 0 <= a < b < self@.len() implies #[trigger] self@[a].0
                                != #[trigger] self@[b].0 by {
                                if b == n {
                                    assert(self@[a] == before[a]);
                                }
                            }
                            let j = choose|j: int| 0 <= j < self@.len() && #[trigger] self@[j].0 == path@;
                            if j < n {
                                assert(before[j].0 == path@);
                            }
                        }
                        Ok(&self.entries[n].1)
                    },
                    Err(e) => Err(e),
                }
            },
        }
    }

    /// Stops keeping the handle for `path`; says whether there was one.
    pub fn try_close(&mut self, path: &str) -> (r: bool)
        requires
            distinct_paths(old(self)@),
        ensures
            distinct_paths(final(self)@),
            r == handle_of(old(self)@, path@) is Some,
            handle_of(final(self)@, path@) is None,
            forall|q: Seq<char>| q != path@ ==> #[trigger] handle_of(final(self)@, q) == handle_of(old(self)@, q),
    {
        match self.find(path) {
            None => false,
            Some(i) => {
                let ghost before = self@;
                self.entries.remove(i);
                proof {
                    assert(self@ =~= before.remove(i as int));
                    assert forall|a: int, b: int| 0 <= a < b < self@.len() implies #[trigger] self@[a].0
                        != #[trigger] self@[b].0 by {
                        let ia = if a < i { a } else { a + 1 };
                        let ib = if b < i { b } else { b + 1 };
                        assert(before[ia].0 != before[ib].0);
                    }
                    if exists|j: int| 0 <= j < self@.len() && #[trigger] self@[j].0 == path@ {
                        let j = choose|j: int| 0 <= j < self@.len() && #[trigger] self@[j].0 == path@;
                        let ij = if j < i { j } else { j + 1 };
                        assert(before[ij].0 == path@);
                        if ij < i {
                            assert(before[ij].0 != before[i as int].0);
                        } else {
                            assert(before[i as int].0 != before[ij].0);
                        }
                    }
                    assert forall|q: Seq<char>| q != path@ implies #[trigger] handle_of(self@, q) == handle_of(
                        before,
                        q,
                    ) by {
                        if exists|j: int| 0 <= j < self@.len() && #[trigger] self@[j].0 == q {
                            let j = choose|j: int| 0 <= j < self@.len() && #[trigger] self@[j].0 == q;
                            let ij = if j < i { j } else { j + 1 };
                            assert(before[ij] == self@[j]);
                            let k = choose|k: int| 0 <= k < before.len() && #[trigger] before[k].0 == q;
                            if k != ij {
                                if k < ij {
                                    assert(before[k].0 != before[ij].0);
                                } else {
                                    assert(before[ij].0 != before[k].0);
                                }
                            }
                        }
                        if exists|k: int| 0 <= k < before.len() && #[trigger] before[k].0 == q {
                            let k = choose|k: int| 0 <= k < before.len() && #[trigger] before[k].0 == q;
                            assert(k != i);
                            let jk = if k < i { k } else { k - 1 };
                            assert(self@[jk] == before[k]);
                        }
                    }
                }
                true
            },
        }
    }

    /// Stops keeping every handle.
    pub fn try_close_all(&mut self)
        ensures
            final(self)@.len() == 0,
            distinct_paths(final(self)@),
    {
        self.entries.clear();
        assert(self@ =~= Seq::<(Seq<char>, H)>::empty());
    }
}

/// Uniqueness: once `get_or_create` has kept a handle for a path, every
/// later call for that path returns that same handle and keeps nothing new.
pub proof fn lemma_manager_unique<H>(m: Seq<(Seq<char>, H)>, path: Seq<char>, h: H)
    requires
        distinct_paths(m),
        handle_of(m, path) is None,
    ensures
        handle_of(m.push((path, h)), path) == Some(h),
        distinct_paths(m.push((path, h))),
{
    let n = m.len() as int;
    let m2 = m.push((path, h));
    assert(m2[n].0 == path);
    assert forall|a: int, b: int| 0 <= a < b < m2.len() implies #[trigger] m2[a].0 != #[trigger] m2[b].0 by {
        if b == n {
            assert(m2[a] == m[a]);
        } else {
            assert(m2[a] == m[a] && m2[b] == m[b]);
        }
    }
    let j = choose|j: int| 0 <= j < m2.len() && #[trigger] m2[j].0 == path;
    if j < n {
        assert(m[j].0 == path);
    }
}

} // verus!
