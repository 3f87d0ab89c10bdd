//! Session registry: the one shared mapping from session identifier to
//! live session.
//!
//! The registry itself is a sequential structure; the surrounding
//! process wraps it in a lock and keeps every critical section to the
//! O(n) bookkeeping here, releasing the lock before any blocking I/O on
//! the handles it hands out.

use vstd::prelude::*;

use crate::strutil::str_eq;

verus! {

struct RegistryEntry<T> {
    id: String,
    session: T,
}

/// A mapping from session identifier to session, with one entry per
/// identifier. `T` is whatever the caller stores per session (shared
/// handles to the terminal, a shutdown switch).
pub struct SessionRegistry<T> {
    entries: Vec<RegistryEntry<T>>,
}

spec fn entries_map<T>(s: Seq<RegistryEntry<T>>) -> Map<Seq<char>, T>
    decreases s.len(),
{
    if s.len() == 0 {
        Map::empty()
    } else {
        entries_map(s.drop_last()).insert(s.last().id@, s.last().session)
    }
}

spec fn distinct_ids<T>(s: Seq<RegistryEntry<T>>) -> bool {
    forall|i: int, j: int| 0 <= i < j < s.len() ==> s[i].id@ != s[j].id@
}

proof fn lemma_entries_map_keys<T>(s: Seq<RegistryEntry<T>>)
    ensures
        forall|k: Seq<char>| #[trigger] entries_map(s).contains_key(k) ==> exists|i: int|
            0 <= i < s.len() && s[i].id@ == k,
        forall|i: int| 0 <= i < s.len() ==> entries_map(s).contains_key(#[trigger] s[i].id@),
    decreases s.len(),
{
    if s.len() > 0 {
        lemma_entries_map_keys(s.drop_last());
        assert forall|i: int| 0 <= i < s.len() implies entries_map(s).contains_key(
            #[trigger] s[i].id@,
        ) by {
            if i < s.len() - 1 {
                assert(s.drop_last()[i] == s[i]);
                assert(entries_map(s.drop_last()).contains_key(s[i].id@));
            }
        }
        assert forall|k: Seq<char>| #[trigger] entries_map(s).contains_key(k) implies exists|i: int|
            0 <= i < s.len() && s[i].id@ == k by {
            if k != s.last().id@ {
                assert(entries_map(s.drop_last()).contains_key(k));
                let i = choose|i: int| 0 <= i < s.drop_last().len() && s.drop_last()[i].id@ == k;
                assert(s[i] == s.drop_last()[i]);
            } else {
                assert(s[s.len() - 1].id@ == k);
            }
        }
    }
}

proof fn lemma_entries_map_at<T>(s: Seq<RegistryEntry<T>>, i: int)
    requires
        distinct_ids(s),
        0 <= i < s.len(),
    ensures
        entries_map(s).contains_key(s[i].id@),
        entries_map(s)[s[i].id@] == s[i].session,
    decreases s.len(),
{
    if i == s.len() - 1 {
    } else {
        assert(s[i].id@ != s.last().id@);
        assert(s.drop_last()[i] == s[i]);
        lemma_entries_map_at(s.drop_last(), i);
    }
}

proof fn lemma_entries_map_remove<T>(s: Seq<RegistryEntry<T>>, i: int)
    requires
        distinct_ids(s),
        0 <= i < s.len(),
    ensures
        distinct_ids(s.remove(i)),
        entries_map(s.remove(i)) == entries_map(s).remove(s[i].id@),
    decreases s.len(),
{
    lemma_entries_map_keys(s.drop_last());
    if i == s.len() - 1 {
        assert(s.remove(i) =~= s.drop_last());
        assert(!entries_map(s.drop_last()).contains_key(s[i].id@));
        assert(entries_map(s.drop_last()) =~= entries_map(s.drop_last()).insert(
            s.last().id@,
            s.last().session,
        ).remove(s[i].id@));
    } else {
        let dl = s.drop_last();
        lemma_entries_map_remove(dl, i);
        assert(s.remove(i).drop_last() =~= dl.remove(i));
        assert(s.remove(i).last() == s.last());
        assert(entries_map(s.remove(i)) == entries_map(dl.remove(i)).insert(
            s.last().id@,
            s.last().session,
        ));
        assert(s[i].id@ != s.last().id@);
        assert(entries_map(dl).remove(s[i].id@).insert(s.last().id@, s.last().session)
            =~= entries_map(dl).insert(s.last().id@, s.last().session).remove(s[i].id@));
    }
}

impl<T> SessionRegistry<T> {
    /// Every identifier names at most one entry.
    pub closed spec fn wf(&self) -> bool {
        distinct_ids(self.entries@)
    }

    /// An empty registry.
    pub fn new() -> (r: Self)
        ensures
            r.wf(),
            r@ == Map::<Seq<char>, T>::empty(),
    {
        SessionRegistry { entries: Vec::new() }
    }

    /// The index of the entry for `id`, if one exists.
    fn find_index(&self, id: &str) -> (r: Option<usize>)
        ensures
            r matches Some(i) ==> i < self.entries@.len() && self.entries@[i as int].id@ == id@,
            r is None ==> forall|j: int|
                0 <= j < self.entries@.len() ==> self.entries@[j].id@ != id@,
    {
        let n = self.entries.len();
        let mut i: usize = 0;
        while i < n
            invariant
                i <= n,
                n == self.entries@.len(),
                forall|j: int| 0 <= j < i ==> self.entries@[j].id@ != id@,
            decreases n - i,
        {
            if str_eq(self.entries[i].id.as_str(), id) {
                return Some(i);
            }
            i += 1;
        }
        None
    }

    /// Looks the session for `id` up without touching anything else.
    pub fn get(&self, id: &str) -> (r: Option<&T>)
        requires
            self.wf(),
        ensures
            r is Some <==> self@.contains_key(id@),
            r matches Some(t) ==> *t == self@[id@],
    {
        match self.find_index(id) {
            Some(i) => {
                proof {
                    lemma_entries_map_at(self.entries@, i as int);
                }
                Some(&self.entries[i].session)
            },
            None => {
                proof {
                    lemma_entries_map_keys(self.entries@);
                }
                None
            },
        }
    }

    /// Registers a session under `id`, replacing any previous entry for
    /// the same identifier. Every other entry is untouched.
    pub fn insert(&mut self, id: &str, session: T)
        requires
            old(self).wf(),
        ensures
            final(self).wf(),
            final(self)@ == old(self)@.insert(id@, session),
    {
        let _ = self.remove(id);
        let ghost before = self.entries@;
        proof {
            lemma_entries_map_keys(before);
            assert(forall|j: int| 0 <= j < before.len() ==> #[trigger] before[j].id@ != id@);
        }
        self.entries.push(RegistryEntry { id: id.to_owned(), session });
        proof {
            let s = self.entries@;
            assert(s.drop_last() =~= before);
            assert(entries_map(s) == entries_map(before).insert(id@, session));
            assert(old(self)@.remove(id@).insert(id@, session) =~= old(self)@.insert(id@, session));
            assert(forall|j: int| 0 <= j < before.len() ==> #[trigger] s[j] == before[j]);
        }
    }

    /// Removes and returns the session for `id`; every other entry is
    /// untouched.
    pub fn remove(&mut self, id: &str) -> (r: Option<T>)
        requires
            old(self).wf(),
        ensures
            final(self).wf(),
            final(self)@ == old(self)@.remove(id@),
            r is Some <==> old(self)@.contains_key(id@),
            r matches Some(t) ==> t == old(self)@[id@],
    {
        match self.find_index(id) {
            Some(i) => {
                proof {
                    lemma_entries_map_at(self.entries@, i as int);
                    lemma_entries_map_remove(self.entries@, i as int);
                }
                let entry = self.entries.remove(i);
                Some(entry.session)
            },
            None => {
                proof {
                    lemma_entries_map_keys(self.entries@);
                    assert(!old(self)@.contains_key(id@));
                    assert(old(self)@.remove(id@) =~= old(self)@);
                }
                None
            },
        }
    }
}

impl<T> View for SessionRegistry<T> {
    type V = Map<Seq<char>, T>;

    closed spec fn view(&self) -> Map<Seq<char>, T> {
        entries_map(self.entries@)
    }
}

/// Law: closing a session and then creating a new one under the same
/// identifier leaves exactly the fresh session there, with no state from
/// the old one.
pub proof fn lemma_identifier_reuse_clean<T>(m: Map<Seq<char>, T>, id: Seq<char>, fresh: T)
    ensures
        m.remove(id).insert(id, fresh) == m.insert(id, fresh),
        m.remove(id).insert(id, fresh)[id] == fresh,
{
    assert(m.remove(id).insert(id, fresh) =~= m.insert(id, fresh));
}

/// Law: registering or removing one session leaves every other
/// identifier bound exactly as before.
pub proof fn lemma_sessions_isolated<T>(
    m: Map<Seq<char>, T>,
    id: Seq<char>,
    session: T,
    other: Seq<char>,
)
    requires
        other != id,
    ensures
        m.insert(id, session).contains_key(other) == m.contains_key(other),
        m.contains_key(other) ==> m.insert(id, session)[other] == m[other],
        m.remove(id).contains_key(other) == m.contains_key(other),
        m.contains_key(other) ==> m.remove(id)[other] == m[other],
{
}

} // verus!
