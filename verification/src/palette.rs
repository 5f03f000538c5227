//! The palette: block names and the dense ids that stand for them in chunk arrays.
//!
//! Ids are handed out in the order in which names are first seen, starting at 0.
//! A name keeps its id for good: nothing is ever removed or renumbered.

use vstd::hash_map::StringHashMap;
use vstd::prelude::*;
use vstd::string::StringExecFns;

verus! {

/// The palette that results from looking `name` up in `names`: unchanged where
/// the name is known, with the name added at the end where it is new.
pub open spec fn with_name(names: Seq<Seq<char>>, name: Seq<char>) -> Seq<Seq<char>> {
    if names.contains(name) {
        names
    } else {
        names.push(name)
    }
}

/// The id of `name` in a palette that holds it.
pub open spec fn id_of(names: Seq<Seq<char>>, name: Seq<char>) -> int {
    names.index_of(name)
}

/// In a palette without repeats, a name found at position `i` has the id `i`.
pub proof fn lemma_id_at(names: Seq<Seq<char>>, i: int)
    requires
        names.no_duplicates(),
        0 <= i < names.len(),
    ensures
        names.contains(names[i]),
        id_of(names, names[i]) == i,
{
}

/// Looking a name up keeps the palette free of repeats, makes the name known,
/// gives it an id inside the palette, and changes no id handed out before.
pub proof fn lemma_with_name(names: Seq<Seq<char>>, name: Seq<char>)
    requires
        names.no_duplicates(),
    ensures
        with_name(names, name).no_duplicates(),
        with_name(names, name).contains(name),
        0 <= id_of(with_name(names, name), name) < with_name(names, name).len(),
        !names.contains(name) ==> id_of(with_name(names, name), name) == names.len(),
        forall|other: Seq<char>| #[trigger]
            names.contains(other) ==> with_name(names, name).contains(other) && id_of(
                with_name(names, name),
                other,
            ) == id_of(names, other),
{
    let after = with_name(names, name);
    if names.contains(name) {
        let i = names.index_of(name);
        assert(after[i] == name);
    } else {
        assert(after[names.len() as int] == name);
        lemma_id_at(after, names.len() as int);
    }
    assert forall|other: Seq<char>| #[trigger] names.contains(other) implies after.contains(other)
        && id_of(after, other) == id_of(names, other) by {
        let i = names.index_of(other);
        assert(after[i] == other);
        lemma_id_at(after, i);
    }
}

/// Block names with their ids. The view is the sequence of names, each at the
/// position that is its id.
pub struct Palette {
    names: Vec<String>,
    index: StringHashMap<usize>,
}

impl View for Palette {
    type V = Seq<Seq<char>>;

    closed spec fn view(&self) -> Seq<Seq<char>> {
        self.names@.map_values(|s: String| s@)
    }
}

impl Palette {
    /// The lookup table and the list of names describe the same assignment.
    pub closed spec fn wf(&self) -> bool {
        &&& forall|i: int|
            0 <= i < self.names@.len() ==> self.index@.contains_key(#[trigger] self.names@[i]@)
                && self.index@[self.names@[i]@] == i
        &&& forall|n: Seq<char>| #[trigger]
            self.index@.contains_key(n) ==> self.index@[n] < self.names@.len()
                && self.names@[self.index@[n] as int]@ == n
    }

    /// A well-formed palette holds no name twice.
    pub proof fn lemma_distinct(&self)
        requires
            self.wf(),
        ensures
            self@.no_duplicates(),
    {
        assert forall|i: int, j: int|
            0 <= i < self@.len() && 0 <= j < self@.len() && i != j implies self@[i] != self@[j] by {
            assert(self@[i] == self.names@[i]@);
            assert(self@[j] == self.names@[j]@);
        }
    }

    proof fn lemma_known(&self, name: Seq<char>)
        requires
            self.wf(),
        ensures
            self@.contains(name) == self.index@.contains_key(name),
            self.index@.contains_key(name) ==> id_of(self@, name) == self.index@[name],
    {
        self.lemma_distinct();
        if self.index@.contains_key(name) {
            let i = self.index@[name] as int;
            assert(self@[i] == self.names@[i]@);
            lemma_id_at(self@, i);
        }
        if self@.contains(name) {
            let i = self@.index_of(name);
            assert(self@[i] == self.names@[i]@);
        }
    }

    /// The empty palette.
    pub fn new() -> (p: Palette)
        ensures
            p.wf(),
            p@ == Seq::<Seq<char>>::empty(),
    {
        let p = Palette { names: Vec::new(), index: StringHashMap::new() };
        assert(p@ =~= Seq::<Seq<char>>::empty());
        p
    }

    /// Number of names.
    pub fn len(&self) -> (n: usize)
        ensures
            n == self@.len(),
    {
        self.names.len()
    }

    /// The name that `id` stands for, if it stands for one.
    pub fn name(&self, id: usize) -> (name: Option<&String>)
        ensures
            match name {
                Some(s) => id < self@.len() && s@ == self@[id as int],
                None => id >= self@.len(),
            },
    {
        if id < self.names.len() {
            Some(&self.names[id])
        } else {
            None
        }
    }

    /// The id of `name`, if the palette holds it.
    pub fn lookup(&self, name: &str) -> (id: Option<usize>)
        requires
            self.wf(),
        ensures
            self@.contains(name@) ==> id == Some(id_of(self@, name@) as usize),
            !self@.contains(name@) ==> id is None,
    {
        proof {
            self.lemma_known(name@);
        }
        match self.index.get(name) {
            Some(id) => Some(*id),
            None => None,
        }
    }

    /// The id of `name`, which is added at the end of the palette if it is new.
    pub fn get_or_create(&mut self, name: &str) -> (id: usize)
        requires
            old(self).wf(),
        ensures
            final(self).wf(),
            final(self)@ == with_name(old(self)@, name@),
            id == id_of(final(self)@, name@),
            id < final(self)@.len(),
    {
        proof {
            self.lemma_known(name@);
            self.lemma_distinct();
            lemma_with_name(self@, name@);
        }
        match self.index.get(name) {
            Some(id) => *id,
            None => {
                let id: usize = self.names.len();
                let ghost before = *self;
                self.names.push(String::from_str(name));
                self.index.insert(String::from_str(name), id);
                proof {
                    assert(self@ =~= before@.push(name@));
                    assert forall|n: Seq<char>| #[trigger]
                        self.index@.contains_key(n) implies self.index@[n] < self.names@.len()
                        && self.names@[self.index@[n] as int]@ == n by {
                        if n != name@ {
                            assert(before.index@.contains_key(n));
                        }
                    }
                }
                id
            },
        }
    }
}

} // verus!
