use vstd::prelude::*;

verus! {

/// What `entries` maps `key` to: the value of its last entry with that key.
pub closed spec fn lookup(entries: Seq<(String, String)>, key: Seq<char>) -> Option<Seq<char>>
    decreases entries.len(),
{
    if entries.len() == 0 {
        None
    } else if entries.last().0@ == key {
        Some(entries.last().1@)
    } else {
        lookup(entries.drop_last(), key)
    }
}

/// One row of a query result: a mapping from column names to string values.
pub struct Row {
    entries: Vec<(String, String)>,
}

impl View for Row {
    type V = Map<Seq<char>, Seq<char>>;

    closed spec fn view(&self) -> Map<Seq<char>, Seq<char>> {
        Map::new(
            |k: Seq<char>| lookup(self.entries@, k) is Some,
            |k: Seq<char>| lookup(self.entries@, k)->0,
        )
    }
}

impl Row {
    /// An empty row.
    pub fn new() -> (r: Row)
        ensures
            r@ == Map::<Seq<char>, Seq<char>>::empty(),
    {
        let r = Row { entries: Vec::new() };
        assert(r@ =~= Map::<Seq<char>, Seq<char>>::empty());
        r
    }

    /// Maps `key` to `value`, replacing what `key` was mapped to before.
    pub fn insert(&mut self, key: String, value: String)
        ensures
            final(self)@ == old(self)@.insert(key@, value@),
    {
        let ghost before = self.entries@;
        self.entries.push((key, value));
        proof {
            assert(self.entries@.drop_last() =~= before);
        }
        assert(self@ =~= old(self)@.insert(key@, value@));
    }

    /// The index of the last entry whose key is `key`, if any.
    fn find(&self, key: &String) -> (r: Option<usize>)
        ensures
            match r {
                Some(i) => i < self.entries@.len() && self.entries@[i as int].0@ == key@
                    && lookup(self.entries@, key@) == Some(self.entries@[i as int].1@),
                None => lookup(self.entries@, key@) is None,
            },
    {
        let mut i: usize = self.entries.len();
        assert(self.entries@.take(i as int) =~= self.entries@);
        while i > 0
            invariant
                i <= self.entries@.len(),
                lookup(self.entries@, key@) == lookup(self.entries@.take(i as int), key@),
            decreases i,
        {
            proof {
                assert(self.entries@.take(i as int).drop_last() =~= self.entries@.take(i - 1));
            }
            if self.entries[i - 1].0 == *key {
                return Some(i - 1);
            }
            i = i - 1;
        }
        None
    }

    /// Whether the row holds a value for `key`.
    pub fn contains_key(&self, key: &String) -> (r: bool)
        ensures
            r == self@.contains_key(key@),
    {
        self.find(key).is_some()
    }

    /// The value that the row holds for `key`.
    pub fn get(&self, key: &String) -> (r: Option<&String>)
        ensures
            r is Some == self@.contains_key(key@),
            r is Some ==> r->0@ == self@[key@],
    {
        match self.find(key) {
            Some(i) => Some(&self.entries[i].1),
            None => None,
        }
    }
}

} // verus!
