use vstd::prelude::*;
use vstd::string::StringExecFns;
use crate::cfa::str_eq;
use crate::error::Error;

verus! {

/// Named option values, each name at most once. They are kept as a vector of
/// pairs: vstd specifies no lookup in a map keyed by `String`, so with such a
/// map the contracts of `get_opt` and `insert` could not be proved.
pub struct OptionsStorage {
    entries: Vec<(String, String)>,
}

/// Message of the error for a missing option.
pub open spec fn missing_option_message(key: Seq<char>) -> Seq<char> {
    "please specify "@ + key + " as an option, since it is needed"@
}

impl OptionsStorage {
    #[verifier::type_invariant]
    spec fn inv(self) -> bool {
        forall|i: int, j: int|
            0 <= i < j < self.entries@.len() ==> #[trigger] self.entries@[i].0@
                != #[trigger] self.entries@[j].0@
    }

    /// The options as a map from name to value.
    pub closed spec fn view(&self) -> Map<Seq<char>, Seq<char>> {
        Map::new(
            |k: Seq<char>| exists|i: int| 0 <= i < self.entries@.len() && self.entries@[i].0@ == k,
            |k: Seq<char>|
                self.entries@[choose|i: int|
                    0 <= i < self.entries@.len() && self.entries@[i].0@ == k].1@,
        )
    }

    pub fn new() -> (o: Self)
        ensures
            o@ == Map::<Seq<char>, Seq<char>>::empty(),
    {
        let o = OptionsStorage { entries: Vec::new() };
        proof {
            assert(o@ =~= Map::<Seq<char>, Seq<char>>::empty());
        }
        o
    }

    /// Position of `key`, if it is present.
    fn find(&self, key: &str) -> (r: Option<usize>)
        ensures
            r matches Some(i) ==> i < self.entries@.len() && self.entries@[i as int].0@ == key@,
            r is None ==> forall|i: int| 0 <= i < self.entries@.len() ==> self.entries@[i].0@ != key@,
    {
        let mut i: usize = 0;
        while i < self.entries.len()
            invariant
                i <= self.entries@.len(),
                forall|j: int| 0 <= j < i ==> self.entries@[j].0@ != key@,
            decreases self.entries.len() - i,
        {
            if str_eq(self.entries[i].0.as_str(), key) {
                return Some(i);
            }
            i = i + 1;
        }
        None
    }

    /// Sets option `key` to `value`, replacing an earlier value.
    pub fn insert(&mut self, key: String, value: String)
        ensures
            final(self)@ == old(self)@.insert(key@, value@),
    {
        proof {
            use_type_invariant(&*self);
        }
        let found = self.find(key.as_str());
        let mut entries: Vec<(String, String)> = Vec::new();
        std::mem::swap(&mut entries, &mut self.entries);
        let ghost old_entries = entries@;
        match found {
            Some(i) => {
                entries.set(i, (key, value));
            },
            None => {
                entries.push((key, value));
            },
        }
        proof {
            assert forall|a: int, b: int|
                0 <= a < b < entries@.len() implies #[trigger] entries@[a].0@
                != #[trigger] entries@[b].0@ by {
                if found is None && b == old_entries.len() {
                    assert(old_entries[a].0@ != key@);
                }
            }
        }
        self.entries = entries;
        proof {
            let m = old(self)@.insert(key@, value@);
            assert forall|k: Seq<char>| #[trigger] self@.contains_key(k) <==> m.contains_key(k) by {
                if m.contains_key(k) && k != key@ {
                    let j = choose|j: int|
                        0 <= j < old_entries.len() && old_entries[j].0@ == k;
                    assert(self.entries@[j].0@ == k);
                }
                if k == key@ {
                    match found {
                        Some(i) => assert(self.entries@[i as int].0@ == k),
                        None => assert(self.entries@[old_entries.len() as int].0@ == k),
                    }
                }
            }
            assert forall|k: Seq<char>| #[trigger] self@.contains_key(k) implies self@[k] == m[k] by {
                let j = choose|j: int| 0 <= j < self.entries@.len() && self.entries@[j].0@ == k;
                if k != key@ {
                    let jo = choose|jo: int|
                        0 <= jo < old_entries.len() && old_entries[jo].0@ == k;
                    assert(self.entries@[jo].0@ == k);
                    assert(j == jo);
                }
            }
            assert(self@ =~= m);
        }
    }

    /// The value of `key`, or an error naming it when it is missing.
    pub fn get_opt(&self, key: &str) -> (r: Result<String, Error>)
        ensures
            self@.contains_key(key@) ==> (r matches Ok(v) && v@ == self@[key@]),
            !self@.contains_key(key@) ==> (r matches Err(e) && e.spec_message()
                == missing_option_message(key@)),
    {
        proof {
            use_type_invariant(self);
        }
        match self.find(key) {
            Some(i) => {
                proof {
                    self.lemma_lookup(i as int);
                }
                Ok(self.entries[i].1.clone())
            },
            None => {
                let mut m = String::from_str("please specify ");
                m.append(key);
                m.append(" as an option, since it is needed");
                Error::error(m)
            },
        }
    }

    /// The value of `key`, or `alternative` when it is missing.
    pub fn get_opt_or(&self, key: &str, alternative: &str) -> (r: String)
        ensures
            r@ == if self@.contains_key(key@) {
                self@[key@]
            } else {
                alternative@
            },
    {
        proof {
            use_type_invariant(self);
        }
        match self.find(key) {
            Some(i) => {
                proof {
                    self.lemma_lookup(i as int);
                }
                self.entries[i].1.clone()
            },
            None => String::from_str(alternative),
        }
    }

    pub fn is_present(&self, key: &str) -> (r: bool)
        ensures
            r == self@.contains_key(key@),
    {
        match self.find(key) {
            Some(i) => true,
            None => false,
        }
    }

    proof fn lemma_lookup(&self, i: int)
        requires
            0 <= i < self.entries@.len(),
            forall|a: int, b: int|
                0 <= a < b < self.entries@.len() ==> #[trigger] self.entries@[a].0@
                    != #[trigger] self.entries@[b].0@,
        ensures
            self@.contains_key(self.entries@[i].0@),
            self@[self.entries@[i].0@] == self.entries@[i].1@,
    {
        let k = self.entries@[i].0@;
        let j = choose|j: int| 0 <= j < self.entries@.len() && self.entries@[j].0@ == k;
        assert(j == i);
    }
}

/// Reading an option gives back what was last inserted under its name, and
/// inserting leaves the other options as they were.
pub proof fn lemma_get_after_insert(
    options: Map<Seq<char>, Seq<char>>,
    key: Seq<char>,
    value: Seq<char>,
    other: Seq<char>,
)
    ensures
        options.insert(key, value).contains_key(key),
        options.insert(key, value)[key] == value,
        other != key ==> options.insert(key, value).contains_key(other) == options.contains_key(
            other,
        ),
        other != key && options.contains_key(other) ==> options.insert(key, value)[other]
            == options[other],
{
}

} // verus!
