//! Ordered lists of named text values.
//!
//! Path parameters, query and form values, headers and cookies are all kept
//! the same way: as name/value pairs in the order in which they arrived.
//! Looking a name up gives the value of the first pair that carries it.

use vstd::prelude::*;
use vstd::string::*;

verus! {

/// One named value.
#[derive(Debug)]
pub struct Field {
    pub name: String,
    pub value: String,
}

/// An ordered list of named values.
#[derive(Debug)]
pub struct Fields {
    pub entries: Vec<Field>,
}

/// A list of named values as plain text: name first, value second.
pub type Pairs = Seq<(Seq<char>, Seq<char>)>;

/// The value paired with the first occurrence of `name`, if there is one.
pub open spec fn lookup(pairs: Pairs, name: Seq<char>) -> Option<Seq<char>>
    decreases pairs.len(),
{
    if pairs.len() == 0 {
        None
    } else if pairs[0].0 == name {
        Some(pairs[0].1)
    } else {
        lookup(pairs.skip(1), name)
    }
}

/// Some pair in `pairs` carries `name`.
pub open spec fn has_name(pairs: Pairs, name: Seq<char>) -> bool {
    exists|k: int| 0 <= k < pairs.len() && (#[trigger] pairs[k]).0 == name
}

/// A lookup finds something exactly for the names that occur.
pub proof fn lemma_lookup_some(pairs: Pairs, name: Seq<char>)
    ensures
        lookup(pairs, name) is Some <==> has_name(pairs, name),
    decreases pairs.len(),
{
    if pairs.len() > 0 && pairs[0].0 != name {
        let rest = pairs.skip(1);
        lemma_lookup_some(rest, name);
        if has_name(pairs, name) {
            let k = choose|k: int| 0 <= k < pairs.len() && (#[trigger] pairs[k]).0 == name;
            assert(rest[k - 1] == pairs[k]);
        }
    }
}

impl View for Field {
    type V = (Seq<char>, Seq<char>);

    open spec fn view(&self) -> (Seq<char>, Seq<char>) {
        (self.name@, self.value@)
    }
}

impl View for Fields {
    type V = Pairs;

    open spec fn view(&self) -> Pairs {
        Seq::new(self.entries@.len(), |i: int| self.entries@[i]@)
    }
}

impl Fields {
    /// The value that a lookup of `name` gives.
    pub open spec fn spec_get(&self, name: Seq<char>) -> Option<Seq<char>> {
        lookup(self@, name)
    }

    /// An empty list.
    pub fn new() -> (out: Fields)
        ensures
            out@ == Pairs::empty(),
    {
        Fields { entries: Vec::new() }
    }

    /// The number of pairs.
    pub fn len(&self) -> (n: usize)
        ensures
            n == self@.len(),
    {
        self.entries.len()
    }

    /// Whether the list holds no pair.
    pub fn is_empty(&self) -> (b: bool)
        ensures
            b == (self@.len() == 0),
    {
        self.entries.len() == 0
    }

    /// Adds a pair behind those already there.
    pub fn push(&mut self, name: &str, value: &str)
        ensures
            final(self)@ == old(self)@.push((name@, value@)),
    {
        self.entries.push(Field { name: name.to_owned(), value: value.to_owned() });
    }

    /// Adds a pair of owned texts behind those already there.
    pub fn push_owned(&mut self, name: String, value: String)
        ensures
            final(self)@ == old(self)@.push((name@, value@)),
    {
        self.entries.push(Field { name, value });
    }

    /// The value of the first pair named `name`.
    pub fn get(&self, name: &str) -> (found: Option<&str>)
        ensures
            match found {
                Some(v) => self.spec_get(name@) == Some(v@),
                None => self.spec_get(name@) is None,
            },
    {
        let key = name.to_owned();
        let mut i: usize = 0;
        assert(self@.skip(0) =~= self@);
        while i < self.entries.len()
            invariant
                i <= self.entries.len(),
                key@ == name@,
                lookup(self@, name@) == lookup(self@.skip(i as int), name@),
            decreases self.entries.len() - i,
        {
            if self.entries[i].name == key {
                return Some(self.entries[i].value.as_str());
            }
            assert(self@.skip(i as int).skip(1) =~= self@.skip(i + 1));
            i += 1;
        }
        None
    }

    /// Whether some pair is named `name`.
    pub fn contains(&self, name: &str) -> (b: bool)
        ensures
            b == has_name(self@, name@),
    {
        proof {
            lemma_lookup_some(self@, name@);
        }
        self.get(name).is_some()
    }

    /// A copy of the list.
    pub fn duplicate(&self) -> (out: Fields)
        ensures
            out@ == self@,
    {
        let mut out = Fields { entries: Vec::new() };
        let mut i: usize = 0;
        while i < self.entries.len()
            invariant
                i <= self.entries.len(),
                out@ == self@.take(i as int),
            decreases self.entries.len() - i,
        {
            let ghost before = out@;
            out.entries.push(
                Field { name: self.entries[i].name.clone(), value: self.entries[i].value.clone() },
            );
            assert(out@ =~= before.push(self@[i as int]));
            i += 1;
        }
        out
    }
}

} // verus!
