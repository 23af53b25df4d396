use vstd::prelude::*;
use crate::text::{chars_of, push_range, string_of};

verus! {

/// One variable: a name and its value.
pub struct Binding {
    pub name: Vec<char>,
    pub value: Vec<char>,
}

/// The mapping that a list of bindings stands for: a later binding of a name hides an earlier one.
pub open spec fn bindings_map(s: Seq<Binding>) -> Map<Seq<char>, Seq<char>>
    decreases s.len(),
{
    if s.len() == 0 {
        Map::empty()
    } else {
        bindings_map(s.drop_last()).insert(s.last().name@, s.last().value@)
    }
}

/// A variable scope: a mapping from names to values. Deriving a scope copies it, so
/// that a child scope never changes the one it was made from.
pub struct Scope {
    pub bindings: Vec<Binding>,
}

impl View for Scope {
    type V = Map<Seq<char>, Seq<char>>;

    open spec fn view(&self) -> Map<Seq<char>, Seq<char>> {
        bindings_map(self.bindings@)
    }
}

/// A name that no binding after position `i` holds is bound, if at all, by a binding up to `i`.
proof fn lemma_map_prefix(s: Seq<Binding>, i: int, k: Seq<char>)
    requires
        0 <= i <= s.len(),
        forall|j: int| i <= j < s.len() ==> s[j].name@ != k,
    ensures
        bindings_map(s).contains_key(k) == bindings_map(s.subrange(0, i)).contains_key(k),
        bindings_map(s)[k] == bindings_map(s.subrange(0, i))[k],
    decreases s.len() - i,
{
    if i < s.len() {
        assert(s.drop_last() =~= s.subrange(0, s.len() - 1));
        lemma_map_prefix(s.drop_last(), i, k);
        assert(s.drop_last().subrange(0, i) =~= s.subrange(0, i));
    } else {
        assert(s.subrange(0, i) =~= s);
    }
}

impl Scope {
    /// The empty scope.
    pub fn new() -> (r: Scope)
        ensures
            r@ == Map::<Seq<char>, Seq<char>>::empty(),
    {
        Scope { bindings: Vec::new() }
    }

    /// Binds `name` to `value`, hiding any earlier value of `name`.
    pub fn set(&mut self, name: Vec<char>, value: Vec<char>)
        ensures
            final(self)@ == old(self)@.insert(name@, value@),
    {
        self.bindings.push(Binding { name, value });
        proof {
            assert(self.bindings@.drop_last() =~= old(self).bindings@);
        }
    }

    /// Binds `name` to `value`, hiding any earlier value of `name`.
    pub fn insert(&mut self, name: &str, value: &str)
        ensures
            final(self)@ == old(self)@.insert(name@, value@),
    {
        self.set(chars_of(name), chars_of(value));
    }

    /// The value bound to `name`, if any.
    pub fn lookup(&self, name: &Vec<char>) -> (r: Option<&Vec<char>>)
        ensures
            match r {
                Some(v) => self@.contains_key(name@) && v@ == self@[name@],
                None => !self@.contains_key(name@),
            },
    {
        let mut i = self.bindings.len();
        while i > 0
            invariant
                i <= self.bindings@.len(),
                forall|j: int| i <= j < self.bindings@.len() ==> self.bindings@[j].name@ != name@,
            decreases i,
        {
            let b = &self.bindings[i - 1];
            if eq_chars(&b.name, name) {
                proof {
                    lemma_map_prefix(self.bindings@, i as int, name@);
                    assert(self.bindings@.subrange(0, i as int).drop_last() =~= self.bindings@.subrange(0, i - 1));
                }
                return Some(&b.value);
            }
            i -= 1;
        }
        proof {
            lemma_map_prefix(self.bindings@, 0, name@);
            assert(self.bindings@.subrange(0, 0) =~= Seq::<Binding>::empty());
        }
        None
    }

    /// The value bound to `name`, if any.
    pub fn get(&self, name: &str) -> (r: Option<String>)
        ensures
            match r {
                Some(v) => self@.contains_key(name@) && v@ == self@[name@],
                None => !self@.contains_key(name@),
            },
    {
        let n = chars_of(name);
        match self.lookup(&n) {
            Some(v) => Some(string_of(v)),
            None => None,
        }
    }

    /// A copy of this scope.
    pub fn derive(&self) -> (r: Scope)
        ensures
            r@ == self@,
    {
        let mut r = Scope::new();
        r.extend(self);
        proof {
            assert(r@ =~= self@);
        }
        r
    }

    /// Adds every binding of `other`; where both bind a name, `other`'s value wins.
    pub fn extend(&mut self, other: &Scope)
        ensures
            final(self)@ == old(self)@.union_prefer_right(other@),
    {
        let mut i: usize = 0;
        while i < other.bindings.len()
            invariant
                i <= other.bindings@.len(),
                self@ == old(self)@.union_prefer_right(bindings_map(other.bindings@.subrange(0, i as int))),
            decreases other.bindings.len() - i,
        {
            let b = &other.bindings[i];
            let mut name: Vec<char> = Vec::new();
            push_range(&mut name, &b.name, 0, b.name.len());
            let mut value: Vec<char> = Vec::new();
            push_range(&mut value, &b.value, 0, b.value.len());
            proof {
                assert(name@ =~= b.name@);
                assert(value@ =~= b.value@);
            }
            let ghost before = self.bindings@;
            self.bindings.push(Binding { name, value });
            proof {
                assert(self.bindings@.drop_last() =~= before);
                assert(other.bindings@.subrange(0, i + 1).drop_last() =~= other.bindings@.subrange(0, i as int));
                assert(self@ =~= old(self)@.union_prefer_right(bindings_map(other.bindings@.subrange(0, i + 1))));
            }
            i += 1;
        }
        proof {
            assert(other.bindings@.subrange(0, i as int) =~= other.bindings@);
        }
    }
}

/// Whether two character sequences are equal.
pub fn eq_chars(a: &Vec<char>, b: &Vec<char>) -> (r: bool)
    ensures
        r == (a@ == b@),
{
    if a.len() != b.len() {
        return false;
    }
    let mut i: usize = 0;
    while i < a.len()
        invariant
            i <= a@.len(),
            a@.len() == b@.len(),
            forall|j: int| 0 <= j < i ==> a@[j] == b@[j],
        decreases a.len() - i,
    {
        if a[i] != b[i] {
            return false;
        }
        i += 1;
    }
    proof {
        assert(a@ =~= b@);
    }
    true
}

} // verus!
