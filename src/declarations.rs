use vstd::prelude::*;
use crate::scope::Scope;
use crate::text::{chars_of, trim, trimmed};

verus! {

/// Where a scan for `key={{value}}` declarations stands: the declarations committed so far,
/// the key and the value being read, the brace depth, and whether a value is being read.
pub type DeclState = (Map<Seq<char>, Seq<char>>, Seq<char>, Seq<char>, int, bool);

/// One character of the declaration scan. A brace that opens the second level starts the
/// value; a brace that closes back to the first level commits the trimmed key and value.
/// Braces inside the value, deeper than its own pair, are kept in it as they stand. Outside a
/// value every character but `=` adds to the key.
pub open spec fn decl_step(st: DeclState, c: char) -> DeclState {
    let (decls, key, value, depth, in_value) = st;
    if c == '{' {
        let d = depth + 1;
        (decls, key, if d > 2 { value.push(c) } else { value }, d, if d == 2 { true } else { in_value })
    } else if c == '}' {
        let v = if depth > 2 { value.push(c) } else { value };
        let d = depth - 1;
        if d == 1 {
            (decls.insert(trimmed(key), trimmed(v)), Seq::empty(), Seq::empty(), d, false)
        } else {
            (decls, key, v, d, in_value)
        }
    } else if in_value {
        (decls, key, value.push(c), depth, in_value)
    } else if c != '=' {
        (decls, key.push(c), value, depth, in_value)
    } else {
        st
    }
}

/// The scan state after reading all of `s`.
pub open spec fn decl_run(s: Seq<char>) -> DeclState
    decreases s.len(),
{
    if s.len() == 0 {
        (Map::empty(), Seq::empty(), Seq::empty(), 0, false)
    } else {
        decl_step(decl_run(s.drop_last()), s.last())
    }
}

/// The variables that `s` declares.
pub open spec fn declarations(s: Seq<char>) -> Map<Seq<char>, Seq<char>> {
    decl_run(s).0
}

proof fn lemma_depth_bound(s: Seq<char>)
    ensures
        -(s.len() as int) <= decl_run(s).3 <= s.len(),
    decreases s.len(),
{
    if s.len() > 0 {
        lemma_depth_bound(s.drop_last());
    }
}

/// The variables declared in `input` as `key={{value}}`, keys and values trimmed; a later
/// declaration of a key replaces an earlier one.
pub fn read_vars(input: &str) -> (r: Scope)
    ensures
        r@ == declarations(input@),
{
    let chars = chars_of(input);
    read_vars_chars(&chars)
}

/// `read_vars` on a sequence of characters.
pub fn read_vars_chars(chars: &Vec<char>) -> (r: Scope)
    ensures
        r@ == declarations(chars@),
{
    let mut result = Scope::new();
    let mut key: Vec<char> = Vec::new();
    let mut value: Vec<char> = Vec::new();
    let mut depth: i128 = 0;
    let mut in_value = false;
    let mut i: usize = 0;
    proof {
        assert(chars@.subrange(0, 0) =~= Seq::<char>::empty());
    }
    while i < chars.len()
        invariant
            i <= chars@.len(),
            (result@, key@, value@, depth as int, in_value) == decl_run(chars@.subrange(0, i as int)),
        decreases chars.len() - i,
    {
        let c = chars[i];
        proof {
            lemma_depth_bound(chars@.subrange(0, i as int));
            assert(chars@.subrange(0, i + 1).drop_last() =~= chars@.subrange(0, i as int));
        }
        if c == '{' {
            depth = depth + 1;
            if depth == 2 {
                in_value = true;
            }
            if depth > 2 {
                value.push(c);
            }
        } else if c == '}' {
            if depth > 2 {
                value.push(c);
            }
            depth = depth - 1;
            if depth == 1 {
                in_value = false;
                result.set(trim(&key), trim(&value));
                key = Vec::new();
                value = Vec::new();
            }
        } else if in_value {
            value.push(c);
        } else if c != '=' {
            key.push(c);
        }
        i += 1;
        proof {
            assert(key@ =~= decl_run(chars@.subrange(0, i as int)).1);
            assert(value@ =~= decl_run(chars@.subrange(0, i as int)).2);
        }
    }
    proof {
        assert(chars@.subrange(0, i as int) =~= chars@);
    }
    result
}

} // verus!
