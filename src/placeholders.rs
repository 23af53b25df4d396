use vstd::prelude::*;
use crate::scope::Scope;
use crate::text::{chars_of, find, first_at, matches_at, occurs_at, push_range, string_of};

verus! {

pub open spec fn open_mark() -> Seq<char> {
    seq!['[', '[']
}

pub open spec fn close_mark() -> Seq<char> {
    seq![']', ']']
}

/// The value that a placeholder for `name` takes in `m`: its value, or nothing when unbound.
pub open spec fn resolved(m: Map<Seq<char>, Seq<char>>, name: Seq<char>) -> Seq<char> {
    if m.contains_key(name) {
        m[name]
    } else {
        Seq::empty()
    }
}

/// Where the `]]` of a placeholder `[[name]]` that starts at `i` stands: the first one after
/// the `[[` on the same line; -1 where no placeholder starts at `i`.
pub open spec fn placeholder_end(t: Seq<char>, i: int) -> int {
    let j = first_at(t, close_mark(), i + 2, true);
    if occurs_at(t, open_mark(), i) && i + 2 <= j && j + 2 <= t.len() {
        j
    } else {
        -1
    }
}

/// `t` from position `i` on, each `[[name]]` (opened and closed on one line) replaced by the
/// name's value in `m`, or by nothing where `m` does not bind it. Values are not scanned again.
pub open spec fn subst_from(t: Seq<char>, m: Map<Seq<char>, Seq<char>>, i: int) -> Seq<char>
    decreases t.len() - i,
{
    if i < 0 || i >= t.len() {
        Seq::empty()
    } else {
        let j = placeholder_end(t, i);
        if j >= i + 2 {
            resolved(m, t.subrange(i + 2, j)) + subst_from(t, m, j + 2)
        } else {
            seq![t[i]] + subst_from(t, m, i + 1)
        }
    }
}

/// `t` with every placeholder resolved from `m`.
pub open spec fn substituted(t: Seq<char>, m: Map<Seq<char>, Seq<char>>) -> Seq<char> {
    subst_from(t, m, 0)
}

/// Replaces each `[[name]]` in `text` by the name's value in `scope`, and each placeholder
/// whose name `scope` does not bind by nothing.
pub fn replace_vars(text: &str, scope: &Scope) -> (r: String)
    ensures
        r@ == substituted(text@, scope@),
{
    let t = chars_of(text);
    let out = replace_vars_chars(&t, scope);
    string_of(&out)
}

/// `replace_vars` on a sequence of characters.
pub fn replace_vars_chars(t: &Vec<char>, scope: &Scope) -> (r: Vec<char>)
    ensures
        r@ == substituted(t@, scope@),
{
    let open: Vec<char> = vec!['[', '['];
    let close: Vec<char> = vec![']', ']'];
    proof {
        assert(open@ =~= open_mark());
        assert(close@ =~= close_mark());
    }
    let mut out: Vec<char> = Vec::new();
    let mut i: usize = 0;
    while i < t.len()
        invariant
            i <= t@.len(),
            open@ == open_mark(),
            close@ == close_mark(),
            substituted(t@, scope@) == out@ + subst_from(t@, scope@, i as int),
        decreases t.len() - i,
    {
        let ghost before = out@;
        let ghost rest = subst_from(t@, scope@, i as int);
        let opened = matches_at(t, &open, i);
        let closed = if opened && i + 2 <= t.len() {
            find(t, &close, i + 2, true)
        } else {
            None
        };
        proof {
            if !(i + 2 <= t.len()) {
                assert(!occurs_at(t@, open_mark(), i as int));
            }
        }
        match closed {
            Some(j) => {
                proof {
                    crate::text::lemma_first_at_bounds(t@, close_mark(), i + 2, true);
                }
                let name = crate::text::slice(t, i + 2, j);
                match scope.lookup(&name) {
                    Some(v) => {
                        push_range(&mut out, v, 0, v.len());
                        proof {
                            assert(v@.subrange(0, v@.len() as int) =~= v@);
                        }
                    },
                    None => {
                        proof {
                            assert(out@ =~= out@ + Seq::<char>::empty());
                        }
                    },
                }
                proof {
                    assert(out@ =~= before + resolved(scope@, t@.subrange(i + 2, j as int)));
                    assert(substituted(t@, scope@) =~= out@ + subst_from(t@, scope@, j + 2));
                }
                i = j + 2;
            },
            None => {
                out.push(t[i]);
                proof {
                    assert(substituted(t@, scope@) =~= out@ + subst_from(t@, scope@, i + 1));
                }
                i += 1;
            },
        }
    }
    proof {
        assert(out@ =~= out@ + subst_from(t@, scope@, i as int));
    }
    out
}

} // verus!
