use vstd::prelude::*;

verus! {

/// Whether `pat` occurs in `t` starting at position `i`.
pub open spec fn occurs_at(t: Seq<char>, pat: Seq<char>, i: int) -> bool {
    0 <= i && i + pat.len() <= t.len() && t.subrange(i, i + pat.len()) == pat
}

/// The first position at or after `from` where `pat` occurs, or -1 when there is none.
/// With `line` set the search gives up at the first newline that is not part of a match.
pub open spec fn first_at(t: Seq<char>, pat: Seq<char>, from: int, line: bool) -> int
    decreases t.len() - from,
{
    if from < 0 || from >= t.len() {
        -1
    } else if occurs_at(t, pat, from) {
        from
    } else if line && t[from] == '\n' {
        -1
    } else {
        first_at(t, pat, from + 1, line)
    }
}

/// The last position `j` with `lo <= j` and `j + pat.len() <= hi` where `pat` occurs,
/// or -1 when there is none.
pub open spec fn last_at(t: Seq<char>, pat: Seq<char>, lo: int, hi: int) -> int
    decreases hi - lo,
{
    if hi <= lo || hi < lo + pat.len() {
        -1
    } else if occurs_at(t, pat, hi - pat.len()) {
        hi - pat.len()
    } else {
        last_at(t, pat, lo, hi - 1)
    }
}

/// The characters that Unicode gives the White_Space property.
pub open spec fn is_space(c: char) -> bool {
    let u = c as u32;
    (0x09 <= u && u <= 0x0d) || u == 0x20 || u == 0x85 || u == 0xa0 || u == 0x1680 || (0x2000
        <= u && u <= 0x200a) || u == 0x2028 || u == 0x2029 || u == 0x202f || u == 0x205f || u
        == 0x3000
}

/// The first position at or after `i` that holds no white space, or the length.
pub open spec fn solid_start(s: Seq<char>, i: int) -> int
    decreases s.len() - i,
{
    if i < 0 || i >= s.len() {
        s.len() as int
    } else if is_space(s[i]) {
        solid_start(s, i + 1)
    } else {
        i
    }
}

/// The end of the last character before `j`, and not before `lo`, that is no white space.
pub open spec fn solid_end(s: Seq<char>, lo: int, j: int) -> int
    decreases j - lo,
{
    if j <= lo {
        lo
    } else if is_space(s[j - 1]) {
        solid_end(s, lo, j - 1)
    } else {
        j
    }
}

/// `s` without white space at either end.
pub open spec fn trimmed(s: Seq<char>) -> Seq<char> {
    let a = solid_start(s, 0);
    s.subrange(a, solid_end(s, a, s.len() as int))
}

pub proof fn lemma_first_at_bounds(t: Seq<char>, pat: Seq<char>, from: int, line: bool)
    ensures
        first_at(t, pat, from, line) == -1 || (from <= first_at(t, pat, from, line) && occurs_at(
            t,
            pat,
            first_at(t, pat, from, line),
        )),
    decreases t.len() - from,
{
    if 0 <= from < t.len() && !occurs_at(t, pat, from) && !(line && t[from] == '\n') {
        lemma_first_at_bounds(t, pat, from + 1, line);
    }
}

pub proof fn lemma_last_at_bounds(t: Seq<char>, pat: Seq<char>, lo: int, hi: int)
    ensures
        last_at(t, pat, lo, hi) == -1 || (lo <= last_at(t, pat, lo, hi) && last_at(t, pat, lo, hi)
            + pat.len() <= hi && occurs_at(t, pat, last_at(t, pat, lo, hi))),
    decreases hi - lo,
{
    if hi > lo && hi >= lo + pat.len() && !occurs_at(t, pat, hi - pat.len()) {
        lemma_last_at_bounds(t, pat, lo, hi - 1);
    }
}

/// Whether `c` has the White_Space property.
pub fn is_space_char(c: char) -> (r: bool)
    ensures
        r == is_space(c),
{
    let u = c as u32;
    (0x09 <= u && u <= 0x0d) || u == 0x20 || u == 0x85 || u == 0xa0 || u == 0x1680 || (0x2000
        <= u && u <= 0x200a) || u == 0x2028 || u == 0x2029 || u == 0x202f || u == 0x205f || u
        == 0x3000
}

/// Whether `pat` occurs in `t` at position `i`.
pub fn matches_at(t: &Vec<char>, pat: &Vec<char>, i: usize) -> (r: bool)
    ensures
        r == occurs_at(t@, pat@, i as int),
{
    if i > t.len() || pat.len() > t.len() - i {
        return false;
    }
    let mut k: usize = 0;
    while k < pat.len()
        invariant
            k <= pat.len(),
            i + pat.len() <= t.len(),
            forall|m: int| 0 <= m < k ==> t@[i + m] == pat@[m],
        decreases pat.len() - k,
    {
        if t[i + k] != pat[k] {
            proof {
                assert(t@.subrange(i as int, i + pat.len())[k as int] != pat@[k as int]);
            }
            return false;
        }
        k += 1;
    }
    proof {
        assert(t@.subrange(i as int, i + pat.len()) =~= pat@);
    }
    true
}

/// The first position at or after `from` where `pat` occurs (see `first_at`).
pub fn find(t: &Vec<char>, pat: &Vec<char>, from: usize, line: bool) -> (r: Option<usize>)
    ensures
        match r {
            Some(j) => j as int == first_at(t@, pat@, from as int, line),
            None => first_at(t@, pat@, from as int, line) == -1,
        },
{
    let mut j = from;
    while j < t.len()
        invariant
            from <= j,
            first_at(t@, pat@, from as int, line) == first_at(t@, pat@, j as int, line),
        decreases t.len() - j,
    {
        if matches_at(t, pat, j) {
            return Some(j);
        }
        if line && t[j] == '\n' {
            return None;
        }
        j += 1;
    }
    None
}

/// The last position in `lo..hi` where `pat` occurs whole (see `last_at`).
pub fn find_last(t: &Vec<char>, pat: &Vec<char>, lo: usize, hi: usize) -> (r: Option<usize>)
    requires
        pat@.len() > 0,
    ensures
        match r {
            Some(j) => j as int == last_at(t@, pat@, lo as int, hi as int),
            None => last_at(t@, pat@, lo as int, hi as int) == -1,
        },
{
    let mut j = hi;
    while j >= lo && j - lo >= pat.len()
        invariant
            j <= hi,
            pat@.len() > 0,
            last_at(t@, pat@, lo as int, hi as int) == last_at(t@, pat@, lo as int, j as int),
        decreases j,
    {
        if matches_at(t, pat, j - pat.len()) {
            return Some(j - pat.len());
        }
        j -= 1;
    }
    None
}

/// Appends `t[a..b]` to `out`.
pub fn push_range(out: &mut Vec<char>, t: &Vec<char>, a: usize, b: usize)
    requires
        a <= b <= t@.len(),
    ensures
        final(out)@ == old(out)@ + t@.subrange(a as int, b as int),
{
    let mut i = a;
    while i < b
        invariant
            a <= i <= b,
            b <= t@.len(),
            out@ == old(out)@ + t@.subrange(a as int, i as int),
        decreases b - i,
    {
        out.push(t[i]);
        i += 1;
        proof {
            assert(out@ =~= old(out)@ + t@.subrange(a as int, i as int));
        }
    }
}

/// The characters `t[a..b]`.
pub fn slice(t: &Vec<char>, a: usize, b: usize) -> (r: Vec<char>)
    requires
        a <= b <= t@.len(),
    ensures
        r@ == t@.subrange(a as int, b as int),
{
    let mut r: Vec<char> = Vec::new();
    push_range(&mut r, t, a, b);
    proof {
        assert(r@ =~= t@.subrange(a as int, b as int));
    }
    r
}

/// `s` without white space at either end, as `str::trim` gives it.
pub fn trim(s: &Vec<char>) -> (r: Vec<char>)
    ensures
        r@ == trimmed(s@),
{
    let mut a: usize = 0;
    while a < s.len() && is_space_char(s[a])
        invariant
            a <= s@.len(),
            solid_start(s@, 0) == solid_start(s@, a as int),
        decreases s.len() - a,
    {
        a += 1;
    }
    let mut b: usize = s.len();
    while b > a && is_space_char(s[b - 1])
        invariant
            a <= b <= s@.len(),
            solid_end(s@, a as int, s@.len() as int) == solid_end(s@, a as int, b as int),
        decreases b,
    {
        b -= 1;
    }
    slice(s, a, b)
}

/// Relies on `str::chars`: the characters of `s`, in order.
#[verifier::external_body]
pub(crate) fn chars_of(s: &str) -> (r: Vec<char>)
    ensures
        r@ == s@,
{
    s.chars().collect()
}

/// Relies on `String`'s `FromIterator<char>`: the characters joined in order.
#[verifier::external_body]
pub(crate) fn string_of(v: &Vec<char>) -> (r: String)
    ensures
        r@ == v@,
{
    v.iter().collect()
}

} // verus!
