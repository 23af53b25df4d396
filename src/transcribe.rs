use vstd::prelude::*;
use crate::declarations::{declarations, read_vars_chars};
use crate::fragments::{embed_chars, embedded, FragmentTable};
use crate::placeholders::{replace_vars_chars, substituted};
use crate::scope::Scope;
use crate::text::{chars_of, find, first_at, is_space, is_space_char, matches_at, occurs_at, push_range, slice, string_of};

verus! {

/// How deeply tag expansions may nest before transcription gives up.
pub const MAX_DEPTH: u64 = 64;

/// How many passes over one text may change it before transcription gives up.
pub const MAX_PASSES: u64 = 100000;

/// A template rule: a tag name and the body that replaces `<name>...</name>`.
pub struct TemplateRule {
    pub name: Vec<char>,
    pub body: Vec<char>,
}

/// The template rules, tried in the order in which they were added.
pub struct Registry {
    pub rules: Vec<TemplateRule>,
}

impl View for Registry {
    type V = Seq<(Seq<char>, Seq<char>)>;

    open spec fn view(&self) -> Seq<(Seq<char>, Seq<char>)> {
        self.rules@.map_values(|r: TemplateRule| (r.name@, r.body@))
    }
}

impl Registry {
    /// A registry without rules.
    pub fn new() -> (r: Registry)
        ensures
            r@ == Seq::<(Seq<char>, Seq<char>)>::empty(),
    {
        let r = Registry { rules: Vec::new() };
        proof {
            assert(r@ =~= Seq::<(Seq<char>, Seq<char>)>::empty());
        }
        r
    }

    /// Adds the rule that expands `<name>...</name>` (the opening tag may carry attributes)
    /// with `body`.
    pub fn add(&mut self, name: &str, body: &str)
        ensures
            final(self)@ == old(self)@.push((name@, body@)),
    {
        self.rules.push(TemplateRule { name: chars_of(name), body: chars_of(body) });
        proof {
            assert(self@ =~= old(self)@.push((name@, body@)));
        }
    }

    /// The number of rules.
    pub fn len(&self) -> (r: usize)
        ensures
            r == self@.len(),
    {
        self.rules.len()
    }
}

/// Why a transcription failed.
pub enum Fault {
    TooDeep,
    TooManyPasses,
    MissingFragment(Seq<char>),
}

/// Why a transcription stopped: tags nested deeper than `MAX_DEPTH`, a text that kept
/// changing for `MAX_PASSES` passes, or an inclusion of a fragment file that the table does
/// not know yet (read it, add it, and transcribe again).
pub enum TranscribeError {
    TooDeep,
    TooManyPasses,
    MissingFragment(String),
}

impl View for TranscribeError {
    type V = Fault;

    open spec fn view(&self) -> Fault {
        match self {
            TranscribeError::TooDeep => Fault::TooDeep,
            TranscribeError::TooManyPasses => Fault::TooManyPasses,
            TranscribeError::MissingFragment(p) => Fault::MissingFragment(p@),
        }
    }
}

pub open spec fn tag_head(name: Seq<char>) -> Seq<char> {
    seq!['<'] + name
}

pub open spec fn tag_close(name: Seq<char>) -> Seq<char> {
    seq!['<', '/'] + name + seq!['>']
}

/// Where the inner text starts when an opening tag of `name` stands at `s`, or -1: `<name>`,
/// or `<name` followed by white space and attributes up to the next `>`.
pub open spec fn open_at(t: Seq<char>, name: Seq<char>, s: int) -> int {
    let c = s + name.len() + 1;
    if occurs_at(t, tag_head(name), s) && c < t.len() {
        if t[c] == '>' {
            c + 1
        } else if is_space(t[c]) && first_at(t, seq!['>'], c, false) > c {
            first_at(t, seq!['>'], c, false) + 1
        } else {
            -1
        }
    } else {
        -1
    }
}

/// The first position at or after `i` where an opening tag of `name` stands, or -1.
pub open spec fn first_open(t: Seq<char>, name: Seq<char>, i: int) -> int
    decreases t.len() - i,
{
    if i < 0 || i >= t.len() {
        -1
    } else if open_at(t, name, i) >= 0 {
        i
    } else {
        first_open(t, name, i + 1)
    }
}

/// The first tag of `name` in `t`, the inner text as short as it can be: where the opening
/// tag starts, where the inner text starts, and where the closing `</name>` starts.
pub open spec fn tag_span(t: Seq<char>, name: Seq<char>) -> Option<(int, int, int)> {
    let s = first_open(t, name, 0);
    let b = open_at(t, name, s);
    let e = first_at(t, tag_close(name), b, false);
    if 0 <= s && 0 <= b && b <= e && e + tag_close(name).len() <= t.len() {
        Some((s, b, e))
    } else {
        None
    }
}

/// The scope in which a tag whose inner text is `inner` expands: the caller's scope and the
/// declarations of `inner` over it.
pub open spec fn child_scope(m: Map<Seq<char>, Seq<char>>, inner: Seq<char>) -> Map<
    Seq<char>,
    Seq<char>,
> {
    m.union_prefer_right(declarations(inner))
}

/// `t` with placeholders substituted, fragments embedded, and tags expanded until a pass
/// over the rules changes nothing; expansions may nest `depth` levels.
pub open spec fn transcribed(
    t: Seq<char>,
    reg: Seq<(Seq<char>, Seq<char>)>,
    m: Map<Seq<char>, Seq<char>>,
    f: (Map<Seq<char>, Seq<char>>, Map<Seq<char>, Seq<char>>),
    depth: nat,
) -> Result<Seq<char>, Fault>
    decreases depth, 2nat, 0nat, 0nat,
{
    match embedded(substituted(t, m), f) {
        Err(p) => Err(Fault::MissingFragment(p)),
        Ok(u) => fixpoint(u, reg, m, f, depth, MAX_PASSES as nat),
    }
}

/// Passes over `t` until one changes nothing, at most `passes` of them.
pub open spec fn fixpoint(
    t: Seq<char>,
    reg: Seq<(Seq<char>, Seq<char>)>,
    m: Map<Seq<char>, Seq<char>>,
    f: (Map<Seq<char>, Seq<char>>, Map<Seq<char>, Seq<char>>),
    depth: nat,
    passes: nat,
) -> Result<Seq<char>, Fault>
    decreases depth, 1nat, passes, 0nat,
{
    if passes == 0 {
        Err(Fault::TooManyPasses)
    } else {
        match pass(t, reg, m, f, depth, 0, false) {
            Err(x) => Err(x),
            Ok((u, changed)) => if changed {
                fixpoint(u, reg, m, f, depth, (passes - 1) as nat)
            } else {
                Ok(u)
            },
        }
    }
}

/// One pass over the rules from the `k`-th on: each rule whose tag occurs has its first
/// occurrence replaced by the transcribed body, in the scope of that occurrence alone.
pub open spec fn pass(
    t: Seq<char>,
    reg: Seq<(Seq<char>, Seq<char>)>,
    m: Map<Seq<char>, Seq<char>>,
    f: (Map<Seq<char>, Seq<char>>, Map<Seq<char>, Seq<char>>),
    depth: nat,
    k: int,
    changed: bool,
) -> Result<(Seq<char>, bool), Fault>
    decreases depth, 0nat, 0nat, reg.len() - k,
{
    if k < 0 || k >= reg.len() {
        Ok((t, changed))
    } else {
        match tag_span(t, reg[k].0) {
            None => pass(t, reg, m, f, depth, k + 1, changed),
            Some((s, b, e)) => if depth == 0 {
                Err(Fault::TooDeep)
            } else {
                let inner = t.subrange(b, e);
                match transcribed(reg[k].1, reg, child_scope(m, inner), f, (depth - 1) as nat) {
                    Err(x) => Err(x),
                    Ok(x) => pass(
                        t.subrange(0, s) + x + t.subrange(e + tag_close(reg[k].0).len(), t.len() as int),
                        reg,
                        m,
                        f,
                        depth,
                        k + 1,
                        true,
                    ),
                }
            },
        }
    }
}

/// What `transcribe` makes of `t`.
pub open spec fn transcription(
    t: Seq<char>,
    reg: Seq<(Seq<char>, Seq<char>)>,
    m: Map<Seq<char>, Seq<char>>,
    f: (Map<Seq<char>, Seq<char>>, Map<Seq<char>, Seq<char>>),
) -> Result<Seq<char>, Fault> {
    transcribed(t, reg, m, f, MAX_DEPTH as nat)
}

/// Where the inner text starts when an opening tag of `name` stands at `s` (see `open_at`).
fn opening_end(t: &Vec<char>, name: &Vec<char>, head: &Vec<char>, gt: &Vec<char>, s: usize) -> (r: Option<usize>)
    requires
        head@ == tag_head(name@),
        gt@ == seq!['>'],
    ensures
        match r {
            Some(b) => open_at(t@, name@, s as int) == b as int,
            None => open_at(t@, name@, s as int) == -1,
        },
{
    let tl = t.len();
    if !matches_at(t, head, s) {
        return None;
    }
    let c = s + head.len();
    if c >= tl {
        return None;
    }
    if t[c] == '>' {
        return Some(c + 1);
    }
    if !is_space_char(t[c]) {
        return None;
    }
    proof {
        crate::text::lemma_first_at_bounds(t@, seq!['>'], c as int, false);
    }
    match find(t, gt, c, false) {
        Some(g) => if g > c {
            Some(g + 1)
        } else {
            None
        },
        None => None,
    }
}

/// Where the first tag of `name` in `t` stands (see `tag_span`).
fn find_tag(t: &Vec<char>, name: &Vec<char>) -> (r: Option<(usize, usize, usize)>)
    ensures
        match r {
            Some((s, b, e)) => tag_span(t@, name@) == Some((s as int, b as int, e as int)),
            None => tag_span(t@, name@) is None,
        },
{
    let tl = t.len();
    let mut head: Vec<char> = vec!['<'];
    push_range(&mut head, name, 0, name.len());
    let mut close: Vec<char> = vec!['<', '/'];
    push_range(&mut close, name, 0, name.len());
    close.push('>');
    let gt: Vec<char> = vec!['>'];
    proof {
        assert(name@.subrange(0, name@.len() as int) =~= name@);
        assert(head@ =~= tag_head(name@));
        assert(close@ =~= tag_close(name@));
        assert(gt@ =~= seq!['>']);
    }
    let mut i: usize = 0;
    while i < tl
        invariant
            i <= tl,
            tl == t@.len(),
            head@ == tag_head(name@),
            gt@ == seq!['>'],
            close@ == tag_close(name@),
            first_open(t@, name@, 0) == first_open(t@, name@, i as int),
        decreases tl - i,
    {
        match opening_end(t, name, &head, &gt, i) {
            Some(b) => {
                proof {
                    crate::text::lemma_first_at_bounds(t@, tag_close(name@), b as int, false);
                }
                return match find(t, &close, b, false) {
                    Some(e) => if b <= e && e <= tl && close.len() <= tl - e {
                        Some((i, b, e))
                    } else {
                        None
                    },
                    None => None,
                };
            },
            None => {},
        }
        i += 1;
    }
    None
}

/// Transcribes `t` with `depth` levels of nesting left.
fn transcribe_at(
    t: &Vec<char>,
    reg: &Registry,
    scope: &Scope,
    fragments: &FragmentTable,
    depth: u64,
) -> (r: Result<Vec<char>, TranscribeError>)
    ensures
        match r {
            Ok(v) => transcribed(t@, reg@, scope@, fragments@, depth as nat) == Ok::<Seq<char>, Fault>(v@),
            Err(e) => transcribed(t@, reg@, scope@, fragments@, depth as nat) == Err::<Seq<char>, Fault>(e@),
        },
    decreases depth,
{
    let s = replace_vars_chars(t, scope);
    let mut u = match embed_chars(&s, fragments) {
        Ok(u) => u,
        Err(p) => {
            return Err(TranscribeError::MissingFragment(string_of(&p)));
        },
    };
    let ghost regv = reg@;
    let ghost m = scope@;
    let ghost f = fragments@;
    let ghost d = depth as nat;
    let mut passes: u64 = MAX_PASSES;
    loop
        invariant
            regv == reg@,
            m == scope@,
            f == fragments@,
            d == depth as nat,
            transcribed(t@, regv, m, f, d) == fixpoint(u@, regv, m, f, d, passes as nat),
        decreases passes,
    {
        if passes == 0 {
            return Err(TranscribeError::TooManyPasses);
        }
        let ghost start = u@;
        let mut changed = false;
        let mut k: usize = 0;
        while k < reg.rules.len()
            invariant
                regv == reg@,
                m == scope@,
                f == fragments@,
                d == depth as nat,
                k <= regv.len(),
                passes > 0,
                transcribed(t@, regv, m, f, d) == fixpoint(start, regv, m, f, d, passes as nat),
                pass(start, regv, m, f, d, 0, false) == pass(u@, regv, m, f, d, k as int, changed),
                !changed ==> u@ == start,
            decreases reg.rules.len() - k,
        {
            let rule = &reg.rules[k];
            let ul = u.len();
            proof {
                assert(regv[k as int] == (rule.name@, rule.body@));
            }
            match find_tag(&u, &rule.name) {
                None => {},
                Some((s, b, e)) => {
                    proof {
                        assert(tag_close(rule.name@).len() == rule.name@.len() + 3);
                    }
                    if depth == 0 {
                        proof {
                            assert(pass(u@, regv, m, f, d, k as int, changed) == Err::<(Seq<char>, bool), Fault>(Fault::TooDeep));
                        }
                        return Err(TranscribeError::TooDeep);
                    }
                    let inner = slice(&u, b, e);
                    let declared = read_vars_chars(&inner);
                    let mut child = scope.derive();
                    child.extend(&declared);
                    let x = match transcribe_at(&rule.body, reg, &child, fragments, depth - 1) {
                        Ok(x) => x,
                        Err(err) => {
                            proof {
                                assert(pass(u@, regv, m, f, d, k as int, changed) == Err::<(Seq<char>, bool), Fault>(err@));
                            }
                            return Err(err);
                        },
                    };
                    let mut next: Vec<char> = Vec::new();
                    push_range(&mut next, &u, 0, s);
                    push_range(&mut next, &x, 0, x.len());
                    push_range(&mut next, &u, e + rule.name.len() + 3, ul);
                    proof {
                        assert(x@.subrange(0, x@.len() as int) =~= x@);
                        assert(next@ =~= u@.subrange(0, s as int) + x@ + u@.subrange(
                            e + tag_close(rule.name@).len(),
                            u@.len() as int,
                        ));
                    }
                    u = next;
                    changed = true;
                },
            }
            k += 1;
        }
        if !changed {
            return Ok(u);
        }
        passes -= 1;
    }
}

/// Expands `file`: substitutes its placeholders from `variables`, embeds its fragments, then
/// expands the tags of `templates` until a pass changes nothing. Each tag expands its rule's
/// body in a scope of its own: the caller's scope with the tag's inner declarations over it.
pub fn transcribe(
    file: &str,
    templates: &Registry,
    variables: &Scope,
    fragments: &FragmentTable,
) -> (r: Result<String, TranscribeError>)
    ensures
        match r {
            Ok(s) => transcription(file@, templates@, variables@, fragments@) == Ok::<Seq<char>, Fault>(s@),
            Err(e) => transcription(file@, templates@, variables@, fragments@) == Err::<Seq<char>, Fault>(e@),
        },
{
    let t = chars_of(file);
    match transcribe_at(&t, templates, variables, fragments, MAX_DEPTH) {
        Ok(v) => Ok(string_of(&v)),
        Err(e) => Err(e),
    }
}

} // verus!
