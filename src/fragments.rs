use vstd::prelude::*;
use crate::scope::Scope;
use crate::text::{chars_of, find, first_at, matches_at, occurs_at, push_range, slice, string_of};

verus! {

/// What `markdown::to_html` makes of a Markdown text.
pub uninterp spec fn markdown_html(source: Seq<char>) -> Seq<char>;

/// Relies on `markdown::to_html`: the CommonMark rendering of `source`, which depends on
/// the text alone and never fails.
#[verifier::external_body]
fn markdown_to_html(source: &str) -> (r: String)
    ensures
        r@ == markdown_html(source@),
{
    markdown::to_html(source)
}

/// The fragment files known while a document is expanded, keyed by the path written in the
/// inclusion tag: the converted markup of each file that could be read, and the paths of
/// those that could not.
pub struct FragmentTable {
    pub converted: Scope,
    pub unreadable: Scope,
}

/// What an inclusion of `path` becomes: the converted file, nothing for a file that could
/// not be read, or `None` while the table does not know the path.
pub open spec fn fragment_of(
    f: (Map<Seq<char>, Seq<char>>, Map<Seq<char>, Seq<char>>),
    path: Seq<char>,
) -> Option<Seq<char>> {
    if f.0.contains_key(path) {
        Some(f.0[path])
    } else if f.1.contains_key(path) {
        Some(Seq::empty())
    } else {
        None
    }
}

impl View for FragmentTable {
    type V = (Map<Seq<char>, Seq<char>>, Map<Seq<char>, Seq<char>>);

    open spec fn view(&self) -> Self::V {
        (self.converted@, self.unreadable@)
    }
}

impl FragmentTable {
    /// A table that knows no fragment.
    pub fn new() -> (r: FragmentTable)
        ensures
            r@.0 == Map::<Seq<char>, Seq<char>>::empty(),
            r@.1 == Map::<Seq<char>, Seq<char>>::empty(),
    {
        FragmentTable { converted: Scope::new(), unreadable: Scope::new() }
    }

    /// Records the Markdown text read for `path`, converted to HTML.
    pub fn add_markdown(&mut self, path: &str, source: &str)
        ensures
            final(self)@.0 == old(self)@.0.insert(path@, markdown_html(source@)),
            final(self)@.1 == old(self)@.1,
    {
        let html = markdown_to_html(source);
        self.converted.insert(path, html.as_str());
    }

    /// Records that the file for `path` could not be read.
    pub fn add_unreadable(&mut self, path: &str)
        ensures
            final(self)@.0 == old(self)@.0,
            final(self)@.1 == old(self)@.1.insert(path@, Seq::empty()),
    {
        self.unreadable.set(chars_of(path), Vec::new());
    }

    /// What an inclusion of `path` becomes (see `fragment_of`).
    pub fn fragment(&self, path: &Vec<char>) -> (r: Option<Vec<char>>)
        ensures
            match r {
                Some(v) => fragment_of(self@, path@) == Some(v@),
                None => fragment_of(self@, path@) is None,
            },
    {
        match self.converted.lookup(path) {
            Some(v) => Some(slice(v, 0, v.len())),
            None => match self.unreadable.lookup(path) {
                Some(_) => Some(Vec::new()),
                None => None,
            },
        }
    }
}

pub open spec fn md_open() -> Seq<char> {
    seq!['<', 'm', 'd', ' ']
}

pub open spec fn md_close() -> Seq<char> {
    seq!['<', '/', 'm', 'd', '>']
}

pub open spec fn src_mark() -> Seq<char> {
    seq!['s', 'r', 'c', '=', '"']
}

pub open spec fn quote() -> Seq<char> {
    seq!['"']
}

/// Where the closing `</md>` of an inclusion tag opened at `i` stands: the first one on the
/// same line, or -1.
pub open spec fn md_end(t: Seq<char>, i: int) -> int {
    if occurs_at(t, md_open(), i) {
        let e = first_at(t, md_close(), i + 4, true);
        if i + 4 <= e && e + 5 <= t.len() { e } else { -1 }
    } else {
        -1
    }
}

/// The path in the first `src="..."` attribute of the opening tag that starts at `i` and
/// ends at its first `>`, before the closing tag at `e`; `None` where it has none.
pub open spec fn md_path(t: Seq<char>, i: int, e: int) -> Option<Seq<char>> {
    let g = first_at(t, seq!['>'], i, true);
    let s = first_at(t, src_mark(), i, true);
    let q = first_at(t, quote(), s + 5, true);
    if i <= s && s + 5 <= q && q < g && g < e {
        Some(t.subrange(s + 5, q))
    } else {
        None
    }
}

/// What the tag from `i` to `e` becomes: the fragment, nothing without a path, or `Err` with
/// a path that the table does not know.
pub open spec fn md_replacement(
    t: Seq<char>,
    f: (Map<Seq<char>, Seq<char>>, Map<Seq<char>, Seq<char>>),
    i: int,
    e: int,
) -> Result<Seq<char>, Seq<char>> {
    match md_path(t, i, e) {
        None => Ok(Seq::empty()),
        Some(p) => match fragment_of(f, p) {
            Some(h) => Ok(h),
            None => Err(p),
        },
    }
}

/// `r` with `p` put in front of a successful result.
pub open spec fn prefixed(p: Seq<char>, r: Result<Seq<char>, Seq<char>>) -> Result<Seq<char>, Seq<char>> {
    match r {
        Ok(x) => Ok(p + x),
        Err(e) => Err(e),
    }
}

/// `t` from position `i` on, each inclusion tag replaced by its fragment; `Err` with the
/// first path that the table does not know.
pub open spec fn embed_from(
    t: Seq<char>,
    f: (Map<Seq<char>, Seq<char>>, Map<Seq<char>, Seq<char>>),
    i: int,
) -> Result<Seq<char>, Seq<char>>
    decreases t.len() - i,
{
    if i < 0 || i >= t.len() {
        Ok(Seq::empty())
    } else {
        let e = md_end(t, i);
        if e >= i {
            match md_replacement(t, f, i, e) {
                Ok(h) => prefixed(h, embed_from(t, f, e + 5)),
                Err(p) => Err(p),
            }
        } else {
            prefixed(seq![t[i]], embed_from(t, f, i + 1))
        }
    }
}

/// `t` with every inclusion tag replaced (see `embed_from`).
pub open spec fn embedded(
    t: Seq<char>,
    f: (Map<Seq<char>, Seq<char>>, Map<Seq<char>, Seq<char>>),
) -> Result<Seq<char>, Seq<char>> {
    embed_from(t, f, 0)
}

/// Replaces each `<md ... src="PATH">...</md>` tag (on one line) by the fragment that the table
/// holds for PATH: the converted file, or nothing where it could not be read or the tag has no
/// `src`. Fails with the first PATH that the table does not know yet.
pub fn replace_md_placeholder(input: &str, fragments: &FragmentTable) -> (r: Result<String, String>)
    ensures
        match r {
            Ok(s) => embedded(input@, fragments@) == Ok::<Seq<char>, Seq<char>>(s@),
            Err(p) => embedded(input@, fragments@) == Err::<Seq<char>, Seq<char>>(p@),
        },
{
    let t = chars_of(input);
    match embed_chars(&t, fragments) {
        Ok(v) => Ok(string_of(&v)),
        Err(p) => Err(string_of(&p)),
    }
}

/// `replace_md_placeholder` on a sequence of characters.
pub fn embed_chars(t: &Vec<char>, fragments: &FragmentTable) -> (r: Result<Vec<char>, Vec<char>>)
    ensures
        match r {
            Ok(v) => embedded(t@, fragments@) == Ok::<Seq<char>, Seq<char>>(v@),
            Err(p) => embedded(t@, fragments@) == Err::<Seq<char>, Seq<char>>(p@),
        },
{
    let open: Vec<char> = vec!['<', 'm', 'd', ' '];
    let close: Vec<char> = vec!['<', '/', 'm', 'd', '>'];
    let src: Vec<char> = vec!['s', 'r', 'c', '=', '"'];
    let q: Vec<char> = vec!['"'];
    let gt: Vec<char> = vec!['>'];
    proof {
        assert(gt@ =~= seq!['>']);
        assert(open@ =~= md_open());
        assert(close@ =~= md_close());
        assert(src@ =~= src_mark());
        assert(q@ =~= quote());
    }
    let ghost f = fragments@;
    let mut out: Vec<char> = Vec::new();
    let mut i: usize = 0;
    while i < t.len()
        invariant
            i <= t@.len(),
            f == fragments@,
            open@ == md_open(),
            close@ == md_close(),
            src@ == src_mark(),
            q@ == quote(),
            gt@ == seq!['>'],
            embedded(t@, f) == prefixed(out@, embed_from(t@, f, i as int)),
        decreases t.len() - i,
    {
        let end = if matches_at(t, &open, i) && i + 4 <= t.len() {
            match find(t, &close, i + 4, true) {
                Some(e) => if e <= t.len() && 5 <= t.len() - e { Some(e) } else { None },
                None => None,
            }
        } else {
            None
        };
        proof {
            if !(i + 4 <= t.len()) {
                assert(!occurs_at(t@, md_open(), i as int));
            }
            crate::text::lemma_first_at_bounds(t@, md_close(), i + 4, true);
        }
        match end {
            Some(e) => {
                let ghost m = md_end(t@, i as int);
                assert(m == e);
                let g = find(t, &gt, i, true);
                let s = find(t, &src, i, true);
                let path: Option<Vec<char>> = match s {
                    Some(s) => if s <= t.len() && 5 <= t.len() - s {
                        match find(t, &q, s + 5, true) {
                            Some(qe) => if s + 5 <= qe && g.is_some() && qe < g.unwrap() && g.unwrap() < e {
                                Some(slice(t, s + 5, qe))
                            } else {
                                None
                            },
                            None => None,
                        }
                    } else {
                        None
                    },
                    None => None,
                };
                proof {
                    crate::text::lemma_first_at_bounds(t@, src_mark(), i as int, true);
                    let sp = first_at(t@, src_mark(), i as int, true);
                    if sp >= 0 {
                        crate::text::lemma_first_at_bounds(t@, quote(), sp + 5, true);
                    }
                    if path is Some {
                        assert(md_path(t@, i as int, e as int) == Some(path->0@));
                    } else {
                        assert(md_path(t@, i as int, e as int) is None);
                    }
                }
                match path {
                    Some(p) => match fragments.fragment(&p) {
                        Some(h) => {
                            let ghost before = out@;
                            push_range(&mut out, &h, 0, h.len());
                            proof {
                                assert(h@.subrange(0, h@.len() as int) =~= h@);
                                assert(out@ == before + h@);
                                match embed_from(t@, f, e + 5) {
                                    Ok(x) => assert(before + (h@ + x) =~= out@ + x),
                                    Err(_) => {},
                                }
                            }
                        },
                        None => {
                            return Err(p);
                        },
                    },
                    None => {
                        proof {
                            assert(out@ =~= out@ + Seq::<char>::empty());
                        }
                    },
                }
                i = e + 5;
            },
            None => {
                let ghost before = out@;
                out.push(t[i]);
                proof {
                    match embed_from(t@, f, i + 1) {
                        Ok(x) => assert(before + (seq![t@[i as int]] + x) =~= out@ + x),
                        Err(_) => {},
                    }
                }
                i += 1;
            },
        }
    }
    proof {
        assert(out@ =~= out@ + Seq::<char>::empty());
    }
    Ok(out)
}

} // verus!
