use vstd::prelude::*;
use crate::text::{chars_of, find, first_at, push_range, string_of};

verus! {

/// How many characters of visible text a preview keeps.
pub const PREVIEW_LEN: usize = 75;

/// `t` from position `i` on without markup tags: each `<` followed by at least one character
/// other than `>` and then a `>` starts a tag that runs to that `>`.
pub open spec fn strip_from(t: Seq<char>, i: int) -> Seq<char>
    decreases t.len() - i,
{
    if i < 0 || i >= t.len() {
        Seq::empty()
    } else {
        let j = first_at(t, seq!['>'], i + 1, false);
        if t[i] == '<' && i + 1 < j && j < t.len() {
            strip_from(t, j + 1)
        } else {
            seq![t[i]] + strip_from(t, i + 1)
        }
    }
}

/// The visible text of `t`: `t` without its markup tags.
pub open spec fn visible_text(t: Seq<char>) -> Seq<char> {
    strip_from(t, 0)
}

/// The preview of `t`: its visible text, cut to `PREVIEW_LEN` characters and followed by
/// `...` where it is longer.
pub open spec fn preview(t: Seq<char>) -> Seq<char> {
    let v = visible_text(t);
    if v.len() > PREVIEW_LEN {
        v.subrange(0, PREVIEW_LEN as int) + seq!['.', '.', '.']
    } else {
        v
    }
}

/// The visible text of `t`, without its markup tags.
pub fn strip_tags(t: &Vec<char>) -> (r: Vec<char>)
    ensures
        r@ == visible_text(t@),
{
    let gt: Vec<char> = vec!['>'];
    proof {
        assert(gt@ =~= seq!['>']);
    }
    let mut out: Vec<char> = Vec::new();
    let mut i: usize = 0;
    while i < t.len()
        invariant
            i <= t@.len(),
            gt@ == seq!['>'],
            visible_text(t@) == out@ + strip_from(t@, i as int),
        decreases t.len() - i,
    {
        let close = if t[i] == '<' && i + 1 < t.len() {
            find(t, &gt, i + 1, false)
        } else {
            None
        };
        proof {
            crate::text::lemma_first_at_bounds(t@, seq!['>'], i + 1, false);
        }
        match close {
            Some(j) if i + 1 < j && j < t.len() => {
                i = j + 1;
            },
            _ => {
                let ghost before = out@;
                out.push(t[i]);
                proof {
                    assert(before + (seq![t@[i as int]] + strip_from(t@, i + 1)) =~= out@ + strip_from(t@, i + 1));
                }
                i += 1;
            },
        }
    }
    proof {
        assert(out@ =~= out@ + strip_from(t@, i as int));
    }
    out
}

/// A preview of `input`: its text without markup tags, cut to `PREVIEW_LEN` characters and
/// followed by `...` where it is longer.
pub fn short_text_preview(input: &str) -> (r: String)
    ensures
        r@ == preview(input@),
{
    let t = chars_of(input);
    string_of(&preview_chars(&t))
}

/// `short_text_preview` on a sequence of characters.
pub fn preview_chars(t: &Vec<char>) -> (r: Vec<char>)
    ensures
        r@ == preview(t@),
{
    let v = strip_tags(t);
    if v.len() > PREVIEW_LEN {
        let mut out: Vec<char> = Vec::new();
        push_range(&mut out, &v, 0, PREVIEW_LEN);
        out.push('.');
        out.push('.');
        out.push('.');
        proof {
            assert(out@ =~= v@.subrange(0, PREVIEW_LEN as int) + seq!['.', '.', '.']);
        }
        out
    } else {
        v
    }
}

/// The root-relative link of a path given by its components: `/` before each of them.
pub open spec fn html_path(components: Seq<Seq<char>>) -> Seq<char>
    decreases components.len(),
{
    if components.len() == 0 {
        Seq::empty()
    } else {
        html_path(components.drop_last()) + seq!['/'] + components.last()
    }
}

/// The views of a list of strings.
pub open spec fn views(v: Seq<String>) -> Seq<Seq<char>> {
    v.map_values(|s: String| s@)
}

/// The root-relative link of the path whose components are `components`: each component
/// after a `/`, and the empty string for no component.
pub fn path_to_html_path(components: &Vec<String>) -> (r: String)
    ensures
        r@ == html_path(views(components@)),
{
    let mut out: Vec<char> = Vec::new();
    let mut i: usize = 0;
    while i < components.len()
        invariant
            i <= components@.len(),
            out@ == html_path(views(components@.subrange(0, i as int))),
        decreases components.len() - i,
    {
        let part = chars_of(components[i].as_str());
        out.push('/');
        push_range(&mut out, &part, 0, part.len());
        proof {
            let cs = views(components@.subrange(0, i + 1));
            assert(cs.drop_last() =~= views(components@.subrange(0, i as int)));
            assert(part@.subrange(0, part@.len() as int) =~= part@);
            assert(cs.last() == components@[i as int]@);
            assert(out@ =~= html_path(cs));
        }
        i += 1;
    }
    proof {
        assert(components@.subrange(0, i as int) =~= components@);
    }
    string_of(&out)
}

} // verus!
