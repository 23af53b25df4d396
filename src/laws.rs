use vstd::prelude::*;
use crate::fragments::{embed_from, embedded, md_end};
use crate::placeholders::{placeholder_end, subst_from};
use crate::dates::{later, latest, lemma_latest_among, timestamp_text, Timestamp};
use crate::declarations::declarations;
use crate::articles::preview;
use crate::preload::{article_body, article_list, copy_if, seeded, PreloadFault, CONTENT, IMAGE_HERO, IMAGE_HERO_ALT, ARTICLE_LIST, RECENT_DATE, RECENT_IMAGE, RECENT_IMAGE_DESCRIPTION, RECENT_LINK, RECENT_TEXT, RECENT_TITLE, TITLE};
use crate::transcribe::{child_scope, fixpoint, pass, tag_close, tag_span, transcribed, transcription, Fault, MAX_DEPTH, MAX_PASSES};

verus! {

proof fn lemma_subst_plain(t: Seq<char>, m: Map<Seq<char>, Seq<char>>, i: int)
    requires
        0 <= i <= t.len(),
        forall|j: int| placeholder_end(t, j) == -1,
    ensures
        subst_from(t, m, i) == t.subrange(i, t.len() as int),
    decreases t.len() - i,
{
    if i < t.len() {
        lemma_subst_plain(t, m, i + 1);
        assert(t.subrange(i, t.len() as int) =~= seq![t[i]] + t.subrange(i + 1, t.len() as int));
    } else {
        assert(t.subrange(i, t.len() as int) =~= Seq::<char>::empty());
    }
}

proof fn lemma_embed_plain(
    t: Seq<char>,
    f: (Map<Seq<char>, Seq<char>>, Map<Seq<char>, Seq<char>>),
    i: int,
)
    requires
        0 <= i <= t.len(),
        forall|j: int| md_end(t, j) == -1,
    ensures
        embed_from(t, f, i) == Ok::<Seq<char>, Seq<char>>(t.subrange(i, t.len() as int)),
    decreases t.len() - i,
{
    if i < t.len() {
        lemma_embed_plain(t, f, i + 1);
        assert(t.subrange(i, t.len() as int) =~= seq![t[i]] + t.subrange(i + 1, t.len() as int));
    } else {
        assert(t.subrange(i, t.len() as int) =~= Seq::<char>::empty());
    }
}

proof fn lemma_pass_plain(
    t: Seq<char>,
    reg: Seq<(Seq<char>, Seq<char>)>,
    m: Map<Seq<char>, Seq<char>>,
    f: (Map<Seq<char>, Seq<char>>, Map<Seq<char>, Seq<char>>),
    d: nat,
    k: int,
)
    requires
        0 <= k <= reg.len(),
        forall|j: int| 0 <= j < reg.len() ==> tag_span(t, #[trigger] reg[j].0) is None,
    ensures
        pass(t, reg, m, f, d, k, false) == Ok::<(Seq<char>, bool), Fault>((t, false)),
    decreases reg.len() - k,
{
    if k < reg.len() {
        lemma_pass_plain(t, reg, m, f, d, k + 1);
    }
}

/// A text that holds no placeholder `[[name]]`, no inclusion tag `<md ...>...</md>` and no tag of
/// any rule comes out of transcription unchanged, whatever the scope and fragments. A `[[` with
/// no `]]` after it on its line, or an `<md ` with no `</md>` on its line, is plain text.
pub proof fn lemma_passthrough(
    t: Seq<char>,
    reg: Seq<(Seq<char>, Seq<char>)>,
    m: Map<Seq<char>, Seq<char>>,
    f: (Map<Seq<char>, Seq<char>>, Map<Seq<char>, Seq<char>>),
)
    requires
        forall|j: int| placeholder_end(t, j) == -1,
        forall|j: int| md_end(t, j) == -1,
        forall|j: int| 0 <= j < reg.len() ==> tag_span(t, #[trigger] reg[j].0) is None,
    ensures
        transcription(t, reg, m, f) == Ok::<Seq<char>, Fault>(t),
{
    lemma_subst_plain(t, m, 0);
    assert(t.subrange(0, t.len() as int) =~= t);
    lemma_embed_plain(t, f, 0);
    lemma_pass_plain(t, reg, m, f, MAX_DEPTH as nat, 0);
    assert(fixpoint(t, reg, m, f, MAX_DEPTH as nat, MAX_PASSES as nat) == Ok::<Seq<char>, Fault>(t));
}

/// Each tag expands in a scope of its own: the text that replaces the first occurrence of a
/// rule's tag is the rule's body transcribed in the caller's scope with that occurrence's own
/// declarations over it, so declarations made inside a sibling tag never reach it. A name
/// resolves to the tag's own declaration where it makes one, and to the caller's value otherwise.
pub proof fn lemma_expansion_scope(
    t: Seq<char>,
    reg: Seq<(Seq<char>, Seq<char>)>,
    m: Map<Seq<char>, Seq<char>>,
    f: (Map<Seq<char>, Seq<char>>, Map<Seq<char>, Seq<char>>),
    d: nat,
    k: int,
    changed: bool,
    name: Seq<char>,
)
    requires
        0 <= k < reg.len(),
        d > 0,
        tag_span(t, reg[k].0) is Some,
    ensures
        ({
            let (s, b, e) = tag_span(t, reg[k].0)->0;
            let inner = t.subrange(b, e);
            &&& pass(t, reg, m, f, d, k, changed) == match transcribed(
                reg[k].1,
                reg,
                child_scope(m, inner),
                f,
                (d - 1) as nat,
            ) {
                Err(x) => Err(x),
                Ok(x) => pass(
                    t.subrange(0, s) + x + t.subrange(e + tag_close(reg[k].0).len(), t.len() as int),
                    reg,
                    m,
                    f,
                    d,
                    k + 1,
                    true,
                ),
            }
            &&& child_scope(m, inner).contains_key(name) == (crate::declarations::declarations(
                inner,
            ).contains_key(name) || m.contains_key(name))
            &&& crate::declarations::declarations(inner).contains_key(name) ==> child_scope(
                m,
                inner,
            )[name] == crate::declarations::declarations(inner)[name]
            &&& !crate::declarations::declarations(inner).contains_key(name) && m.contains_key(
                name,
            ) ==> child_scope(m, inner)[name] == m[name]
        }),
{
}

/// The text of the rule's tag that replaces an occurrence whose inner text is `inner`, in a
/// pass made in scope `m` with `d` levels left.
pub open spec fn expansion(
    reg: Seq<(Seq<char>, Seq<char>)>,
    m: Map<Seq<char>, Seq<char>>,
    f: (Map<Seq<char>, Seq<char>>, Map<Seq<char>, Seq<char>>),
    d: nat,
    k: int,
    inner: Seq<char>,
) -> Result<Seq<char>, Fault> {
    transcribed(reg[k].1, reg, child_scope(m, inner), f, (d - 1) as nat)
}

/// The inner text of the first tag of `name` in `t`.
pub open spec fn tag_inner(t: Seq<char>, name: Seq<char>) -> Seq<char> {
    match tag_span(t, name) {
        Some((s, b, e)) => t.subrange(b, e),
        None => Seq::empty(),
    }
}

/// Sibling tags do not see each other's declarations: in two texts `t1` and `t2` (say, one
/// text and the same text with other declarations inside a sibling tag), occurrences of a
/// rule's tag with the same inner text are replaced by the same text, the expansion that the
/// caller's scope and that inner text alone determine.
pub proof fn lemma_sibling_isolation(
    t1: Seq<char>,
    t2: Seq<char>,
    reg: Seq<(Seq<char>, Seq<char>)>,
    m: Map<Seq<char>, Seq<char>>,
    f: (Map<Seq<char>, Seq<char>>, Map<Seq<char>, Seq<char>>),
    d: nat,
    k: int,
    c1: bool,
    c2: bool,
)
    requires
        0 <= k < reg.len(),
        d > 0,
        tag_span(t1, reg[k].0) is Some,
        tag_span(t2, reg[k].0) is Some,
        tag_inner(t1, reg[k].0) == tag_inner(t2, reg[k].0),
    ensures
        ({
            let (s1, b1, e1) = tag_span(t1, reg[k].0)->0;
            let (s2, b2, e2) = tag_span(t2, reg[k].0)->0;
            let x = expansion(reg, m, f, d, k, t1.subrange(b1, e1));
            let l = tag_close(reg[k].0).len();
            &&& x == expansion(reg, m, f, d, k, t2.subrange(b2, e2))
            &&& pass(t1, reg, m, f, d, k, c1) == match x {
                Err(y) => Err(y),
                Ok(y) => pass(t1.subrange(0, s1) + y + t1.subrange(e1 + l, t1.len() as int), reg, m, f, d, k + 1, true),
            }
            &&& pass(t2, reg, m, f, d, k, c2) == match x {
                Err(y) => Err(y),
                Ok(y) => pass(t2.subrange(0, s2) + y + t2.subrange(e2 + l, t2.len() as int), reg, m, f, d, k + 1, true),
            }
        }),
{
}

/// The base scope describes the latest dated article: `recentDate` is its timestamp, no dated
/// article is later, `recentLink` is its link, and `recentTitle` is the title it declares.
pub proof fn lemma_recent_is_latest(
    arts: Seq<(Seq<char>, Seq<char>)>,
    stamps: Seq<Option<Timestamp>>,
    template: Seq<char>,
    image: Seq<char>,
    image_desc: Seq<char>,
    f: (Map<Seq<char>, Seq<char>>, Map<Seq<char>, Seq<char>>),
)
    requires
        stamps.len() == arts.len(),
        seeded(arts, stamps, template, image, image_desc, f) is Ok,
    ensures
        ({
            let m = seeded(arts, stamps, template, image, image_desc, f)->Ok_0;
            let i = latest(stamps)->0;
            &&& latest(stamps) is Some
            &&& 0 <= i < stamps.len()
            &&& stamps[i] is Some
            &&& forall|j: int| 0 <= j < stamps.len() && #[trigger] stamps[j] is Some ==> !later(stamps[j]->0, stamps[i]->0)
            &&& m[RECENT_DATE@] == timestamp_text(stamps[i]->0)
            &&& m[RECENT_LINK@] == arts[i].1
            &&& embedded(article_body(arts[i].0), f) is Ok
            &&& declarations(embedded(article_body(arts[i].0), f)->Ok_0).contains_key(TITLE@) ==> m[RECENT_TITLE@]
                == declarations(embedded(article_body(arts[i].0), f)->Ok_0)[TITLE@]
        }),
{
    lemma_latest_among(stamps, stamps.len() as int);
    reveal_strlit("recentDate");
    reveal_strlit("recentLink");
    reveal_strlit("recentTitle");
    reveal_strlit("recentText");
    reveal_strlit("recentImage");
    reveal_strlit("recentImageDescription");
    reveal_strlit("articleList");
    assert(RECENT_DATE@ == "recentDate"@);
    assert(RECENT_LINK@ == "recentLink"@);
    assert(RECENT_TITLE@ == "recentTitle"@);
    assert(RECENT_TEXT@ == "recentText"@);
    assert(RECENT_IMAGE@ == "recentImage"@);
    assert(RECENT_IMAGE_DESCRIPTION@ == "recentImageDescription"@);
    assert(ARTICLE_LIST@ == "articleList"@);
    // The keys differ: each pair is told apart by one character.
    assert(RECENT_DATE@[6] != RECENT_LINK@[6]);
    assert(RECENT_DATE@[6] != RECENT_TEXT@[6]);
    assert(RECENT_LINK@[6] != RECENT_TEXT@[6]);
    assert(RECENT_TITLE@[6] != RECENT_IMAGE@[6]);
    assert(RECENT_TITLE@[0] != ARTICLE_LIST@[0]);
    assert(RECENT_TITLE@[7] != RECENT_TEXT@[7]);
    assert(RECENT_TITLE@[7] != RECENT_IMAGE_DESCRIPTION@[7]);
    if latest(stamps) is None {
        assert(seeded(arts, stamps, template, image, image_desc, f) is Err);
    }
    let i = latest(stamps)->0;
    if embedded(article_body(arts[i].0), f) is Err {
        assert(seeded(arts, stamps, template, image, image_desc, f) is Err);
    }
    let v = declarations(embedded(article_body(arts[i].0), f)->Ok_0);
    let m0 = Map::empty().insert(RECENT_IMAGE@, image).insert(RECENT_IMAGE_DESCRIPTION@, image_desc).insert(
        RECENT_DATE@,
        timestamp_text(stamps[i]->0),
    ).insert(RECENT_LINK@, arts[i].1);
    let m1 = copy_if(m0, RECENT_TITLE@, v, TITLE@);
    let m2 = if v.contains_key(CONTENT@) {
        m1.insert(RECENT_TEXT@, preview(v[CONTENT@]))
    } else {
        m1
    };
    let m3 = copy_if(m2, RECENT_IMAGE@, v, IMAGE_HERO@);
    let m4 = copy_if(m3, RECENT_IMAGE_DESCRIPTION@, v, IMAGE_HERO_ALT@);
    let m = m4.insert(ARTICLE_LIST@, article_list(arts, template, arts.len() as int));
    assert(seeded(arts, stamps, template, image, image_desc, f) == Ok::<Map<Seq<char>, Seq<char>>, PreloadFault>(m));
    if v.contains_key(TITLE@) {
        assert(m1[RECENT_TITLE@] == v[TITLE@]);
        assert(m2[RECENT_TITLE@] == v[TITLE@]);
        assert(m3[RECENT_TITLE@] == v[TITLE@]);
        assert(m4[RECENT_TITLE@] == v[TITLE@]);
    }
}

} // verus!
