use vstd::prelude::*;
use crate::articles::{html_path, path_to_html_path, preview, preview_chars, views};
use crate::dates::{format_timestamp, latest, latest_index, parse_timestamp, parsed_timestamp, timestamp_text, Timestamp};
use crate::declarations::{declarations, read_vars_chars};
use crate::fragments::{embed_chars, embedded, FragmentTable};
use crate::placeholders::{replace_vars_chars, substituted};
use crate::scope::Scope;
use crate::text::{chars_of, find, find_last, first_at, last_at, push_range, slice, string_of};

verus! {

pub const DATE_MARK: &'static str = "date={{";
pub const TITLE_MARK: &'static str = "title={{";
pub const TITLE: &'static str = "title";
pub const CONTENT: &'static str = "content";
pub const IMAGE_HERO: &'static str = "imageHero";
pub const IMAGE_HERO_ALT: &'static str = "imageHeroAlt";
pub const RECENT_TITLE: &'static str = "recentTitle";
pub const RECENT_DATE: &'static str = "recentDate";
pub const RECENT_LINK: &'static str = "recentLink";
pub const RECENT_IMAGE: &'static str = "recentImage";
pub const RECENT_IMAGE_DESCRIPTION: &'static str = "recentImageDescription";
pub const RECENT_TEXT: &'static str = "recentText";
pub const ARTICLE_LIST: &'static str = "articleList";
pub const ITEM_DATE: &'static str = "itemDate";
pub const ITEM_LINK: &'static str = "itemLink";
pub const ITEM_DESCRIPTION: &'static str = "itemDescription";

/// An article file: its path from the content root, one component each, and its text.
pub struct ArticleSource {
    pub path: Vec<String>,
    pub text: String,
}

/// An article's text and its root-relative link.
pub open spec fn article_view(a: ArticleSource) -> (Seq<char>, Seq<char>) {
    (a.text@, html_path(views(a.path@)))
}

pub open spec fn articles_view(v: Seq<ArticleSource>) -> Seq<(Seq<char>, Seq<char>)> {
    v.map_values(|a: ArticleSource| article_view(a))
}

/// Where the line that holds position `s` ends.
pub open spec fn line_end(t: Seq<char>, s: int) -> int {
    let n = first_at(t, seq!['\n'], s, false);
    if n >= s {
        n
    } else {
        t.len() as int
    }
}

/// The value of the first `pfx` at or after `from` that a `}}` follows on its line: the text
/// from `pfx` up to the last `}}` of that line.
pub open spec fn capture_from(t: Seq<char>, pfx: Seq<char>, from: int) -> Option<Seq<char>>
    decreases t.len() - from,
{
    let p = first_at(t, pfx, from, false);
    if from < 0 || p < from || p >= t.len() {
        None
    } else {
        let s = p + pfx.len();
        let e = last_at(t, seq!['}', '}'], s, line_end(t, s));
        if e >= s {
            Some(t.subrange(s, e))
        } else {
            capture_from(t, pfx, p + 1)
        }
    }
}

/// The value that `t` gives on one line as `pfx` ... `}}`, such as `date={{...}}`.
pub open spec fn line_capture(t: Seq<char>, pfx: Seq<char>) -> Option<Seq<char>> {
    capture_from(t, pfx, 0)
}

/// The inner text of the first wrapping tag pair at or after `i`: the first `<X>` (on one
/// line) for which a `</X>` follows, up to the last such `</X>`; where the inner text starts
/// and ends.
pub open spec fn wrap_from(t: Seq<char>, i: int) -> Option<(int, int)>
    decreases t.len() - i,
{
    if i < 0 || i >= t.len() {
        None
    } else {
        let q = first_at(t, seq!['>'], i + 1, true);
        let c = last_at(t, seq!['<', '/'] + t.subrange(i + 1, q) + seq!['>'], q + 1, t.len() as int);
        if t[i] == '<' && i + 1 <= q && q < t.len() && c >= q + 1 {
            Some((q + 1, c))
        } else {
            wrap_from(t, i + 1)
        }
    }
}

/// The body of an article: the inner text of its outer wrapping tag pair (see `wrap_from`);
/// all of `t` where there is none.
pub open spec fn article_body(t: Seq<char>) -> Seq<char> {
    match wrap_from(t, 0) {
        Some((a, b)) => t.subrange(a, b),
        None => t,
    }
}

/// The timestamp that an article declares, where it declares one that parses.
pub open spec fn stamp_of(t: Seq<char>) -> Option<Timestamp> {
    match line_capture(t, DATE_MARK@) {
        None => None,
        Some(c) => match parsed_timestamp(c) {
            None => None,
            Some(f) => Some(
                Timestamp {
                    year: f.0 as i32,
                    month: f.1 as u32,
                    day: f.2 as u32,
                    hour: f.3 as u32,
                    minute: f.4 as u32,
                },
            ),
        },
    }
}

pub open spec fn stamps_of(arts: Seq<(Seq<char>, Seq<char>)>) -> Seq<Option<Timestamp>> {
    arts.map_values(|a: (Seq<char>, Seq<char>)| stamp_of(a.0))
}

/// The variables of an article's entry in the list: its date, its link and its title; `None`
/// for an article that declares no date or no title.
pub open spec fn item_scope(text: Seq<char>, link: Seq<char>) -> Option<Map<Seq<char>, Seq<char>>> {
    match (line_capture(text, DATE_MARK@), line_capture(text, TITLE_MARK@)) {
        (Some(date), Some(title)) => Some(
            Map::empty().insert(ITEM_DATE@, date).insert(ITEM_LINK@, link).insert(
                ITEM_DESCRIPTION@,
                title,
            ),
        ),
        _ => None,
    }
}

/// The list entries of the first `n` articles, each the item template with the article's
/// variables substituted, in order.
pub open spec fn article_list(arts: Seq<(Seq<char>, Seq<char>)>, template: Seq<char>, n: int) -> Seq<char>
    decreases n,
{
    if n <= 0 {
        Seq::empty()
    } else {
        article_list(arts, template, n - 1) + match item_scope(arts[n - 1].0, arts[n - 1].1) {
            Some(m) => substituted(template, m),
            None => Seq::empty(),
        }
    }
}

/// Why preloading failed.
pub enum PreloadFault {
    NoArticlesFound,
    MissingFragment(Seq<char>),
}

/// Why preloading failed: no article declares a date that parses, or the latest article
/// includes a fragment file that the table does not know yet.
pub enum PreloadError {
    NoArticlesFound,
    MissingFragment(String),
}

impl View for PreloadError {
    type V = PreloadFault;

    open spec fn view(&self) -> PreloadFault {
        match self {
            PreloadError::NoArticlesFound => PreloadFault::NoArticlesFound,
            PreloadError::MissingFragment(p) => PreloadFault::MissingFragment(p@),
        }
    }
}

/// `m` with `k` bound to `v[key]` where `v` binds `key`.
pub open spec fn copy_if(
    m: Map<Seq<char>, Seq<char>>,
    k: Seq<char>,
    v: Map<Seq<char>, Seq<char>>,
    key: Seq<char>,
) -> Map<Seq<char>, Seq<char>> {
    if v.contains_key(key) {
        m.insert(k, v[key])
    } else {
        m
    }
}

/// The base scope: the defaults, then what the latest article declares, then the list of
/// all articles.
pub open spec fn seeded(
    arts: Seq<(Seq<char>, Seq<char>)>,
    stamps: Seq<Option<Timestamp>>,
    template: Seq<char>,
    image: Seq<char>,
    image_desc: Seq<char>,
    f: (Map<Seq<char>, Seq<char>>, Map<Seq<char>, Seq<char>>),
) -> Result<Map<Seq<char>, Seq<char>>, PreloadFault> {
    match latest(stamps) {
        None => Err(PreloadFault::NoArticlesFound),
        Some(i) => match embedded(article_body(arts[i].0), f) {
            Err(p) => Err(PreloadFault::MissingFragment(p)),
            Ok(b) => {
                let v = declarations(b);
                let m = Map::empty().insert(RECENT_IMAGE@, image).insert(
                    RECENT_IMAGE_DESCRIPTION@,
                    image_desc,
                ).insert(RECENT_DATE@, timestamp_text(stamps[i]->0)).insert(RECENT_LINK@, arts[i].1);
                let m = copy_if(m, RECENT_TITLE@, v, TITLE@);
                let m = if v.contains_key(CONTENT@) {
                    m.insert(RECENT_TEXT@, preview(v[CONTENT@]))
                } else {
                    m
                };
                let m = copy_if(m, RECENT_IMAGE@, v, IMAGE_HERO@);
                let m = copy_if(m, RECENT_IMAGE_DESCRIPTION@, v, IMAGE_HERO_ALT@);
                Ok(m.insert(ARTICLE_LIST@, article_list(arts, template, arts.len() as int)))
            },
        },
    }
}

/// `line_capture` of `t` and `pfx`.
fn capture_line(t: &Vec<char>, pfx: &Vec<char>) -> (r: Option<Vec<char>>)
    ensures
        match r {
            Some(v) => line_capture(t@, pfx@) == Some(v@),
            None => line_capture(t@, pfx@) is None,
        },
{
    let nl: Vec<char> = vec!['\n'];
    let cc: Vec<char> = vec!['}', '}'];
    proof {
        assert(nl@ =~= seq!['\n']);
        assert(cc@ =~= seq!['}', '}']);
    }
    let mut from: usize = 0;
    while from < t.len()
        invariant
            nl@ == seq!['\n'],
            cc@ == seq!['}', '}'],
            line_capture(t@, pfx@) == capture_from(t@, pfx@, from as int),
        decreases t.len() - from,
    {
        proof {
            crate::text::lemma_first_at_bounds(t@, pfx@, from as int, false);
        }
        let p = match find(t, pfx, from, false) {
            Some(p) => p,
            None => {
                return None;
            },
        };
        if p >= t.len() {
            return None;
        }
        let s = p + pfx.len();
        proof {
            crate::text::lemma_first_at_bounds(t@, seq!['\n'], s as int, false);
        }
        let le = match find(t, &nl, s, false) {
            Some(n) => n,
            None => t.len(),
        };
        proof {
            assert(le as int == line_end(t@, s as int));
            crate::text::lemma_last_at_bounds(t@, seq!['}', '}'], s as int, le as int);
        }
        match find_last(t, &cc, s, le) {
            Some(e) => {
                return Some(slice(t, s, e));
            },
            None => {},
        }
        from = p + 1;
    }
    None
}

/// The body of an article (see `article_body`).
fn body_of(t: &Vec<char>) -> (r: Vec<char>)
    ensures
        r@ == article_body(t@),
{
    let tl = t.len();
    let gt: Vec<char> = vec!['>'];
    proof {
        assert(gt@ =~= seq!['>']);
    }
    let mut i: usize = 0;
    while i < tl
        invariant
            i <= tl,
            tl == t@.len(),
            gt@ == seq!['>'],
            wrap_from(t@, 0) == wrap_from(t@, i as int),
        decreases tl - i,
    {
        if t[i] == '<' && i + 1 < tl {
            proof {
                crate::text::lemma_first_at_bounds(t@, seq!['>'], i + 1, true);
            }
            match find(t, &gt, i + 1, true) {
                Some(q) => {
                    let mut close: Vec<char> = vec!['<', '/'];
                    push_range(&mut close, t, i + 1, q);
                    close.push('>');
                    proof {
                        assert(close@ =~= seq!['<', '/'] + t@.subrange(i + 1, q as int) + seq!['>']);
                        crate::text::lemma_last_at_bounds(t@, close@, q + 1, tl as int);
                    }
                    match find_last(t, &close, q + 1, tl) {
                        Some(c) => {
                            return slice(t, q + 1, c);
                        },
                        None => {},
                    }
                },
                None => {},
            }
        }
        i += 1;
    }
    proof {
        assert(t@.subrange(0, tl as int) =~= t@);
    }
    slice(t, 0, tl)
}

/// The timestamp that an article's text declares as `date={{YYYY-MM-DD HH:MM}}`, where it
/// declares one that parses.
pub fn article_stamp(text: &str) -> (r: Option<Timestamp>)
    ensures
        r == stamp_of(text@),
{
    let t = chars_of(text);
    let mark = chars_of(DATE_MARK);
    match capture_line(&t, &mark) {
        None => None,
        Some(c) => parse_timestamp(string_of(&c).as_str()),
    }
}

/// The list entries of `articles`, each `template` with the article's `itemDate`, `itemLink`
/// and `itemDescription` substituted, in order; only articles that declare both a date and a
/// title have one.
pub fn load_articles(articles: &Vec<ArticleSource>, template: &str) -> (r: String)
    ensures
        r@ == article_list(articles_view(articles@), template@, articles@.len() as int),
{
    let t = chars_of(template);
    string_of(&load_articles_chars(articles, &t))
}

/// `load_articles` with the template as a sequence of characters.
fn load_articles_chars(articles: &Vec<ArticleSource>, template: &Vec<char>) -> (r: Vec<char>)
    ensures
        r@ == article_list(articles_view(articles@), template@, articles@.len() as int),
{
    let ghost arts = articles_view(articles@);
    let title_mark = chars_of(TITLE_MARK);
    let date_mark = chars_of(DATE_MARK);
    let mut out: Vec<char> = Vec::new();
    let mut j: usize = 0;
    while j < articles.len()
        invariant
            j <= articles@.len(),
            arts == articles_view(articles@),
            title_mark@ == TITLE_MARK@,
            date_mark@ == DATE_MARK@,
            out@ == article_list(arts, template@, j as int),
        decreases articles.len() - j,
    {
        let a = &articles[j];
        proof {
            assert(arts[j as int] == article_view(articles@[j as int]));
        }
        let t = chars_of(a.text.as_str());
        match (capture_line(&t, &date_mark), capture_line(&t, &title_mark)) {
            (Some(date), Some(title)) => {
                let mut m = Scope::new();
                m.set(chars_of(ITEM_DATE), date);
                let link = path_to_html_path(&a.path);
                m.set(chars_of(ITEM_LINK), chars_of(link.as_str()));
                m.set(chars_of(ITEM_DESCRIPTION), title);
                proof {
                    assert(item_scope(arts[j as int].0, arts[j as int].1) == Some(m@));
                }
                let item = replace_vars_chars(template, &m);
                push_range(&mut out, &item, 0, item.len());
                proof {
                    assert(item@.subrange(0, item@.len() as int) =~= item@);
                    assert(out@ =~= article_list(arts, template@, j + 1));
                }
            },
            _ => {
                proof {
                    assert(out@ =~= article_list(arts, template@, j + 1));
                }
            },
        }
        j += 1;
    }
    out
}

/// Binds `k` in `m` to the value of `key` in `v`, where `v` binds `key`.
fn copy_var(m: &mut Scope, k: &str, v: &Scope, key: &str)
    ensures
        final(m)@ == copy_if(old(m)@, k@, v@, key@),
{
    match v.lookup(&chars_of(key)) {
        Some(x) => {
            let y = slice(x, 0, x.len());
            proof {
                assert(y@ =~= x@);
            }
            m.set(chars_of(k), y);
        },
        None => {},
    }
}

/// The base scope from articles whose timestamps are given: `recentImage` and
/// `recentImageDescription` from the defaults, `recentDate` and `recentLink` of the latest
/// article, then its `title`, the preview of its `content`, its `imageHero` and
/// `imageHeroAlt`, where it declares them, and `articleList` from all articles. Fails where
/// no timestamp is present.
pub fn seed_variables(
    articles: &Vec<ArticleSource>,
    stamps: &Vec<Option<Timestamp>>,
    item_template: &str,
    default_image: &str,
    default_image_desc: &str,
    fragments: &FragmentTable,
) -> (r: Result<Scope, PreloadError>)
    requires
        stamps@.len() == articles@.len(),
    ensures
        (r matches Err(PreloadError::NoArticlesFound)) <==> (forall|j: int|
            0 <= j < stamps@.len() ==> #[trigger] stamps@[j] is None),
        match r {
            Ok(s) => seeded(articles_view(articles@), stamps@, item_template@, default_image@, default_image_desc@, fragments@)
                == Ok::<Map<Seq<char>, Seq<char>>, PreloadFault>(s@),
            Err(e) => seeded(articles_view(articles@), stamps@, item_template@, default_image@, default_image_desc@, fragments@)
                == Err::<Map<Seq<char>, Seq<char>>, PreloadFault>(e@),
        },
{
    let ghost arts = articles_view(articles@);
    let i = match latest_index(stamps) {
        Some(i) => i,
        None => {
            return Err(PreloadError::NoArticlesFound);
        },
    };
    proof {
        crate::dates::lemma_latest_among(stamps@, stamps@.len() as int);
        assert(latest(stamps@) == Some(i as int));
        assert(arts[i as int] == article_view(articles@[i as int]));
    }
    let t = chars_of(articles[i].text.as_str());
    let body = body_of(&t);
    let b = match embed_chars(&body, fragments) {
        Ok(b) => b,
        Err(p) => {
            return Err(PreloadError::MissingFragment(string_of(&p)));
        },
    };
    let vars = read_vars_chars(&b);
    let stamp = match &stamps[i] {
        Some(st) => *st,
        None => {
            return Err(PreloadError::NoArticlesFound);
        },
    };
    let mut m = Scope::new();
    m.insert(RECENT_IMAGE, default_image);
    m.insert(RECENT_IMAGE_DESCRIPTION, default_image_desc);
    let date = format_timestamp(&stamp);
    m.insert(RECENT_DATE, date.as_str());
    let link = path_to_html_path(&articles[i].path);
    m.insert(RECENT_LINK, link.as_str());
    copy_var(&mut m, RECENT_TITLE, &vars, TITLE);
    match vars.lookup(&chars_of(CONTENT)) {
        Some(x) => m.set(chars_of(RECENT_TEXT), preview_chars(x)),
        None => {},
    }
    copy_var(&mut m, RECENT_IMAGE, &vars, IMAGE_HERO);
    copy_var(&mut m, RECENT_IMAGE_DESCRIPTION, &vars, IMAGE_HERO_ALT);
    let list = load_articles_chars(articles, &chars_of(item_template));
    m.set(chars_of(ARTICLE_LIST), list);
    Ok(m)
}

/// The timestamps that the articles declare, one for each article.
pub fn article_stamps(articles: &Vec<ArticleSource>) -> (r: Vec<Option<Timestamp>>)
    ensures
        r@ == stamps_of(articles_view(articles@)),
{
    let ghost arts = articles_view(articles@);
    let mut r: Vec<Option<Timestamp>> = Vec::new();
    let mut j: usize = 0;
    while j < articles.len()
        invariant
            j <= articles@.len(),
            arts == articles_view(articles@),
            r@ == stamps_of(arts).subrange(0, j as int),
        decreases articles.len() - j,
    {
        proof {
            assert(arts[j as int] == article_view(articles@[j as int]));
        }
        r.push(article_stamp(articles[j].text.as_str()));
        j += 1;
        proof {
            assert(r@ =~= stamps_of(arts).subrange(0, j as int));
        }
    }
    proof {
        assert(r@ =~= stamps_of(arts));
    }
    r
}

/// The index of the article with the latest declared timestamp, the first of equal ones;
/// `None` where no article declares one that parses.
pub fn most_recent_html_file(articles: &Vec<ArticleSource>) -> (r: Option<usize>)
    ensures
        r == (match latest(stamps_of(articles_view(articles@))) {
            Some(i) => Some(i as usize),
            None => None::<usize>,
        }),
{
    let stamps = article_stamps(articles);
    latest_index(&stamps)
}

/// The base scope of a site from its articles (see `seed_variables`), each article's
/// timestamp read from its `date={{...}}` declaration.
pub fn preload_variables(
    articles: &Vec<ArticleSource>,
    item_template: &str,
    default_image: &str,
    default_image_desc: &str,
    fragments: &FragmentTable,
) -> (r: Result<Scope, PreloadError>)
    ensures
        (r matches Err(PreloadError::NoArticlesFound)) <==> (forall|j: int|
            0 <= j < articles@.len() ==> #[trigger] stamps_of(articles_view(articles@))[j] is None),
        match r {
            Ok(s) => seeded(articles_view(articles@), stamps_of(articles_view(articles@)), item_template@, default_image@, default_image_desc@, fragments@)
                == Ok::<Map<Seq<char>, Seq<char>>, PreloadFault>(s@),
            Err(e) => seeded(articles_view(articles@), stamps_of(articles_view(articles@)), item_template@, default_image@, default_image_desc@, fragments@)
                == Err::<Map<Seq<char>, Seq<char>>, PreloadFault>(e@),
        },
{
    let stamps = article_stamps(articles);
    seed_variables(articles, &stamps, item_template, default_image, default_image_desc, fragments)
}

} // verus!
