use static_generator::articles::{path_to_html_path, short_text_preview};
use static_generator::dates::{format_timestamp, latest_index, Timestamp};
use static_generator::fragments::FragmentTable;
use static_generator::preload::{
    article_stamp, load_articles, most_recent_html_file, preload_variables, seed_variables,
    ArticleSource, PreloadError,
};

fn stamp(year: i32, month: u32, day: u32, hour: u32, minute: u32) -> Timestamp {
    Timestamp { year, month, day, hour, minute }
}

fn article(name: &str, text: &str) -> ArticleSource {
    ArticleSource { path: vec!["articles".to_string(), name.to_string()], text: text.to_string() }
}

#[test]
fn latest_index_picks_most_recent() {
    let stamps = vec![
        Some(stamp(2023, 1, 1, 0, 0)),
        Some(stamp(2024, 6, 1, 12, 0)),
        Some(stamp(2022, 5, 5, 5, 5)),
    ];
    assert_eq!(latest_index(&stamps), Some(1));
    assert_eq!(latest_index(&vec![None, None]), None);
    let ties = vec![None, Some(stamp(2024, 1, 1, 0, 0)), Some(stamp(2024, 1, 1, 0, 0))];
    assert_eq!(latest_index(&ties), Some(1));
}

#[test]
fn preload_selects_most_recent_article() {
    let articles = vec![
        article("a.html", "<article>\ndate={{2023-01-01 00:00}}\ntitle={{First}}\n</article>"),
        article("b.html", "<article>\ndate={{2024-06-01 12:00}}\ntitle={{Second}}\n</article>"),
        article("c.html", "<article>\ndate={{2022-05-05 05:05}}\ntitle={{Third}}\n</article>"),
    ];
    assert_eq!(most_recent_html_file(&articles), Some(1));
    let scope = match preload_variables(&articles, "<li>[[itemDescription]]</li>", "d.png", "desc", &FragmentTable::new()) {
        Ok(s) => s,
        Err(_) => panic!("preloading failed"),
    };
    assert_eq!(scope.get("recentDate"), Some("2024-06-01 12:00".to_string()));
    assert_eq!(scope.get("recentTitle"), Some("Second".to_string()));
    assert_eq!(scope.get("recentLink"), Some("/articles/b.html".to_string()));
    assert_eq!(scope.get("recentImage"), Some("d.png".to_string()));
    assert_eq!(scope.get("recentImageDescription"), Some("desc".to_string()));
    assert_eq!(
        scope.get("articleList"),
        Some("<li>First</li><li>Second</li><li>Third</li>".to_string())
    );
}

#[test]
fn preload_takes_hero_image_and_preview() {
    let articles = vec![article(
        "x.html",
        "<article>date={{2020-02-02 02:02}}\nimageHero={{hero.jpg}} imageHeroAlt={{A hero}} content={{<p>Short <b>text</b></p>}}</article>",
    )];
    let scope = match preload_variables(&articles, "", "d.png", "desc", &FragmentTable::new()) {
        Ok(s) => s,
        Err(_) => panic!("preloading failed"),
    };
    assert_eq!(scope.get("recentImage"), Some("hero.jpg".to_string()));
    assert_eq!(scope.get("recentImageDescription"), Some("A hero".to_string()));
    assert_eq!(scope.get("recentText"), Some("Short text".to_string()));
    assert_eq!(scope.get("recentTitle"), None);
}

#[test]
fn preload_fails_without_dated_articles() {
    let none: Vec<ArticleSource> = Vec::new();
    let r = preload_variables(&none, "", "d.png", "desc", &FragmentTable::new());
    assert!(matches!(r, Err(PreloadError::NoArticlesFound)));
    let undated = vec![article("a.html", "title={{No date}}"), article("b.html", "date={{not a date}}")];
    let r = preload_variables(&undated, "", "d.png", "desc", &FragmentTable::new());
    assert!(matches!(r, Err(PreloadError::NoArticlesFound)));
}

#[test]
fn seed_reports_missing_fragment() {
    let articles = vec![article("a.html", "<article>title={{T}} content={{<md src=\"body.md\"></md>}}</article>")];
    let r = seed_variables(&articles, &vec![Some(stamp(2021, 3, 4, 5, 6))], "", "i", "d", &FragmentTable::new());
    assert!(matches!(r, Err(PreloadError::MissingFragment(p)) if p == "body.md"));
    let mut f = FragmentTable::new();
    f.add_markdown("body.md", "# Hi");
    let s = match seed_variables(&articles, &vec![Some(stamp(2021, 3, 4, 5, 6))], "", "i", "d", &f) {
        Ok(s) => s,
        Err(_) => panic!("preloading failed"),
    };
    assert_eq!(s.get("recentDate"), Some("2021-03-04 05:06".to_string()));
    assert_eq!(s.get("recentTitle"), Some("T".to_string()));
    assert_eq!(s.get("recentText"), Some("Hi".to_string()));
}

#[test]
fn preview_truncates_long_text() {
    let long = format!("<p>{}</p>", "a".repeat(200));
    let p = short_text_preview(&long);
    assert_eq!(p, format!("{}...", "a".repeat(75)));
    assert_eq!(p.chars().count(), 78);
}

#[test]
fn preview_keeps_short_text() {
    let short = "é".repeat(50);
    assert_eq!(short_text_preview(&format!("<b>{}</b>", short)), short);
    assert_eq!(short_text_preview(&"x".repeat(75)), "x".repeat(75));
    assert_eq!(short_text_preview("a <> b"), "a <> b");
}

#[test]
fn html_path_joins_components() {
    let parts = vec!["articles".to_string(), "a.html".to_string()];
    assert_eq!(path_to_html_path(&parts), "/articles/a.html");
    assert_eq!(path_to_html_path(&Vec::new()), "");
}

#[test]
fn timestamps_parse_and_format() {
    let t = article_stamp("x\ndate={{2024-06-01 12:00}}\n");
    assert!(matches!(t, Some(Timestamp { year: 2024, month: 6, day: 1, hour: 12, minute: 0 })));
    assert!(article_stamp("date={{2024-13-01 12:00}}").is_none());
    assert!(article_stamp("no date").is_none());
    assert_eq!(format_timestamp(&stamp(987, 1, 2, 3, 4)), "0987-01-02 03:04");
    assert_eq!(format_timestamp(&stamp(12345, 11, 12, 13, 14)), "+12345-11-12 13:14");
}

#[test]
fn article_list_skips_undated_or_untitled() {
    let articles = vec![
        article("a.html", "date={{2020-01-01 00:00}}\ntitle={{A}}"),
        article("b.html", "date={{2020-01-02 00:00}}"),
        article("c.html", "title={{C}}"),
    ];
    assert_eq!(
        load_articles(&articles, "[[itemDate]]|[[itemLink]]|[[itemDescription]];"),
        "2020-01-01 00:00|/articles/a.html|A;"
    );
}

#[test]
fn article_body_skips_leading_doctype() {
    let articles = vec![article(
        "a.html",
        "<!DOCTYPE html>\n<article>title={{Wrapped}}\ndate={{2020-01-01 00:00}}</article>",
    )];
    let scope = match preload_variables(&articles, "", "d.png", "desc", &FragmentTable::new()) {
        Ok(s) => s,
        Err(_) => panic!("preloading failed"),
    };
    assert_eq!(scope.get("recentTitle"), Some("Wrapped".to_string()));
}
