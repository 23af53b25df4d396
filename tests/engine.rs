use static_generator::declarations::read_vars;
use static_generator::fragments::{replace_md_placeholder, FragmentTable};
use static_generator::output::minified_output;
use static_generator::placeholders::replace_vars;
use static_generator::scope::Scope;
use static_generator::transcribe::{transcribe, Registry, TranscribeError};

fn run(text: &str, registry: &Registry, scope: &Scope) -> String {
    match transcribe(text, registry, scope, &FragmentTable::new()) {
        Ok(s) => s,
        Err(_) => panic!("transcription failed"),
    }
}

#[test]
fn passthrough_keeps_plain_text() {
    let mut reg = Registry::new();
    reg.add("greet", "<h1>[[name]]</h1>");
    let mut scope = Scope::new();
    scope.insert("title", "Hello");
    let text = "<html><body><p>Plain text, {braces} and [single] brackets.</p>\n</body></html>";
    assert_eq!(run(text, &reg, &scope), text);
}

#[test]
fn unresolved_placeholder_is_erased() {
    assert_eq!(run("[[missing]]", &Registry::new(), &Scope::new()), "");
}

#[test]
fn known_placeholder_is_substituted() {
    let mut scope = Scope::new();
    scope.insert("title", "Hello");
    assert_eq!(run("[[title]]", &Registry::new(), &scope), "Hello");
}

#[test]
fn nested_tag_expands() {
    let mut reg = Registry::new();
    reg.add("greet", "<h1>[[name]]</h1>");
    assert_eq!(run("<greet>name={{World}}</greet>", &reg, &Scope::new()), "<h1>World</h1>");
}

#[test]
fn sibling_tags_do_not_share_declarations() {
    let mut reg = Registry::new();
    reg.add("box", "<p>[[v]]</p>");
    assert_eq!(
        run("<box>v={{A}}</box><box>v={{B}}</box>", &reg, &Scope::new()),
        "<p>A</p><p>B</p>"
    );
    assert_eq!(run("<box>v={{A}}</box><box></box>", &reg, &Scope::new()), "<p>A</p><p></p>");
}

#[test]
fn tag_declaration_hides_caller_value() {
    let mut reg = Registry::new();
    reg.add("box", "<p>[[v]]/[[w]]</p>");
    let mut scope = Scope::new();
    scope.insert("v", "outer");
    scope.insert("w", "kept");
    assert_eq!(run("<box>v={{inner}}</box>", &reg, &scope), "<p>inner/kept</p>");
}

#[test]
fn tags_nest_through_bodies() {
    let mut reg = Registry::new();
    reg.add("card", "<div><title>t={{[[heading]]}}</title></div>");
    reg.add("title", "<h2>[[t]]</h2>");
    assert_eq!(
        run("<card>heading={{News}}</card>", &reg, &Scope::new()),
        "<div><h2>News</h2></div>"
    );
}

#[test]
fn unknown_tags_stay_literal() {
    let mut reg = Registry::new();
    reg.add("greet", "hi");
    assert_eq!(run("<other>x</other><greet></greet>", &reg, &Scope::new()), "<other>x</other>hi");
}

#[test]
fn self_reintroducing_tag_is_too_deep() {
    let mut reg = Registry::new();
    reg.add("loop", "<loop>again</loop>");
    let r = transcribe("<loop>x</loop>", &reg, &Scope::new(), &FragmentTable::new());
    assert!(matches!(r, Err(TranscribeError::TooDeep)));
}

#[test]
fn read_vars_trims_and_overwrites() {
    let s = read_vars(" title = {{ Hello }}\n content={{a}} title={{Again}}");
    assert_eq!(s.get("title"), Some("Again".to_string()));
    assert_eq!(s.get("content"), Some("a".to_string()));
    assert_eq!(s.get("other"), None);
}

#[test]
fn read_vars_keeps_inner_braces() {
    let s = read_vars("code={{x{{y}}z}}");
    assert_eq!(s.get("code"), Some("x{{y}}z".to_string()));
    let e = read_vars("no declarations here");
    assert_eq!(e.get("no declarations here"), None);
}

#[test]
fn replace_vars_resolves_each_placeholder() {
    let mut scope = Scope::new();
    scope.insert("a", "1");
    scope.insert("b", "[[a]]");
    assert_eq!(replace_vars("x[[a]]y[[b]]z[[c]]", &scope), "x1y[[a]]z");
    assert_eq!(replace_vars("[[a\n]]", &scope), "[[a\n]]");
}

#[test]
fn fragment_is_converted_markdown() {
    let mut f = FragmentTable::new();
    f.add_markdown("intro.md", "# Hi");
    let r = replace_md_placeholder("a<md class=\"x\" src=\"intro.md\">ignored</md>b", &f);
    assert_eq!(r, Ok("a<h1>Hi</h1>b".to_string()));
}

#[test]
fn unreadable_or_srcless_fragment_is_empty() {
    let mut f = FragmentTable::new();
    f.add_unreadable("gone.md");
    assert_eq!(replace_md_placeholder("a<md src=\"gone.md\"></md>b", &f), Ok("ab".to_string()));
    assert_eq!(replace_md_placeholder("a<md title=\"t\"></md>b", &f), Ok("ab".to_string()));
}

#[test]
fn unknown_fragment_is_reported() {
    let f = FragmentTable::new();
    assert_eq!(
        replace_md_placeholder("<md src=\"new.md\"></md>", &f),
        Err("new.md".to_string())
    );
    let r = transcribe("<md src=\"new.md\"></md>", &Registry::new(), &Scope::new(), &f);
    assert!(matches!(r, Err(TranscribeError::MissingFragment(p)) if p == "new.md"));
}

#[test]
fn output_is_minified_unless_switched_off() {
    let page = "<p>  Hello, world!  </p>";
    assert_eq!(minified_output(page, false), page.as_bytes().to_vec());
    assert_eq!(minified_output(page, true), b"<p>Hello, world!".to_vec());
}

#[test]
fn opening_tag_may_carry_attributes() {
    let mut reg = Registry::new();
    reg.add("greet", "<h1>[[name]]</h1>");
    assert_eq!(
        run("<greet class=\"big\">name={{World}}</greet>", &reg, &Scope::new()),
        "<h1>World</h1>"
    );
    assert_eq!(run("<greeting>x</greeting>", &reg, &Scope::new()), "<greeting>x</greeting>");
}

#[test]
fn src_attribute_only_counts_in_opening_tag() {
    let f = FragmentTable::new();
    assert_eq!(
        replace_md_placeholder("a<md title=\"t\">src=\"x.md\"</md>b", &f),
        Ok("ab".to_string())
    );
}
