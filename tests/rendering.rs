use blog_engine::blog_storage::PostMetadata;
use blog_engine::file_server::{FileServer, ServedFile};
use blog_engine::handlebars_support::{
    load_handlebars_theme, page_or_fallback, HandlebarsSupport, ThemeError, ThemeSources, FALLBACK_HTML,
};
use blog_engine::markdown::entry_from_document;
use std::collections::BTreeMap;

fn sources(home: &str) -> ThemeSources {
    ThemeSources {
        blog_entry: "<article>{{{blog_entry.html}}}</article>".to_owned(),
        entry_not_found: "<p>{{entry_not_found}} not found</p>".to_owned(),
        home: home.to_owned(),
    }
}

fn render_home(s: &HandlebarsSupport) -> String {
    let mut data = BTreeMap::new();
    data.insert("name", "blog");
    s.registry().render("home", &data).unwrap()
}

#[test]
fn markdown_body_is_rendered() {
    let meta = PostMetadata { title: "Hello".to_owned(), author: "A".to_owned(), publish_date: 1704067200 * 1_000_000_000 };
    let e = entry_from_document(meta, "# hi", 5, "hello.md".to_owned());
    assert!(e.html.contains("<h1>hi</h1>"));
    assert_eq!(e.filename, "hello.md");
    assert_eq!(e.creation_date, 5);
    assert_eq!(e.description.title, "Hello");
}

#[test]
fn request_paths_cannot_climb_out() {
    let f = FileServer::new("files");
    assert_eq!(f.resolve("style.css"), "files/style.css");
    assert_eq!(f.resolve("../secret"), "files/secret");
    assert_eq!(f.resolve("a/./b/../c.txt"), "files/a/c.txt");
    let g = FileServer::new("files/");
    assert_eq!(g.resolve("x.js"), "files/x.js");
}

#[test]
fn mime_is_guessed_from_extension() {
    let css = ServedFile::new("files/style.css", vec![1, 2]);
    assert_eq!(css.mime_type, "text/css");
    assert_eq!(css.data, vec![1, 2]);
    let unknown = ServedFile::new("files/blob", vec![]);
    assert_eq!(unknown.mime_type, "text/plain");
}

#[test]
fn theme_loads_all_templates() {
    let h = load_handlebars_theme(&sources("<h1>{{name}}</h1>")).unwrap();
    for name in ["blog_entry", "entry_not_found", "home", "hot_reload_script"] {
        assert!(h.has_template(name));
    }
}

#[test]
fn broken_template_is_reported() {
    assert_eq!(load_handlebars_theme(&sources("{{#if x}}oops")).err(), Some(ThemeError::Home));
}

#[test]
fn reload_swaps_theme_or_keeps_the_old_one() {
    let mut s = HandlebarsSupport::new("themes/default", &sources("<h1>{{name}}</h1>")).unwrap();
    assert_eq!(render_home(&s), "<h1>blog</h1>");
    assert!(s.reload_theme(&sources("<h2>{{name}}</h2>")).is_ok());
    assert_eq!(render_home(&s), "<h2>blog</h2>");
    assert_eq!(s.reload_theme(&sources("{{#if x}}oops")), Err(ThemeError::Home));
    assert_eq!(render_home(&s), "<h2>blog</h2>");
    assert_eq!(s.theme_path(), "themes/default");
}

#[test]
fn each_broken_template_is_named() {
    let mut bad_entry = sources("<h1>{{name}}</h1>");
    bad_entry.blog_entry = "{{#if x}}oops".to_owned();
    assert_eq!(load_handlebars_theme(&bad_entry).err(), Some(ThemeError::BlogEntry));
    let mut bad_missing = sources("<h1>{{name}}</h1>");
    bad_missing.entry_not_found = "{{#each y}}".to_owned();
    assert_eq!(load_handlebars_theme(&bad_missing).err(), Some(ThemeError::EntryNotFound));
    assert!(HandlebarsSupport::new("t", &bad_missing).is_err());
}

#[test]
fn failed_render_gives_the_fallback_page() {
    assert_eq!(page_or_fallback(None), FALLBACK_HTML);
    assert_eq!(page_or_fallback(Some("<p>ok</p>".to_owned())), "<p>ok</p>");
}

#[test]
fn cleaned_path_is_placed_under_base() {
    let f = FileServer::new("files");
    assert_eq!(f.place("/a/b.css"), "files/a/b.css");
    assert_eq!(f.place("c.css"), "files/c.css");
    assert_eq!(f.resolve("/../../etc/passwd"), "files/etc/passwd");
}
