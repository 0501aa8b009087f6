use vstd::prelude::*;

verus! {

#[verifier::external_type_specification]
#[verifier::external_body]
pub struct ExHandlebars<'reg>(handlebars::Handlebars<'reg>);

#[verifier::external_type_specification]
#[verifier::external_body]
pub struct ExTemplateError(handlebars::TemplateError);

/// The templates registered in a registry: each name with the source text
/// that its template was compiled from.
pub uninterp spec fn registered_templates(h: handlebars::Handlebars<'static>) -> Map<
    Seq<char>,
    Seq<char>,
>;

/// Whether a source text compiles as a handlebars template.
pub uninterp spec fn template_compiles(source: Seq<char>) -> bool;

/// Relies on handlebars::Handlebars::new: a registry with no template.
#[verifier::external_body]
fn empty_registry() -> (r: handlebars::Handlebars<'static>)
    ensures
        registered_templates(r).dom() == Set::<Seq<char>>::empty(),
{
    handlebars::Handlebars::new()
}

/// Relies on handlebars::Handlebars::register_template_string: it compiles
/// `source`, which succeeds or fails on the text alone, and on success stores
/// the template under `name`; on a syntax error the registry is left as it
/// was.
#[verifier::external_body]
fn register_template(
    h: &mut handlebars::Handlebars<'static>,
    name: &str,
    source: &str,
) -> (r: Result<(), handlebars::TemplateError>)
    ensures
        r is Ok <==> template_compiles(source@),
        r is Ok ==> registered_templates(*final(h)) == registered_templates(*old(h)).insert(
            name@,
            source@,
        ),
        r is Err ==> registered_templates(*final(h)) == registered_templates(*old(h)),
{
    h.register_template_string(name, source)
}

pub const BLOG_ENTRY: &'static str = "blog_entry";
pub const BLOG_ENTRY_NOT_FOUND: &'static str = "entry_not_found";
pub const HOME: &'static str = "home";
pub const HANDLEBARS_RELOAD_PARTIAL: &'static str = "hot_reload_script";

/// The script that reloads a page when the server announces a change.
pub const HANDLEBARS_RELOAD_SCRIPT: &'static str = "<script>\nnew EventSource(\"/events\").onmessage = function (e) {\n  if (e.data === \"reload\") {\n    window.location.reload();\n  }\n};\n</script>\n";

/// The page sent when rendering fails.
pub const FALLBACK_HTML: &'static str = "<h1>Internal error</h1>";

/// The page for a render: the rendered text, or the minimal error page when
/// rendering failed.
pub fn page_or_fallback(rendered: Option<String>) -> (r: String)
    ensures
        match rendered {
            Some(p) => r == p,
            None => r@ == FALLBACK_HTML@,
        },
{
    match rendered {
        Some(p) => p,
        None => FALLBACK_HTML.to_owned(),
    }
}

/// Which template of a theme failed to compile.
#[derive(Clone, Copy, Debug, PartialEq, Eq, Structural)]
pub enum ThemeError {
    ReloadScript,
    BlogEntry,
    EntryNotFound,
    Home,
}

/// The sources of a theme's templates.
pub struct ThemeSources {
    pub blog_entry: String,
    pub entry_not_found: String,
    pub home: String,
}

/// Whether every template of a theme compiles.
pub open spec fn theme_compiles(sources: ThemeSources) -> bool {
    &&& template_compiles(HANDLEBARS_RELOAD_SCRIPT@)
    &&& template_compiles(sources.blog_entry@)
    &&& template_compiles(sources.entry_not_found@)
    &&& template_compiles(sources.home@)
}

/// The templates of a loaded theme, by name.
pub open spec fn theme_templates(sources: ThemeSources) -> Map<Seq<char>, Seq<char>> {
    Map::<Seq<char>, Seq<char>>::empty().insert(
        HANDLEBARS_RELOAD_PARTIAL@,
        HANDLEBARS_RELOAD_SCRIPT@,
    ).insert(BLOG_ENTRY@, sources.blog_entry@).insert(
        BLOG_ENTRY_NOT_FOUND@,
        sources.entry_not_found@,
    ).insert(HOME@, sources.home@)
}

/// The error of loading a theme: the first template, in loading order, that
/// does not compile.
pub open spec fn theme_error(sources: ThemeSources) -> ThemeError {
    if !template_compiles(HANDLEBARS_RELOAD_SCRIPT@) {
        ThemeError::ReloadScript
    } else if !template_compiles(sources.blog_entry@) {
        ThemeError::BlogEntry
    } else if !template_compiles(sources.entry_not_found@) {
        ThemeError::EntryNotFound
    } else {
        ThemeError::Home
    }
}

/// Compiles a theme: the reload partial, then the three page templates.
pub fn load_handlebars_theme(sources: &ThemeSources) -> (r: Result<
    handlebars::Handlebars<'static>,
    ThemeError,
>)
    ensures
        r is Ok <==> theme_compiles(*sources),
        r matches Ok(h) ==> registered_templates(h) == theme_templates(*sources),
        r matches Err(e) ==> e == theme_error(*sources),
{
    let mut h = empty_registry();
    if register_template(&mut h, HANDLEBARS_RELOAD_PARTIAL, HANDLEBARS_RELOAD_SCRIPT).is_err() {
        return Err(ThemeError::ReloadScript);
    }
    if register_template(&mut h, BLOG_ENTRY, sources.blog_entry.as_str()).is_err() {
        return Err(ThemeError::BlogEntry);
    }
    if register_template(&mut h, BLOG_ENTRY_NOT_FOUND, sources.entry_not_found.as_str()).is_err() {
        return Err(ThemeError::EntryNotFound);
    }
    if register_template(&mut h, HOME, sources.home.as_str()).is_err() {
        return Err(ThemeError::Home);
    }
    Ok(h)
}

/// The active theme, replaced as a whole on reload.
pub struct HandlebarsSupport {
    handlebars: handlebars::Handlebars<'static>,
    theme_path: String,
}

impl HandlebarsSupport {
    pub closed spec fn templates(&self) -> Map<Seq<char>, Seq<char>> {
        registered_templates(self.handlebars)
    }

    pub closed spec fn path(&self) -> Seq<char> {
        self.theme_path@
    }

    /// The theme at `theme_path` compiled from `sources`.
    pub fn new(theme_path: &str, sources: &ThemeSources) -> (r: Result<HandlebarsSupport, ThemeError>)
        ensures
            r is Ok <==> theme_compiles(*sources),
            r matches Ok(s) ==> s.templates() == theme_templates(*sources) && s.path()
                == theme_path@,
            r matches Err(e) ==> e == theme_error(*sources),
    {
        let handlebars = load_handlebars_theme(sources)?;
        Ok(HandlebarsSupport { handlebars, theme_path: theme_path.to_owned() })
    }

    /// Swaps in the theme compiled from `sources`; when it does not compile,
    /// the active theme stays as it was.
    pub fn reload_theme(&mut self, sources: &ThemeSources) -> (r: Result<(), ThemeError>)
        ensures
            r is Ok <==> theme_compiles(*sources),
            r is Ok ==> final(self).templates() == theme_templates(*sources),
            r matches Err(e) ==> e == theme_error(*sources) && *final(self) == *old(self),
            final(self).path() == old(self).path(),
    {
        let handlebars = load_handlebars_theme(sources)?;
        self.handlebars = handlebars;
        Ok(())
    }

    /// The directory the theme is read from.
    pub fn theme_path(&self) -> (r: &str)
        ensures
            r@ == self.path(),
    {
        self.theme_path.as_str()
    }

    /// The compiled templates, for rendering.
    pub fn registry(&self) -> (r: &handlebars::Handlebars<'static>)
        ensures
            registered_templates(*r) == self.templates(),
    {
        &self.handlebars
    }
}

} // verus!
