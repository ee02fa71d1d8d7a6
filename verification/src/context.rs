//! The render context: the immutable bundle of rendering policy shared by
//! reference across a whole render. Syntax and theme resources come from
//! syntect; the host's hooks are represented by what the tree must carry
//! for them (a flag for the link-render hook, ranges for the click hook).

use vstd::prelude::*;
use crate::render::HtmlError;

verus! {

#[verifier::external_type_specification]
#[verifier::external_body]
pub struct ExSyntaxSet(syntect::parsing::SyntaxSet);

#[verifier::external_type_specification]
#[verifier::external_body]
pub struct ExTheme(syntect::highlighting::Theme);

#[verifier::external_type_specification]
#[verifier::external_body]
pub struct ExThemeSet(syntect::highlighting::ThemeSet);

/// The names the theme set holds: the keys of its `themes` map.
pub uninterp spec fn theme_names(ts: syntect::highlighting::ThemeSet) -> Set<Seq<char>>;

/// Relies on syntect::highlighting::ThemeSet::load_defaults: the default
/// theme set bundled with syntect. Its documentation lists the keys of
/// the map, stated here so that a known name is owed a theme.
#[verifier::external_body]
fn load_default_theme_set() -> (r: syntect::highlighting::ThemeSet)
    ensures
        theme_names(r).contains("base16-ocean.light"@),
        theme_names(r).contains("base16-ocean.dark"@),
        theme_names(r).contains("base16-eighties.dark"@),
        theme_names(r).contains("base16-mocha.dark"@),
        theme_names(r).contains("InspiredGitHub"@),
        theme_names(r).contains("Solarized (dark)"@),
        theme_names(r).contains("Solarized (light)"@),
{
    syntect::highlighting::ThemeSet::load_defaults()
}

/// Relies on the public `themes` map of syntect::highlighting::ThemeSet
/// (a map from theme name to theme): yields a copy of the theme
/// registered under the name — some theme exactly when the name is a key.
#[verifier::external_body]
fn theme_by_name(
    ts: &syntect::highlighting::ThemeSet,
    name: &str,
) -> (r: Option<syntect::highlighting::Theme>)
    ensures
        r is Some <==> theme_names(*ts).contains(name@),
{
    ts.themes.get(name).cloned()
}

/// Relies on syntect::parsing::SyntaxSet::load_defaults_newlines: the
/// syntax definitions bundled with syntect, compiled for text with
/// newlines, as `highlighted_html_for_string` expects.
#[verifier::external_body]
fn load_default_syntaxes() -> syntect::parsing::SyntaxSet {
    syntect::parsing::SyntaxSet::load_defaults_newlines()
}

/// The tokens under which a syntax of the set can be found: every file
/// extension of one of its syntaxes, and every syntax name compared
/// case-insensitively, as `SyntaxSet::find_syntax_by_token` looks them up.
pub uninterp spec fn syntax_tokens(ss: syntect::parsing::SyntaxSet) -> Set<Seq<char>>;

/// Relies on syntect::parsing::SyntaxSet::find_syntax_by_token followed by
/// syntect::html::highlighted_html_for_string, on the same set, so the
/// syntax handed to the highlighter always belongs to the set it is
/// resolved against. An unknown token yields `None`; a known token yields
/// the highlighted markup unless the highlighter itself errs, which also
/// becomes `None`.
#[verifier::external_body]
pub(crate) fn highlight_with_token(
    s: &str,
    ss: &syntect::parsing::SyntaxSet,
    token: &str,
    theme: &syntect::highlighting::Theme,
) -> (r: Option<String>)
    ensures
        r is Some ==> syntax_tokens(*ss).contains(token@),
{
    let syntax = ss.find_syntax_by_token(token)?;
    syntect::html::highlighted_html_for_string(s, ss, syntax, theme).ok()
}

/// All the context needed to render markdown. Immutable once built.
pub struct RenderContext {
    /// syntaxes used for syntax highlighting
    pub syntax_set: syntect::parsing::SyntaxSet,
    /// theme used for syntax highlighting
    pub theme: syntect::highlighting::Theme,
    /// whether a host link-render hook is installed; when set, every link
    /// and image is handed back as `Node::CustomLink` for the hook
    pub custom_links: bool,
}

impl RenderContext {
    /// Builds the context. Fails only when the requested theme name is
    /// not among the loaded default themes — a fatal configuration
    /// error. Without a theme name, "base16-ocean.light" is used, which
    /// the default set is documented to hold, so construction is then
    /// owed to succeed.
    pub fn new(theme_name: Option<String>, custom_links: bool) -> (r: Result<
        RenderContext,
        HtmlError,
    >)
        ensures
            r matches Ok(c) ==> c.custom_links == custom_links,
            r matches Err(e) ==> e.0@ == "unknown theme"@,
            theme_name is None ==> r is Ok,
            r is Err ==> theme_name is Some,
    {
        let name: String = match theme_name {
            Some(n) => n,
            None => "base16-ocean.light".to_owned(),
        };
        let theme_set = load_default_theme_set();
        let theme = match theme_by_name(&theme_set, name.as_str()) {
            Some(t) => t,
            None => {
                return HtmlError::err("unknown theme");
            },
        };
        let syntax_set = load_default_syntaxes();
        Ok(RenderContext { syntax_set, theme, custom_links })
    }
}

} // verus!
