use vstd::prelude::*;

verus! {

/// The visual mode a stylesheet is resolved for.
#[derive(Clone, Copy, PartialEq, Eq, Structural)]
pub enum ObsidianTheme {
    Light,
    Dark,
}

pub open spec fn theme_classname(t: ObsidianTheme) -> Seq<char> {
    match t {
        ObsidianTheme::Light => "theme-light"@,
        ObsidianTheme::Dark => "theme-dark"@,
    }
}

impl ObsidianTheme {
    /// The body class that selects this theme variant.
    pub fn classname(&self) -> (r: &'static str)
        ensures
            r@ == theme_classname(*self),
    {
        match self {
            ObsidianTheme::Light => "theme-light",
            ObsidianTheme::Dark => "theme-dark",
        }
    }
}

/// The appearance record of a vault, as plain values.
#[allow(non_snake_case)]
pub struct ObsidianAppearance {
    pub baseFontSize: i32,
    pub theme: Option<String>,
    pub cssTheme: Option<String>,
    pub accentColor: Option<String>,
    pub translucency: bool,
    pub monospaceFontFamily: String,
}

/// The fixed baseline set of environment classes, each preceded by a space.
pub open spec fn default_body_classes() -> Seq<char> {
    " mod-linux is-frameless is-hidden-frameless obsidian-app show-view-header highlightr-realistic css-settings-manager trim-cols checkbox-circle maximize-tables tabs-default tab-stack-top minimal-tab-title-visible is-maximized is-focused"@
}

/// Appends the fixed baseline environment classes to a class list.
pub fn with_default_body_classes(classes: String) -> (r: String)
    ensures
        r@ == classes@ + default_body_classes(),
{
    let mut r = classes;
    r.append(
        " mod-linux is-frameless is-hidden-frameless obsidian-app show-view-header highlightr-realistic css-settings-manager trim-cols checkbox-circle maximize-tables tabs-default tab-stack-top minimal-tab-title-visible is-maximized is-focused",
    );
    r
}

} // verus!
