use vstd::prelude::*;

verus! {

/// Application identifier registered with the desktop session.
pub const APP_ID: &'static str = "org.gtk_rs.Fikby";

/// Documents with more characters than this are never highlighted automatically.
pub const HIGHLIGHT_CHAR_CUTOFF: usize = 200_000;

/// The two colour schemes the editor can run in.
#[derive(Debug, Clone, Copy, PartialEq, Eq, Structural)]
pub enum ThemeMode {
    Light,
    Dark,
}

impl ThemeMode {
    /// The stylesheet that dresses the window in this mode.
    pub fn css(&self) -> (r: &'static str)
        ensures
            *self == ThemeMode::Light ==> r@ == LIGHT_CSS@,
            *self == ThemeMode::Dark ==> r@ == DARK_CSS@,
    {
        match self {
            ThemeMode::Light => LIGHT_CSS,
            ThemeMode::Dark => DARK_CSS,
        }
    }

    /// The name of the highlighting theme that matches this mode.
    pub open spec fn theme_name(&self) -> Seq<char> {
        match *self {
            ThemeMode::Light => "base16-ocean.light"@,
            ThemeMode::Dark => "base16-ocean.dark"@,
        }
    }

    /// The name of the highlighting theme that matches this mode.
    pub fn syntax_theme_name(&self) -> (r: &'static str)
        ensures
            r@ == self.theme_name(),
            *self == ThemeMode::Light ==> r@ == "base16-ocean.light"@,
            *self == ThemeMode::Dark ==> r@ == "base16-ocean.dark"@,
    {
        match self {
            ThemeMode::Light => "base16-ocean.light",
            ThemeMode::Dark => "base16-ocean.dark",
        }
    }
}

/// Stylesheet of the light mode.
pub const LIGHT_CSS: &'static str = r#"
window {
    background: #ffffff;
    color: #000000;
}
.menubar {
    background: #f5f5f5;
    padding: 4px 10px;
}
.menubutton {
    font-weight: 600;
    padding: 2px 1px;
    border-radius: 4px;
}
.menubutton:hover {
    background: #e8e8e8;
}
.right-button {
    padding: 4px 8px;
    margin-right: 6px;
}
.gutter {
    background: #efefef;
    color: #444;
    padding-left: 6px;
    padding-right: 6px;
    padding-top: 0px;
    padding-bottom: 0px;
    font-family: monospace;
    font-size: 10pt;
    line-height: 1.2;
}
.editor-view {
    font-family: monospace;
    font-size: 10pt;
    line-height: 1.2;
    background: #ffffff;
    color: #000000;
}
.status {
    padding: 6px;
    background: #f5f5f5;
    color: #333;
    font-family: monospace;
}
notebook {
    background: #ffffff;
}
notebook > header {
    background: #f0f0f0;
}
notebook > header > tabs > tab {
    background: #e8e8e8;
    color: #333;
}
notebook > header > tabs > tab:checked {
    background: #ffffff;
    color: #000000;
}
paned > separator {
    background: #cccccc;
}
popover {
    background: #ffffff;
    color: #000000;
}
"#;

/// Stylesheet of the dark mode.
pub const DARK_CSS: &'static str = r#"
window {
    background: #1e1e1e;
    color: #d4d4d4;
}
.menubar {
    background: #2b2b2b;
    padding: 4px 10px;
}
.menubutton {
    font-weight: 600;
    padding: 2px 1px;
    border-radius: 4px;
    color: #e0e0e0;
}
.menubutton:hover {
    background: #3a3a3a;
}
.right-button {
    padding: 4px 8px;
    margin-right: 6px;
    color: #e0e0e0;
}
.gutter {
    background: #2b2b2b;
    color: #a0a0a0;
    padding-left: 6px;
    padding-right: 6px;
    padding-top: 0px;
    padding-bottom: 0px;
    font-family: monospace;
    font-size: 10pt;
    line-height: 1.2;
}
.editor-view {
    font-family: monospace;
    font-size: 10pt;
    line-height: 1.2;
    background: #1e1e1e;
    color: #d4d4d4;
}
.status {
    padding: 6px;
    background: #2b2b2b;
    color: #e0e0e0;
    font-family: monospace;
}
notebook {
    background: #1e1e1e;
}
notebook > header {
    background: #252526;
}
notebook > header > tabs > tab {
    background: #2b2b2b;
    color: #cccccc;
}
notebook > header > tabs > tab:checked {
    background: #1e1e1e;
    color: #ffffff;
}
paned > separator {
    background: #3e3e3e;
}
popover {
    background: #2b2b2b;
    color: #cccccc;
}
"#;

} // verus!
