//! Themes: the colors, spacing, fonts and sizes of the launcher, given to
//! the page as CSS variables so that a custom theme restyles every component.

use vstd::prelude::*;
use vstd::string::*;

verus! {

/// Every visual property of the launcher.
#[derive(Debug, Clone, PartialEq)]
pub struct Theme {

    pub name: String,

    // Colors
    pub bg_primary: String,
    pub bg_secondary: String,
    pub bg_tertiary: String,
    pub bg_hover: String,
    pub bg_selected: String,
    pub bg_input: String,

    pub text_primary: String,
    pub text_secondary: String,
    pub text_muted: String,
    pub text_inverse: String,

    pub accent: String,
    pub accent_hover: String,
    pub accent_dim: String,

    pub border: String,
    pub border_focus: String,

    pub match_highlight: String,
    pub match_highlight_bg: String,

    pub tag_bg: String,
    pub tag_text: String,
    pub tag_border: String,

    pub success: String,
    pub warning: String,
    pub error: String,

    // Spacing
    pub spacing_xs: String,
    pub spacing_sm: String,
    pub spacing_md: String,
    pub spacing_lg: String,
    pub spacing_xl: String,

    // Typography
    pub font_family: String,
    pub font_mono: String,
    pub font_size_xs: String,
    pub font_size_sm: String,
    pub font_size_md: String,
    pub font_size_lg: String,
    pub font_size_xl: String,
    pub font_weight_normal: String,
    pub font_weight_medium: String,
    pub font_weight_bold: String,
    pub line_height: String,

    // Borders & Radii
    pub radius_sm: String,
    pub radius_md: String,
    pub radius_lg: String,
    pub radius_full: String,

    // Shadows
    pub shadow_sm: String,
    pub shadow_md: String,
    pub shadow_lg: String,

    // Transitions
    pub transition_fast: String,
    pub transition_normal: String,

    // Layout
    pub sidebar_width: String,
    pub search_height: String,
    pub result_item_height: String,
    pub action_bar_height: String,

    /// Additional CSS appended after the theme variables.
    /// Use this to inject component overrides or custom styles.
    pub custom_css: String,
}

/// The content of a theme.
pub struct ThemeView {
    pub name: Seq<char>,
    pub bg_primary: Seq<char>,
    pub bg_secondary: Seq<char>,
    pub bg_tertiary: Seq<char>,
    pub bg_hover: Seq<char>,
    pub bg_selected: Seq<char>,
    pub bg_input: Seq<char>,
    pub text_primary: Seq<char>,
    pub text_secondary: Seq<char>,
    pub text_muted: Seq<char>,
    pub text_inverse: Seq<char>,
    pub accent: Seq<char>,
    pub accent_hover: Seq<char>,
    pub accent_dim: Seq<char>,
    pub border: Seq<char>,
    pub border_focus: Seq<char>,
    pub match_highlight: Seq<char>,
    pub match_highlight_bg: Seq<char>,
    pub tag_bg: Seq<char>,
    pub tag_text: Seq<char>,
    pub tag_border: Seq<char>,
    pub success: Seq<char>,
    pub warning: Seq<char>,
    pub error: Seq<char>,
    pub spacing_xs: Seq<char>,
    pub spacing_sm: Seq<char>,
    pub spacing_md: Seq<char>,
    pub spacing_lg: Seq<char>,
    pub spacing_xl: Seq<char>,
    pub font_family: Seq<char>,
    pub font_mono: Seq<char>,
    pub font_size_xs: Seq<char>,
    pub font_size_sm: Seq<char>,
    pub font_size_md: Seq<char>,
    pub font_size_lg: Seq<char>,
    pub font_size_xl: Seq<char>,
    pub font_weight_normal: Seq<char>,
    pub font_weight_medium: Seq<char>,
    pub font_weight_bold: Seq<char>,
    pub line_height: Seq<char>,
    pub radius_sm: Seq<char>,
    pub radius_md: Seq<char>,
    pub radius_lg: Seq<char>,
    pub radius_full: Seq<char>,
    pub shadow_sm: Seq<char>,
    pub shadow_md: Seq<char>,
    pub shadow_lg: Seq<char>,
    pub transition_fast: Seq<char>,
    pub transition_normal: Seq<char>,
    pub sidebar_width: Seq<char>,
    pub search_height: Seq<char>,
    pub result_item_height: Seq<char>,
    pub action_bar_height: Seq<char>,
    pub custom_css: Seq<char>,
}

impl View for Theme {
    type V = ThemeView;

    open spec fn view(&self) -> ThemeView {
        ThemeView {
            name: self.name@,
            bg_primary: self.bg_primary@,
            bg_secondary: self.bg_secondary@,
            bg_tertiary: self.bg_tertiary@,
            bg_hover: self.bg_hover@,
            bg_selected: self.bg_selected@,
            bg_input: self.bg_input@,
            text_primary: self.text_primary@,
            text_secondary: self.text_secondary@,
            text_muted: self.text_muted@,
            text_inverse: self.text_inverse@,
            accent: self.accent@,
            accent_hover: self.accent_hover@,
            accent_dim: self.accent_dim@,
            border: self.border@,
            border_focus: self.border_focus@,
            match_highlight: self.match_highlight@,
            match_highlight_bg: self.match_highlight_bg@,
            tag_bg: self.tag_bg@,
            tag_text: self.tag_text@,
            tag_border: self.tag_border@,
            success: self.success@,
            warning: self.warning@,
            error: self.error@,
            spacing_xs: self.spacing_xs@,
            spacing_sm: self.spacing_sm@,
            spacing_md: self.spacing_md@,
            spacing_lg: self.spacing_lg@,
            spacing_xl: self.spacing_xl@,
            font_family: self.font_family@,
            font_mono: self.font_mono@,
            font_size_xs: self.font_size_xs@,
            font_size_sm: self.font_size_sm@,
            font_size_md: self.font_size_md@,
            font_size_lg: self.font_size_lg@,
            font_size_xl: self.font_size_xl@,
            font_weight_normal: self.font_weight_normal@,
            font_weight_medium: self.font_weight_medium@,
            font_weight_bold: self.font_weight_bold@,
            line_height: self.line_height@,
            radius_sm: self.radius_sm@,
            radius_md: self.radius_md@,
            radius_lg: self.radius_lg@,
            radius_full: self.radius_full@,
            shadow_sm: self.shadow_sm@,
            shadow_md: self.shadow_md@,
            shadow_lg: self.shadow_lg@,
            transition_fast: self.transition_fast@,
            transition_normal: self.transition_normal@,
            sidebar_width: self.sidebar_width@,
            search_height: self.search_height@,
            result_item_height: self.result_item_height@,
            action_bar_height: self.action_bar_height@,
            custom_css: self.custom_css@,
        }
    }
}

/// The dark theme (Catppuccin Mocha).
pub open spec fn dark_spec() -> ThemeView {
    ThemeView {
        name: "dark"@,
        bg_primary: "#1e1e2e"@,
        bg_secondary: "#313244"@,
        bg_tertiary: "#181825"@,
        bg_hover: "#45475a"@,
        bg_selected: "#585b70"@,
        bg_input: "#242438"@,
        text_primary: "#cdd6f4"@,
        text_secondary: "#a6adc8"@,
        text_muted: "#6c7086"@,
        text_inverse: "#1e1e2e"@,
        accent: "#89b4fa"@,
        accent_hover: "#74c7ec"@,
        accent_dim: "#45475a"@,
        border: "#45475a"@,
        border_focus: "#89b4fa"@,
        match_highlight: "#f9e2af"@,
        match_highlight_bg: "rgba(249, 226, 175, 0.1)"@,
        tag_bg: "#313244"@,
        tag_text: "#a6adc8"@,
        tag_border: "#45475a"@,
        success: "#a6e3a1"@,
        warning: "#f9e2af"@,
        error: "#f38ba8"@,
        spacing_xs: "2px"@,
        spacing_sm: "4px"@,
        spacing_md: "8px"@,
        spacing_lg: "12px"@,
        spacing_xl: "16px"@,
        font_family: "\"Inter\", \"SF Pro Display\", system-ui, -apple-system, sans-serif"@,
        font_mono: "\"JetBrains Mono\", \"Fira Code\", \"SF Mono\", monospace"@,
        font_size_xs: "10px"@,
        font_size_sm: "12px"@,
        font_size_md: "14px"@,
        font_size_lg: "16px"@,
        font_size_xl: "20px"@,
        font_weight_normal: "400"@,
        font_weight_medium: "500"@,
        font_weight_bold: "600"@,
        line_height: "1.5"@,
        radius_sm: "4px"@,
        radius_md: "6px"@,
        radius_lg: "10px"@,
        radius_full: "9999px"@,
        shadow_sm: "0 1px 2px rgba(0,0,0,0.3)"@,
        shadow_md: "0 4px 12px rgba(0,0,0,0.4)"@,
        shadow_lg: "0 8px 24px rgba(0,0,0,0.5)"@,
        transition_fast: "0.1s ease"@,
        transition_normal: "0.2s ease"@,
        sidebar_width: "220px"@,
        search_height: "52px"@,
        result_item_height: "48px"@,
        action_bar_height: "36px"@,
        custom_css: Seq::empty(),
    }
}

/// The light theme (Catppuccin Latte): its colors and shadows over the dark theme.
pub open spec fn light_spec() -> ThemeView {
    ThemeView {
        name: "light"@,
        bg_primary: "#eff1f5"@,
        bg_secondary: "#e6e9ef"@,
        bg_tertiary: "#dce0e8"@,
        bg_hover: "#ccd0da"@,
        bg_selected: "#bcc0cc"@,
        bg_input: "#e6e9ef"@,
        text_primary: "#4c4f69"@,
        text_secondary: "#6c6f85"@,
        text_muted: "#9ca0b0"@,
        text_inverse: "#eff1f5"@,
        accent: "#1e66f5"@,
        accent_hover: "#2a7ae4"@,
        accent_dim: "#ccd0da"@,
        border: "#ccd0da"@,
        border_focus: "#1e66f5"@,
        match_highlight: "#df8e1d"@,
        match_highlight_bg: "rgba(223, 142, 29, 0.1)"@,
        tag_bg: "#e6e9ef"@,
        tag_text: "#6c6f85"@,
        tag_border: "#ccd0da"@,
        success: "#40a02b"@,
        warning: "#df8e1d"@,
        error: "#d20f39"@,
        shadow_sm: "0 1px 2px rgba(0,0,0,0.08)"@,
        shadow_md: "0 4px 12px rgba(0,0,0,0.1)"@,
        shadow_lg: "0 8px 24px rgba(0,0,0,0.15)"@,
        ..dark_spec()
    }
}

/// The CSS variables of a theme, in stylesheet order: name and value.
pub open spec fn css_pairs(t: ThemeView) -> Seq<(Seq<char>, Seq<char>)> {
    seq![
        ("bg-primary"@, t.bg_primary),
        ("bg-secondary"@, t.bg_secondary),
        ("bg-tertiary"@, t.bg_tertiary),
        ("bg-hover"@, t.bg_hover),
        ("bg-selected"@, t.bg_selected),
        ("bg-input"@, t.bg_input),
        ("text-primary"@, t.text_primary),
        ("text-secondary"@, t.text_secondary),
        ("text-muted"@, t.text_muted),
        ("text-inverse"@, t.text_inverse),
        ("accent"@, t.accent),
        ("accent-hover"@, t.accent_hover),
        ("accent-dim"@, t.accent_dim),
        ("border"@, t.border),
        ("border-focus"@, t.border_focus),
        ("match-highlight"@, t.match_highlight),
        ("match-highlight-bg"@, t.match_highlight_bg),
        ("tag-bg"@, t.tag_bg),
        ("tag-text"@, t.tag_text),
        ("tag-border"@, t.tag_border),
        ("success"@, t.success),
        ("warning"@, t.warning),
        ("error"@, t.error),
        ("spacing-xs"@, t.spacing_xs),
        ("spacing-sm"@, t.spacing_sm),
        ("spacing-md"@, t.spacing_md),
        ("spacing-lg"@, t.spacing_lg),
        ("spacing-xl"@, t.spacing_xl),
        ("font-family"@, t.font_family),
        ("font-mono"@, t.font_mono),
        ("font-size-xs"@, t.font_size_xs),
        ("font-size-sm"@, t.font_size_sm),
        ("font-size-md"@, t.font_size_md),
        ("font-size-lg"@, t.font_size_lg),
        ("font-size-xl"@, t.font_size_xl),
        ("font-weight-normal"@, t.font_weight_normal),
        ("font-weight-medium"@, t.font_weight_medium),
        ("font-weight-bold"@, t.font_weight_bold),
        ("line-height"@, t.line_height),
        ("radius-sm"@, t.radius_sm),
        ("radius-md"@, t.radius_md),
        ("radius-lg"@, t.radius_lg),
        ("radius-full"@, t.radius_full),
        ("shadow-sm"@, t.shadow_sm),
        ("shadow-md"@, t.shadow_md),
        ("shadow-lg"@, t.shadow_lg),
        ("transition-fast"@, t.transition_fast),
        ("transition-normal"@, t.transition_normal),
        ("sidebar-width"@, t.sidebar_width),
        ("search-height"@, t.search_height),
        ("result-item-height"@, t.result_item_height),
        ("action-bar-height"@, t.action_bar_height),
    ]
}

/// The variable lines of a stylesheet: `  --<name>: <value>;` each, with a newline.
pub open spec fn css_lines(pairs: Seq<(Seq<char>, Seq<char>)>) -> Seq<char>
    decreases pairs.len(),
{
    if pairs.len() == 0 {
        Seq::empty()
    } else {
        css_lines(pairs.drop_last()) + "  --"@ + pairs.last().0 + ": "@ + pairs.last().1 + ";\n"@
    }
}

/// The `:root` block of a theme.
pub open spec fn css_variables_spec(t: ThemeView) -> Seq<char> {
    ":root {\n"@ + css_lines(css_pairs(t)) + "}"@
}

/// The complete stylesheet of a theme: its variables, the component styles,
/// and the theme's custom CSS under a comment if it has any.
pub open spec fn stylesheet_spec(t: ThemeView) -> Seq<char> {
    css_variables_spec(t) + "\n\n"@ + COMPONENT_CSS@ + if t.custom_css.len() > 0 {
        "\n\n/* Custom overrides */\n"@ + t.custom_css
    } else {
        Seq::empty()
    }
}

impl Theme {
    /// Catppuccin Mocha dark theme (the default).
    pub fn dark() -> (r: Self)
        ensures
            r@ == dark_spec(),
    {
        Theme {
            name: "dark".to_owned(),
            bg_primary: "#1e1e2e".to_owned(),
            bg_secondary: "#313244".to_owned(),
            bg_tertiary: "#181825".to_owned(),
            bg_hover: "#45475a".to_owned(),
            bg_selected: "#585b70".to_owned(),
            bg_input: "#242438".to_owned(),
            text_primary: "#cdd6f4".to_owned(),
            text_secondary: "#a6adc8".to_owned(),
            text_muted: "#6c7086".to_owned(),
            text_inverse: "#1e1e2e".to_owned(),
            accent: "#89b4fa".to_owned(),
            accent_hover: "#74c7ec".to_owned(),
            accent_dim: "#45475a".to_owned(),
            border: "#45475a".to_owned(),
            border_focus: "#89b4fa".to_owned(),
            match_highlight: "#f9e2af".to_owned(),
            match_highlight_bg: "rgba(249, 226, 175, 0.1)".to_owned(),
            tag_bg: "#313244".to_owned(),
            tag_text: "#a6adc8".to_owned(),
            tag_border: "#45475a".to_owned(),
            success: "#a6e3a1".to_owned(),
            warning: "#f9e2af".to_owned(),
            error: "#f38ba8".to_owned(),
            spacing_xs: "2px".to_owned(),
            spacing_sm: "4px".to_owned(),
            spacing_md: "8px".to_owned(),
            spacing_lg: "12px".to_owned(),
            spacing_xl: "16px".to_owned(),
            font_family: "\"Inter\", \"SF Pro Display\", system-ui, -apple-system, sans-serif".to_owned(),
            font_mono: "\"JetBrains Mono\", \"Fira Code\", \"SF Mono\", monospace".to_owned(),
            font_size_xs: "10px".to_owned(),
            font_size_sm: "12px".to_owned(),
            font_size_md: "14px".to_owned(),
            font_size_lg: "16px".to_owned(),
            font_size_xl: "20px".to_owned(),
            font_weight_normal: "400".to_owned(),
            font_weight_medium: "500".to_owned(),
            font_weight_bold: "600".to_owned(),
            line_height: "1.5".to_owned(),
            radius_sm: "4px".to_owned(),
            radius_md: "6px".to_owned(),
            radius_lg: "10px".to_owned(),
            radius_full: "9999px".to_owned(),
            shadow_sm: "0 1px 2px rgba(0,0,0,0.3)".to_owned(),
            shadow_md: "0 4px 12px rgba(0,0,0,0.4)".to_owned(),
            shadow_lg: "0 8px 24px rgba(0,0,0,0.5)".to_owned(),
            transition_fast: "0.1s ease".to_owned(),
            transition_normal: "0.2s ease".to_owned(),
            sidebar_width: "220px".to_owned(),
            search_height: "52px".to_owned(),
            result_item_height: "48px".to_owned(),
            action_bar_height: "36px".to_owned(),
            custom_css: String::new(),
        }
    }

    /// Catppuccin Latte light theme.
    pub fn light() -> (r: Self)
        ensures
            r@ == light_spec(),
    {
        let mut t = Theme::dark();
        t.name = "light".to_owned();
        t.bg_primary = "#eff1f5".to_owned();
        t.bg_secondary = "#e6e9ef".to_owned();
        t.bg_tertiary = "#dce0e8".to_owned();
        t.bg_hover = "#ccd0da".to_owned();
        t.bg_selected = "#bcc0cc".to_owned();
        t.bg_input = "#e6e9ef".to_owned();
        t.text_primary = "#4c4f69".to_owned();
        t.text_secondary = "#6c6f85".to_owned();
        t.text_muted = "#9ca0b0".to_owned();
        t.text_inverse = "#eff1f5".to_owned();
        t.accent = "#1e66f5".to_owned();
        t.accent_hover = "#2a7ae4".to_owned();
        t.accent_dim = "#ccd0da".to_owned();
        t.border = "#ccd0da".to_owned();
        t.border_focus = "#1e66f5".to_owned();
        t.match_highlight = "#df8e1d".to_owned();
        t.match_highlight_bg = "rgba(223, 142, 29, 0.1)".to_owned();
        t.tag_bg = "#e6e9ef".to_owned();
        t.tag_text = "#6c6f85".to_owned();
        t.tag_border = "#ccd0da".to_owned();
        t.success = "#40a02b".to_owned();
        t.warning = "#df8e1d".to_owned();
        t.error = "#d20f39".to_owned();
        t.shadow_sm = "0 1px 2px rgba(0,0,0,0.08)".to_owned();
        t.shadow_md = "0 4px 12px rgba(0,0,0,0.1)".to_owned();
        t.shadow_lg = "0 8px 24px rgba(0,0,0,0.15)".to_owned();
        t
    }

    /// The CSS `:root` block with all variables.
    pub fn to_css_variables(&self) -> (r: String)
        ensures
            r@ == css_variables_spec(self@),
    {
        let pairs: Vec<(&str, &str)> = vec![
            ("bg-primary", self.bg_primary.as_str()),
            ("bg-secondary", self.bg_secondary.as_str()),
            ("bg-tertiary", self.bg_tertiary.as_str()),
            ("bg-hover", self.bg_hover.as_str()),
            ("bg-selected", self.bg_selected.as_str()),
            ("bg-input", self.bg_input.as_str()),
            ("text-primary", self.text_primary.as_str()),
            ("text-secondary", self.text_secondary.as_str()),
            ("text-muted", self.text_muted.as_str()),
            ("text-inverse", self.text_inverse.as_str()),
            ("accent", self.accent.as_str()),
            ("accent-hover", self.accent_hover.as_str()),
            ("accent-dim", self.accent_dim.as_str()),
            ("border", self.border.as_str()),
            ("border-focus", self.border_focus.as_str()),
            ("match-highlight", self.match_highlight.as_str()),
            ("match-highlight-bg", self.match_highlight_bg.as_str()),
            ("tag-bg", self.tag_bg.as_str()),
            ("tag-text", self.tag_text.as_str()),
            ("tag-border", self.tag_border.as_str()),
            ("success", self.success.as_str()),
            ("warning", self.warning.as_str()),
            ("error", self.error.as_str()),
            ("spacing-xs", self.spacing_xs.as_str()),
            ("spacing-sm", self.spacing_sm.as_str()),
            ("spacing-md", self.spacing_md.as_str()),
            ("spacing-lg", self.spacing_lg.as_str()),
            ("spacing-xl", self.spacing_xl.as_str()),
            ("font-family", self.font_family.as_str()),
            ("font-mono", self.font_mono.as_str()),
            ("font-size-xs", self.font_size_xs.as_str()),
            ("font-size-sm", self.font_size_sm.as_str()),
            ("font-size-md", self.font_size_md.as_str()),
            ("font-size-lg", self.font_size_lg.as_str()),
            ("font-size-xl", self.font_size_xl.as_str()),
            ("font-weight-normal", self.font_weight_normal.as_str()),
            ("font-weight-medium", self.font_weight_medium.as_str()),
            ("font-weight-bold", self.font_weight_bold.as_str()),
            ("line-height", self.line_height.as_str()),
            ("radius-sm", self.radius_sm.as_str()),
            ("radius-md", self.radius_md.as_str()),
            ("radius-lg", self.radius_lg.as_str()),
            ("radius-full", self.radius_full.as_str()),
            ("shadow-sm", self.shadow_sm.as_str()),
            ("shadow-md", self.shadow_md.as_str()),
            ("shadow-lg", self.shadow_lg.as_str()),
            ("transition-fast", self.transition_fast.as_str()),
            ("transition-normal", self.transition_normal.as_str()),
            ("sidebar-width", self.sidebar_width.as_str()),
            ("search-height", self.search_height.as_str()),
            ("result-item-height", self.result_item_height.as_str()),
            ("action-bar-height", self.action_bar_height.as_str()),
        ];
        let ghost ps = pairs@.map_values(|p: (&str, &str)| (p.0@, p.1@));
        assert(ps =~= css_pairs(self@));
        let mut out = ":root {\n".to_owned();
        let mut i: usize = 0;
        assert(ps.take(0) =~= Seq::<(Seq<char>, Seq<char>)>::empty());
        while i < pairs.len()
            invariant
                ps == pairs@.map_values(|p: (&str, &str)| (p.0@, p.1@)),
                i <= pairs@.len(),
                out@ == ":root {\n"@ + css_lines(ps.take(i as int)),
            decreases pairs@.len() - i,
        {
            out.append("  --");
            out.append(pairs[i].0);
            out.append(": ");
            out.append(pairs[i].1);
            out.append(";\n");
            assert(ps.take(i + 1).drop_last() =~= ps.take(i as int));
            assert(out@ =~= ":root {\n"@ + css_lines(ps.take(i + 1)));
            i = i + 1;
        }
        assert(ps.take(i as int) =~= ps);
        out.append("}");
        out
    }

    /// The complete stylesheet: variables, component styles, then custom CSS.
    pub fn to_stylesheet(&self) -> (r: String)
        ensures
            r@ == stylesheet_spec(self@),
    {
        let mut css = self.to_css_variables();
        css.append("\n\n");
        css.append(COMPONENT_CSS);
        if !self.custom_css.as_str().is_empty() {
            css.append("\n\n/* Custom overrides */\n");
            css.append(self.custom_css.as_str());
        }
        css
    }
}

impl Default for Theme {
    fn default() -> (r: Self)
        ensures
            r@ == dark_spec(),
    {
        Theme::dark()
    }
}

/// The component styles, written against the theme variables, so that a
/// theme need not restyle each component.
pub const COMPONENT_CSS: &'static str = r#"
* {
  margin: 0;
  padding: 0;
  box-sizing: border-box;
}

body {
  background-color: var(--bg-primary);
  color: var(--text-primary);
  font-family: var(--font-family);
  font-size: var(--font-size-md);
  line-height: var(--line-height);
}

/* ── Layout ─────────────────────────────────────────────── */

.launcher {
  display: flex;
  height: 100vh;
  overflow: hidden;
  background: var(--bg-primary);
  position: relative;
}

.launcher-sidebar {
  width: var(--sidebar-width);
  background: var(--bg-tertiary);
  border-right: 1px solid var(--border);
  display: flex;
  flex-direction: column;
  overflow-y: auto;
  flex-shrink: 0;
}

.launcher-main {
  flex: 1;
  display: flex;
  flex-direction: column;
  min-width: 0;
  overflow: hidden;
}

/* Palette mode: no sidebar, compact */
.launcher.palette-mode {
  height: auto;
  max-height: 460px;
}
.launcher.palette-mode .launcher-sidebar {
  display: none;
}

/* ── Search Bar ─────────────────────────────────────────── */

.search-container {
  display: flex;
  align-items: center;
  padding: var(--spacing-lg) var(--spacing-xl);
  border-bottom: 1px solid var(--border);
  gap: var(--spacing-md);
  height: var(--search-height);
  background: var(--bg-primary);
  flex-shrink: 0;
}

.search-icon {
  color: var(--accent);
  font-size: 18px;
  flex-shrink: 0;
  opacity: 0.8;
}

.search-input {
  flex: 1;
  background: transparent;
  border: none;
  outline: none;
  color: var(--text-primary);
  font-size: var(--font-size-lg);
  font-family: var(--font-family);
  caret-color: var(--accent);
}

.search-input::placeholder {
  color: var(--text-muted);
}

.search-meta {
  display: flex;
  align-items: center;
  gap: var(--spacing-md);
  flex-shrink: 0;
}

.search-count {
  color: var(--text-muted);
  font-size: var(--font-size-sm);
}

.search-mode-toggle {
  padding: 2px 8px;
  border-radius: var(--radius-sm);
  background: var(--bg-secondary);
  color: var(--text-muted);
  font-size: var(--font-size-xs);
  cursor: pointer;
  border: 1px solid var(--border);
  transition: all var(--transition-fast);
  font-family: var(--font-family);
}
.search-mode-toggle:hover {
  color: var(--text-primary);
  border-color: var(--accent);
}

/* ── Filter Chips ───────────────────────────────────────── */

.filter-chips {
  display: flex;
  gap: var(--spacing-sm);
  padding: var(--spacing-sm) var(--spacing-xl);
  border-bottom: 1px solid var(--border);
  overflow-x: auto;
  flex-shrink: 0;
  background: var(--bg-primary);
}
.filter-chips:empty {
  display: none;
}

.filter-chip {
  display: flex;
  align-items: center;
  gap: var(--spacing-xs);
  padding: 3px 10px;
  border-radius: var(--radius-full);
  background: var(--bg-secondary);
  color: var(--text-secondary);
  font-size: var(--font-size-xs);
  cursor: pointer;
  border: 1px solid transparent;
  transition: all var(--transition-fast);
  white-space: nowrap;
  font-family: var(--font-family);
}
.filter-chip:hover {
  background: var(--bg-hover);
  color: var(--text-primary);
}
.filter-chip.active {
  background: var(--accent);
  color: var(--text-inverse);
  border-color: var(--accent);
}
.filter-chip.excluded {
  background: var(--error);
  color: var(--text-inverse);
  border-color: var(--error);
  opacity: 0.85;
}

.filter-chip-icon {
  font-size: 12px;
}
.filter-chip-clear {
  margin-left: 2px;
  opacity: 0.6;
  font-size: 10px;
}
.filter-chip-clear:hover {
  opacity: 1;
}

/* ── Results ────────────────────────────────────────────── */

.results {
  flex: 1;
  overflow-y: auto;
  padding: var(--spacing-sm) var(--spacing-md);
}

.results::-webkit-scrollbar { width: 6px; }
.results::-webkit-scrollbar-track { background: transparent; }
.results::-webkit-scrollbar-thumb {
  background: var(--bg-hover);
  border-radius: 3px;
}
.results::-webkit-scrollbar-thumb:hover {
  background: var(--bg-selected);
}

/* Section headers (provider groups, favorites/recents) */
.result-section {
  padding: var(--spacing-md) var(--spacing-md) var(--spacing-sm);
  font-size: var(--font-size-xs);
  font-weight: var(--font-weight-bold);
  color: var(--text-muted);
  text-transform: uppercase;
  letter-spacing: 0.05em;
}

/* ── Result Item ────────────────────────────────────────── */

.result-item {
  display: flex;
  align-items: center;
  padding: var(--spacing-md) var(--spacing-lg);
  border-radius: var(--radius-md);
  cursor: pointer;
  gap: var(--spacing-lg);
  transition: background-color var(--transition-fast);
  min-height: var(--result-item-height);
}

.result-item:hover {
  background-color: var(--bg-hover);
}

.result-item.selected {
  background-color: var(--bg-selected);
}

.result-icon-wrap {
  width: 36px;
  height: 36px;
  display: flex;
  align-items: center;
  justify-content: center;
  border-radius: var(--radius-md);
  background: var(--bg-secondary);
  color: var(--accent);
  font-size: 16px;
  flex-shrink: 0;
  font-weight: var(--font-weight-bold);
}

.result-body {
  flex: 1;
  min-width: 0;
  display: flex;
  flex-direction: column;
  gap: 1px;
}

.result-label {
  font-size: var(--font-size-md);
  font-weight: var(--font-weight-medium);
  color: var(--text-primary);
  white-space: nowrap;
  overflow: hidden;
  text-overflow: ellipsis;
}

.result-sub {
  font-size: var(--font-size-sm);
  color: var(--text-secondary);
  white-space: nowrap;
  overflow: hidden;
  text-overflow: ellipsis;
}

.result-meta {
  display: flex;
  align-items: center;
  gap: var(--spacing-sm);
  flex-shrink: 0;
}

.result-provider-badge {
  font-size: var(--font-size-xs);
  color: var(--text-muted);
  padding: 2px 6px;
  background: var(--bg-secondary);
  border-radius: var(--radius-sm);
}

.result-action-count {
  font-size: var(--font-size-xs);
  color: var(--text-muted);
  opacity: 0.6;
}

.result-shortcut {
  font-size: var(--font-size-xs);
  color: var(--text-muted);
  font-family: var(--font-mono);
  padding: 1px 5px;
  background: var(--bg-secondary);
  border: 1px solid var(--border);
  border-radius: var(--radius-sm);
}

/* ── Tag Pills ──────────────────────────────────────────── */

.tag-pills {
  display: flex;
  gap: var(--spacing-xs);
  flex-wrap: wrap;
  margin-top: 2px;
}

.tag-pill {
  font-size: var(--font-size-xs);
  padding: 0 6px;
  border-radius: var(--radius-full);
  background: var(--tag-bg);
  color: var(--tag-text);
  border: 1px solid var(--tag-border);
  white-space: nowrap;
  line-height: 1.6;
}

/* ── Match Highlight ────────────────────────────────────── */

.match-char {
  color: var(--match-highlight);
  font-weight: var(--font-weight-bold);
}

/* ── Sidebar ────────────────────────────────────────────── */

.sidebar-header {
  padding: var(--spacing-lg) var(--spacing-xl);
  font-size: var(--font-size-sm);
  font-weight: var(--font-weight-bold);
  color: var(--text-muted);
  text-transform: uppercase;
  letter-spacing: 0.05em;
  border-bottom: 1px solid var(--border);
}

.sidebar-section {
  padding: var(--spacing-sm) 0;
}

.sidebar-item {
  display: flex;
  align-items: center;
  gap: var(--spacing-md);
  padding: var(--spacing-sm) var(--spacing-xl);
  color: var(--text-secondary);
  font-size: var(--font-size-sm);
  cursor: pointer;
  transition: all var(--transition-fast);
}
.sidebar-item:hover {
  background: var(--bg-hover);
  color: var(--text-primary);
}
.sidebar-item.active {
  background: var(--bg-selected);
  color: var(--accent);
  font-weight: var(--font-weight-medium);
}

.sidebar-item-icon {
  font-size: 14px;
  width: 18px;
  text-align: center;
  flex-shrink: 0;
}

.sidebar-item-label {
  flex: 1;
  white-space: nowrap;
  overflow: hidden;
  text-overflow: ellipsis;
}

.sidebar-item-count {
  font-size: var(--font-size-xs);
  color: var(--text-muted);
}

.sidebar-indent-1 { padding-left: calc(var(--spacing-xl) + 18px); }
.sidebar-indent-2 { padding-left: calc(var(--spacing-xl) + 36px); }

.sidebar-toggle {
  font-size: 10px;
  width: 18px;
  text-align: center;
  cursor: pointer;
  color: var(--text-muted);
  transition: transform var(--transition-fast);
}
.sidebar-toggle.collapsed {
  transform: rotate(-90deg);
}

/* ── Action Bar ─────────────────────────────────────────── */

.action-bar {
  display: flex;
  align-items: center;
  padding: var(--spacing-sm) var(--spacing-xl);
  border-top: 1px solid var(--border);
  height: var(--action-bar-height);
  background: var(--bg-tertiary);
  gap: var(--spacing-lg);
  flex-shrink: 0;
}

.action-bar-left {
  display: flex;
  align-items: center;
  gap: var(--spacing-md);
  flex: 1;
  min-width: 0;
}

.action-bar-right {
  display: flex;
  align-items: center;
  gap: var(--spacing-sm);
  flex-shrink: 0;
}

.action-btn {
  display: flex;
  align-items: center;
  gap: var(--spacing-xs);
  font-size: var(--font-size-xs);
  color: var(--text-muted);
  cursor: pointer;
  padding: 2px 6px;
  border-radius: var(--radius-sm);
  transition: all var(--transition-fast);
  font-family: var(--font-family);
  border: none;
  background: none;
}
.action-btn:hover {
  color: var(--text-primary);
  background: var(--bg-hover);
}

.action-kbd {
  font-family: var(--font-mono);
  font-size: var(--font-size-xs);
  padding: 1px 4px;
  border-radius: var(--radius-sm);
  background: var(--bg-secondary);
  border: 1px solid var(--border);
  color: var(--text-muted);
}

.action-divider {
  width: 1px;
  height: 16px;
  background: var(--border);
}

/* ── Empty State ────────────────────────────────────────── */

.empty-state {
  display: flex;
  flex-direction: column;
  align-items: center;
  justify-content: center;
  padding: 48px 24px;
  color: var(--text-muted);
  gap: var(--spacing-md);
}

.empty-icon {
  font-size: 36px;
  opacity: 0.4;
}

.empty-text {
  font-size: var(--font-size-md);
}

.empty-hint {
  font-size: var(--font-size-sm);
  opacity: 0.6;
}
"#;

} // verus!
