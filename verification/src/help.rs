//! Help texts: the key-binding tables and the lines of the help windows, in
//! the current language and with the user's key bindings filled in.
use vstd::prelude::*;
use crate::i18n::{LanguageState, Language, language_of, translate, translate_spec};
use crate::text::{chars_of, push_char, push_str, replace_all, replace_str};

verus! {

/// The key name as shown: `Ctrl` reads `Cmd` on macOS.
pub open spec fn ctrl_to_cmd_spec(instr: Seq<char>, on_macos: bool) -> Seq<char> {
    if on_macos {
        replace_all(instr, "Ctrl"@, "Cmd"@)
    } else {
        instr
    }
}

/// Replace Ctrl with Cmd in case of macos.
pub fn ctrl_to_cmd(instr: &str, on_macos: bool) -> (r: String)
    ensures
        r@ == ctrl_to_cmd_spec(instr@, on_macos),
{
    if on_macos {
        proof {
            reveal_strlit("Ctrl");
        }
        replace_str(instr, "Ctrl", "Cmd")
    } else {
        String::from_str(instr)
    }
}

/// The icons of the help tables, named as in the Remix Icon set.
#[derive(Clone, Copy, Debug, PartialEq, Eq, Structural)]
pub enum Icon {
    SaveFill,
    LayoutLeftFill,
    LayoutLeft2Fill,
    MenuFill,
    ToolsFill,
    ZoomInFill,
    ZoomOutFill,
    TargetFill,
    RewindStartFill,
    ForwardEndFill,
    RefreshLine,
    SpeedFill,
    RewindFill,
    PlayFill,
    PlayReverseFill,
    DeleteBin2Fill,
    FullscreenLine,
}

/// What stands in the symbol column of a row.
#[derive(Clone, Copy, Debug, PartialEq, Eq, Structural)]
pub enum Symbol {
    Blank,
    Glyph(char),
    Icon(Icon),
}

/// The key bindings of the actions the help tables name, as the user's
/// configuration writes them.
#[derive(Debug)]
pub struct ShortcutLabels {
    pub show_command_prompt: String,
    pub save_state_file: String,
    pub toggle_hierarchy: String,
    pub toggle_toolbar: String,
    pub toggle_menu: String,
    pub reload_waveform: String,
    pub focus_item: String,
    pub goto_end: String,
    pub goto_start: String,
    pub zoom_in: String,
    pub zoom_out: String,
    pub zoom_to_cursor: String,
    pub ui_zoom_in: String,
    pub ui_zoom_out: String,
    pub selected_item_toggle: String,
    pub undo: String,
    pub redo: String,
    pub add_marker: String,
    pub scroll_up: String,
    pub scroll_down: String,
    pub delete_selected: String,
    pub divider_add: String,
}

/// One row of a help table.
#[derive(Debug)]
pub struct HelpRow {
    pub symbol: Symbol,
    pub control: String,
    pub description: String,
}

/// The mathematical content of a [`HelpRow`].
pub struct HelpRowView {
    pub symbol: Symbol,
    pub control: Seq<char>,
    pub description: Seq<char>,
}

impl View for HelpRow {
    type V = HelpRowView;

    open spec fn view(&self) -> HelpRowView {
        HelpRowView { symbol: self.symbol, control: self.control@, description: self.description@ }
    }
}

/// The views of a sequence of rows.
pub open spec fn row_views(s: Seq<HelpRow>) -> Seq<HelpRowView> {
    s.map_values(|r: HelpRow| r@)
}

/// A row as shown: the key name adjusted for the platform, the description
/// in the current language.
pub open spec fn row(symbol: Symbol, control: Seq<char>, description: Seq<char>, lang: Language, on_macos: bool) -> HelpRowView {
    HelpRowView {
        symbol,
        control: ctrl_to_cmd_spec(control, on_macos),
        description: translate_spec(lang, description),
    }
}

fn push_row(
    rows: &mut Vec<HelpRow>,
    symbol: Symbol,
    control: &str,
    description: &str,
    state: &LanguageState,
    on_macos: bool,
)
    ensures
        row_views(final(rows)@) == row_views(old(rows)@).push(
            row(symbol, control@, description@, language_of(state.code), on_macos),
        ),
{
    let shown = translate(state, description);
    let r = HelpRow { symbol, control: ctrl_to_cmd(control, on_macos), description: String::from_str(shown) };
    let ghost prev = rows@;
    rows.push(r);
    assert(row_views(rows@) =~= row_views(prev).push(r@));
}

/// The full key-binding table of the controls dialog. `native` is false in
/// the web build, which has no UI zoom and no full screen.
pub open spec fn key_listing_spec(k: &ShortcutLabels, lang: Language, on_macos: bool, native: bool) -> Seq<HelpRowView> {
    seq![
        row(Symbol::Glyph('🚀'), k.show_command_prompt@, "Show command prompt"@, lang, on_macos),
        row(Symbol::Glyph('↔'), "Scroll"@, "Pan"@, lang, on_macos),
        row(Symbol::Glyph('🔎'), "Ctrl+Scroll"@, "Zoom"@, lang, on_macos),
        row(Symbol::Icon(Icon::SaveFill), k.save_state_file@, "Save the state"@, lang, on_macos),
        row(Symbol::Icon(Icon::LayoutLeftFill), k.toggle_hierarchy@, "Show or hide the design hierarchy"@, lang, on_macos),
        row(Symbol::Icon(Icon::MenuFill), k.toggle_menu@, "Show or hide menu"@, lang, on_macos),
        row(Symbol::Icon(Icon::ToolsFill), k.toggle_toolbar@, "Show or hide toolbar"@, lang, on_macos),
        row(Symbol::Icon(Icon::ZoomInFill), k.zoom_in@, "Zoom in"@, lang, on_macos),
        row(Symbol::Icon(Icon::ZoomOutFill), k.zoom_out@, "Zoom out"@, lang, on_macos),
        row(Symbol::Icon(Icon::TargetFill), k.zoom_to_cursor@, "Zoom in on cursor"@, lang, on_macos),
    ] + (if native {
        seq![
            row(Symbol::Blank, k.ui_zoom_in@, "UI Zoom in"@, lang, on_macos),
            row(Symbol::Blank, k.ui_zoom_out@, "UI Zoom out"@, lang, on_macos),
        ]
    } else {
        seq![]
    }) + seq![
        row(Symbol::Blank, "k/⬆"@, "Scroll up"@, lang, on_macos),
        row(Symbol::Blank, "j/⬇"@, "Scroll down"@, lang, on_macos),
        row(Symbol::Blank, "Ctrl+k/⬆"@, "Move focused item up"@, lang, on_macos),
        row(Symbol::Blank, "Ctrl+j/⬇"@, "Move focused item down"@, lang, on_macos),
        row(Symbol::Blank, "Alt+k/⬆"@, "Move focus up"@, lang, on_macos),
        row(Symbol::Blank, "Alt+j/⬇"@, "Move focus down"@, lang, on_macos),
        row(Symbol::Blank, k.selected_item_toggle@, "Add focused item to selection"@, lang, on_macos),
        row(Symbol::Blank, "Ctrl+Alt+k/⬆"@, "Extend selection up"@, lang, on_macos),
        row(Symbol::Blank, "Ctrl+Alt+j/⬇"@, "Extend selection down"@, lang, on_macos),
        row(Symbol::Blank, k.undo@, "Undo last change"@, lang, on_macos),
        row(Symbol::Blank, k.redo@, "Redo last change"@, lang, on_macos),
        row(Symbol::Blank, k.focus_item@, "Fast focus a variable"@, lang, on_macos),
        row(Symbol::Blank, k.add_marker@, "Add marker at current cursor"@, lang, on_macos),
        row(Symbol::Blank, "Ctrl+0-9"@, "Add numbered marker"@, lang, on_macos),
        row(Symbol::Blank, "0-9"@, "Center view at numbered marker"@, lang, on_macos),
        row(Symbol::Blank, k.divider_add@, "Add divider"@, lang, on_macos),
        row(Symbol::Icon(Icon::RewindStartFill), k.goto_start@, "Go to start"@, lang, on_macos),
        row(Symbol::Icon(Icon::ForwardEndFill), k.goto_end@, "Go to end"@, lang, on_macos),
        row(Symbol::Icon(Icon::RefreshLine), k.reload_waveform@, "Reload waveform"@, lang, on_macos),
        row(Symbol::Icon(Icon::SpeedFill), k.scroll_up@, "Go one page/screen right"@, lang, on_macos),
        row(Symbol::Icon(Icon::RewindFill), k.scroll_down@, "Go one page/screen left"@, lang, on_macos),
        row(Symbol::Icon(Icon::PlayFill), "➡/l"@, "Go to next transition of focused variable (changeable in config)"@, lang, on_macos),
        row(Symbol::Icon(Icon::PlayReverseFill), "⬅/h"@, "Go to previous transition of focused variable (changeable in config)"@, lang, on_macos),
        row(Symbol::Blank, "Ctrl+➡/l"@, "Go to next non-zero transition of focused variable"@, lang, on_macos),
        row(Symbol::Blank, "Ctrl+⬅/h"@, "Go to previous non-zero transition of focused variable"@, lang, on_macos),
        row(Symbol::Icon(Icon::DeleteBin2Fill), k.delete_selected@, "Delete focused item"@, lang, on_macos),
    ] + (if native {
        seq![
            row(Symbol::Icon(Icon::FullscreenLine), "F11"@, "Toggle full screen"@, lang, on_macos),
        ]
    } else {
        seq![]
    })
}

/// Long list of key binding for the dialog.
pub fn key_listing(k: &ShortcutLabels, state: &LanguageState, on_macos: bool, native: bool) -> (r: Vec<HelpRow>)
    ensures
        row_views(r@) == key_listing_spec(k, language_of(state.code), on_macos, native),
{
    let mut rows: Vec<HelpRow> = Vec::new();
    push_row(&mut rows, Symbol::Glyph('🚀'), k.show_command_prompt.as_str(), "Show command prompt", state, on_macos);
    push_row(&mut rows, Symbol::Glyph('↔'), "Scroll", "Pan", state, on_macos);
    push_row(&mut rows, Symbol::Glyph('🔎'), "Ctrl+Scroll", "Zoom", state, on_macos);
    push_row(&mut rows, Symbol::Icon(Icon::SaveFill), k.save_state_file.as_str(), "Save the state", state, on_macos);
    push_row(&mut rows, Symbol::Icon(Icon::LayoutLeftFill), k.toggle_hierarchy.as_str(), "Show or hide the design hierarchy", state, on_macos);
    push_row(&mut rows, Symbol::Icon(Icon::MenuFill), k.toggle_menu.as_str(), "Show or hide menu", state, on_macos);
    push_row(&mut rows, Symbol::Icon(Icon::ToolsFill), k.toggle_toolbar.as_str(), "Show or hide toolbar", state, on_macos);
    push_row(&mut rows, Symbol::Icon(Icon::ZoomInFill), k.zoom_in.as_str(), "Zoom in", state, on_macos);
    push_row(&mut rows, Symbol::Icon(Icon::ZoomOutFill), k.zoom_out.as_str(), "Zoom out", state, on_macos);
    push_row(&mut rows, Symbol::Icon(Icon::TargetFill), k.zoom_to_cursor.as_str(), "Zoom in on cursor", state, on_macos);
    if native {
        push_row(&mut rows, Symbol::Blank, k.ui_zoom_in.as_str(), "UI Zoom in", state, on_macos);
        push_row(&mut rows, Symbol::Blank, k.ui_zoom_out.as_str(), "UI Zoom out", state, on_macos);
    }
    push_row(&mut rows, Symbol::Blank, "k/⬆", "Scroll up", state, on_macos);
    push_row(&mut rows, Symbol::Blank, "j/⬇", "Scroll down", state, on_macos);
    push_row(&mut rows, Symbol::Blank, "Ctrl+k/⬆", "Move focused item up", state, on_macos);
    push_row(&mut rows, Symbol::Blank, "Ctrl+j/⬇", "Move focused item down", state, on_macos);
    push_row(&mut rows, Symbol::Blank, "Alt+k/⬆", "Move focus up", state, on_macos);
    push_row(&mut rows, Symbol::Blank, "Alt+j/⬇", "Move focus down", state, on_macos);
    push_row(&mut rows, Symbol::Blank, k.selected_item_toggle.as_str(), "Add focused item to selection", state, on_macos);
    push_row(&mut rows, Symbol::Blank, "Ctrl+Alt+k/⬆", "Extend selection up", state, on_macos);
    push_row(&mut rows, Symbol::Blank, "Ctrl+Alt+j/⬇", "Extend selection down", state, on_macos);
    push_row(&mut rows, Symbol::Blank, k.undo.as_str(), "Undo last change", state, on_macos);
    push_row(&mut rows, Symbol::Blank, k.redo.as_str(), "Redo last change", state, on_macos);
    push_row(&mut rows, Symbol::Blank, k.focus_item.as_str(), "Fast focus a variable", state, on_macos);
    push_row(&mut rows, Symbol::Blank, k.add_marker.as_str(), "Add marker at current cursor", state, on_macos);
    push_row(&mut rows, Symbol::Blank, "Ctrl+0-9", "Add numbered marker", state, on_macos);
    push_row(&mut rows, Symbol::Blank, "0-9", "Center view at numbered marker", state, on_macos);
    push_row(&mut rows, Symbol::Blank, k.divider_add.as_str(), "Add divider", state, on_macos);
    push_row(&mut rows, Symbol::Icon(Icon::RewindStartFill), k.goto_start.as_str(), "Go to start", state, on_macos);
    push_row(&mut rows, Symbol::Icon(Icon::ForwardEndFill), k.goto_end.as_str(), "Go to end", state, on_macos);
    push_row(&mut rows, Symbol::Icon(Icon::RefreshLine), k.reload_waveform.as_str(), "Reload waveform", state, on_macos);
    push_row(&mut rows, Symbol::Icon(Icon::SpeedFill), k.scroll_up.as_str(), "Go one page/screen right", state, on_macos);
    push_row(&mut rows, Symbol::Icon(Icon::RewindFill), k.scroll_down.as_str(), "Go one page/screen left", state, on_macos);
    push_row(&mut rows, Symbol::Icon(Icon::PlayFill), "➡/l", "Go to next transition of focused variable (changeable in config)", state, on_macos);
    push_row(&mut rows, Symbol::Icon(Icon::PlayReverseFill), "⬅/h", "Go to previous transition of focused variable (changeable in config)", state, on_macos);
    push_row(&mut rows, Symbol::Blank, "Ctrl+➡/l", "Go to next non-zero transition of focused variable", state, on_macos);
    push_row(&mut rows, Symbol::Blank, "Ctrl+⬅/h", "Go to previous non-zero transition of focused variable", state, on_macos);
    push_row(&mut rows, Symbol::Icon(Icon::DeleteBin2Fill), k.delete_selected.as_str(), "Delete focused item", state, on_macos);
    if native {
        push_row(&mut rows, Symbol::Icon(Icon::FullscreenLine), "F11", "Toggle full screen", state, on_macos);
    }
    assert(row_views(rows@) =~= key_listing_spec(k, language_of(state.code), on_macos, native));
    rows
}

/// The short table of the start screen.
pub open spec fn controls_listing_spec(k: &ShortcutLabels, lang: Language, on_macos: bool) -> Seq<HelpRowView> {
    seq![
        row(Symbol::Glyph('🚀'), k.show_command_prompt@, "Show command prompt"@, lang, on_macos),
        row(Symbol::Glyph('↔'), "Horizontal Scroll"@, "Pan"@, lang, on_macos),
        row(Symbol::Glyph('↕'), "j, k, Up, Down"@, "Scroll down/up"@, lang, on_macos),
        row(Symbol::Glyph('⌖'), "Ctrl+j, k, Up, Down"@, "Move focus down/up"@, lang, on_macos),
        row(Symbol::Glyph('🔃'), "Alt+j, k, Up, Down"@, "Move focused item down/up"@, lang, on_macos),
        row(Symbol::Glyph('🔎'), "Ctrl+Scroll"@, "Zoom"@, lang, on_macos),
        row(Symbol::Icon(Icon::LayoutLeft2Fill), k.toggle_hierarchy@, "Show or hide the design hierarchy"@, lang, on_macos),
        row(Symbol::Icon(Icon::MenuFill), k.toggle_menu@, "Show or hide menu"@, lang, on_macos),
        row(Symbol::Icon(Icon::ToolsFill), k.toggle_toolbar@, "Show or hide toolbar"@, lang, on_macos),
    ]
}

/// Shorter list displayed at startup screen.
pub fn controls_listing(k: &ShortcutLabels, state: &LanguageState, on_macos: bool) -> (r: Vec<HelpRow>)
    ensures
        row_views(r@) == controls_listing_spec(k, language_of(state.code), on_macos),
{
    let mut rows: Vec<HelpRow> = Vec::new();
    push_row(&mut rows, Symbol::Glyph('🚀'), k.show_command_prompt.as_str(), "Show command prompt", state, on_macos);
    push_row(&mut rows, Symbol::Glyph('↔'), "Horizontal Scroll", "Pan", state, on_macos);
    push_row(&mut rows, Symbol::Glyph('↕'), "j, k, Up, Down", "Scroll down/up", state, on_macos);
    push_row(&mut rows, Symbol::Glyph('⌖'), "Ctrl+j, k, Up, Down", "Move focus down/up", state, on_macos);
    push_row(&mut rows, Symbol::Glyph('🔃'), "Alt+j, k, Up, Down", "Move focused item down/up", state, on_macos);
    push_row(&mut rows, Symbol::Glyph('🔎'), "Ctrl+Scroll", "Zoom", state, on_macos);
    push_row(&mut rows, Symbol::Icon(Icon::LayoutLeft2Fill), k.toggle_hierarchy.as_str(), "Show or hide the design hierarchy", state, on_macos);
    push_row(&mut rows, Symbol::Icon(Icon::MenuFill), k.toggle_menu.as_str(), "Show or hide menu", state, on_macos);
    push_row(&mut rows, Symbol::Icon(Icon::ToolsFill), k.toggle_toolbar.as_str(), "Show or hide toolbar", state, on_macos);
    assert(row_views(rows@) =~= controls_listing_spec(k, language_of(state.code), on_macos));
    rows
}

/// The hint shown under both tables, in the current language.
pub fn hint_text(state: &LanguageState) -> (r: &'static str)
    ensures
        r@ == translate_spec(
            language_of(state.code),
            "Hint: You can repeat keybinds by typing Alt+0-9 before them. For example, Alt+1 Alt+0 k scrolls 10 steps up."@,
        ),
{
    translate(
        state,
        "Hint: You can repeat keybinds by typing Alt+0-9 before them. For example, Alt+1 Alt+0 k scrolls 10 steps up.",
    )
}

/// `template` with its first `{}` filled with `value` (what
/// `str::replacen("{}", value, 1)` returns).
pub open spec fn fill_in_spec(template: Seq<char>, value: Seq<char>) -> Seq<char>
    decreases template.len(),
{
    if template.len() < 2 {
        template
    } else if template[0] == '{' && template[1] == '}' {
        value + template.skip(2)
    } else {
        seq![template[0]] + fill_in_spec(template.drop_first(), value)
    }
}

/// Fills the first `{}` of `template` with `value`.
pub fn fill_in(template: &str, value: &str) -> (r: String)
    ensures
        r@ == fill_in_spec(template@, value@),
{
    let cs = chars_of(template);
    let n = cs.len();
    let mut out = String::new();
    let mut i: usize = 0;
    assert(cs@.skip(0) =~= cs@);
    while i < n
        invariant
            n == cs.len(),
            cs@ == template@,
            i <= n,
            out@ + fill_in_spec(cs@.skip(i as int), value@) == fill_in_spec(template@, value@),
        decreases n - i,
    {
        let ghost rest = cs@.skip(i as int);
        if i + 1 < n && cs[i] == '{' && cs[i + 1] == '}' {
            push_str(&mut out, value);
            i += 2;
            assert(rest.skip(2) =~= cs@.skip(i as int));
            let ghost r2 = cs@.skip(i as int);
            let mut k: usize = i;
            assert(r2.take(0) =~= Seq::<char>::empty());
            while k < n
                invariant
                    i <= k <= n,
                    n == cs.len(),
                    r2 == cs@.skip(i as int),
                    out@ + r2.skip(k - i) == fill_in_spec(template@, value@),
                decreases n - k,
            {
                push_char(&mut out, cs[k]);
                assert(r2.skip(k - i) =~= seq![cs@[k as int]] + r2.skip(k + 1 - i));
                k += 1;
            }
            assert(r2.skip(n - i) =~= Seq::<char>::empty());
            return out;
        }
        push_char(&mut out, cs[i]);
        assert(rest.drop_first() =~= cs@.skip(i + 1));
        i += 1;
    }
    assert(cs@.skip(n as int).len() == 0);
    out
}

/// One line of a help window: a heading or an ordinary line.
#[derive(Debug)]
pub struct HelpLine {
    pub heading: bool,
    pub text: String,
}

/// The mathematical content of a [`HelpLine`].
pub struct HelpLineView {
    pub heading: bool,
    pub text: Seq<char>,
}

impl View for HelpLine {
    type V = HelpLineView;

    open spec fn view(&self) -> HelpLineView {
        HelpLineView { heading: self.heading, text: self.text@ }
    }
}

/// The views of a sequence of lines.
pub open spec fn line_views(s: Seq<HelpLine>) -> Seq<HelpLineView> {
    s.map_values(|l: HelpLine| l@)
}

/// A line in the current language, with `{}` filled with `value`.
pub open spec fn line(heading: bool, text: Seq<char>, lang: Language, value: Seq<char>) -> HelpLineView {
    HelpLineView { heading, text: fill_in_spec(translate_spec(lang, text), value) }
}

fn push_line(lines: &mut Vec<HelpLine>, heading: bool, text: &str, state: &LanguageState, value: &str)
    ensures
        line_views(final(lines)@) == line_views(old(lines)@).push(line(heading, text@, language_of(state.code), value@)),
{
    let shown = fill_in(translate(state, text), value);
    let l = HelpLine { heading, text: shown };
    let ghost prev = lines@;
    lines.push(l);
    assert(line_views(lines@) =~= line_views(prev).push(l@));
}

/// The hints of the start screen while no waveform is loaded, with the key
/// of the command prompt filled in. `native` is false in the web build,
/// which cannot open local files.
pub open spec fn start_hints_spec(lang: Language, prompt: Seq<char>, native: bool) -> Seq<HelpLineView> {
    seq![
        line(false, "Drag and drop a VCD, FST, or GHW file here to open it"@, lang, prompt),
        line(
            false,
            if native {
                "Or press {} and type load_file or load_url"@
            } else {
                "Or press {} and type load_url"@
            },
            lang,
            prompt,
        ),
        line(
            false,
            if native {
                "Or use the file menu or toolbar to open a file or a URL"@
            } else {
                "Or use the file menu or toolbar to open a URL"@
            },
            lang,
            prompt,
        ),
    ]
}

/// The hints of the start screen.
pub fn start_hints(state: &LanguageState, prompt: &str, native: bool) -> (r: Vec<HelpLine>)
    ensures
        line_views(r@) == start_hints_spec(language_of(state.code), prompt@, native),
{
    let mut lines: Vec<HelpLine> = Vec::new();
    push_line(&mut lines, false, "Drag and drop a VCD, FST, or GHW file here to open it", state, prompt);
    if native {
        push_line(&mut lines, false, "Or press {} and type load_file or load_url", state, prompt);
        push_line(&mut lines, false, "Or use the file menu or toolbar to open a file or a URL", state, prompt);
    } else {
        push_line(&mut lines, false, "Or press {} and type load_url", state, prompt);
        push_line(&mut lines, false, "Or use the file menu or toolbar to open a URL", state, prompt);
    }
    assert(line_views(lines@) =~= start_hints_spec(language_of(state.code), prompt@, native));
    lines
}

/// The lines of the quick start window, with the key of the command prompt
/// filled in.
pub open spec fn quickstart_spec(lang: Language, prompt: Seq<char>, native: bool) -> Seq<HelpLineView> {
    seq![
        line(true, "Controls"@, lang, prompt),
        line(false, "↔ Use scroll and ctrl+scroll to navigate the waveform"@, lang, prompt),
        line(false, "🚀 Press {} to open the command palette"@, lang, prompt),
        line(false, "✋ Click the middle mouse button for gestures"@, lang, prompt),
        line(false, "❓ See the help menu for more controls"@, lang, prompt),
        line(true, "Adding traces"@, lang, prompt),
        line(false, "Add more traces using the command palette or using the sidebar"@, lang, prompt),
        line(true, "Opening files"@, lang, prompt),
        line(false, "Open a new file by"@, lang, prompt),
        line(false, "- dragging a VCD, FST, or GHW file"@, lang, prompt),
        line(
            false,
            if native {
                "- typing load_url or load_file in the command palette"@
            } else {
                "- typing load_url in the command palette"@
            },
            lang,
            prompt,
        ),
        line(false, "- using the file menu"@, lang, prompt),
        line(false, "- using the toolbar"@, lang, prompt),
    ]
}

/// The lines of the quick start window.
pub fn quickstart_lines(state: &LanguageState, prompt: &str, native: bool) -> (r: Vec<HelpLine>)
    ensures
        line_views(r@) == quickstart_spec(language_of(state.code), prompt@, native),
{
    let mut lines: Vec<HelpLine> = Vec::new();
    push_line(&mut lines, true, "Controls", state, prompt);
    push_line(&mut lines, false, "↔ Use scroll and ctrl+scroll to navigate the waveform", state, prompt);
    push_line(&mut lines, false, "🚀 Press {} to open the command palette", state, prompt);
    push_line(&mut lines, false, "✋ Click the middle mouse button for gestures", state, prompt);
    push_line(&mut lines, false, "❓ See the help menu for more controls", state, prompt);
    push_line(&mut lines, true, "Adding traces", state, prompt);
    push_line(&mut lines, false, "Add more traces using the command palette or using the sidebar", state, prompt);
    push_line(&mut lines, true, "Opening files", state, prompt);
    push_line(&mut lines, false, "Open a new file by", state, prompt);
    push_line(&mut lines, false, "- dragging a VCD, FST, or GHW file", state, prompt);
    if native {
        push_line(&mut lines, false, "- typing load_url or load_file in the command palette", state, prompt);
    } else {
        push_line(&mut lines, false, "- typing load_url in the command palette", state, prompt);
    }
    push_line(&mut lines, false, "- using the file menu", state, prompt);
    push_line(&mut lines, false, "- using the toolbar", state, prompt);
    assert(line_views(lines@) =~= quickstart_spec(language_of(state.code), prompt@, native));
    lines
}

/// The version lines of the about window: the package version, the version
/// control description and the build date, each filled into its label.
pub open spec fn about_spec(lang: Language, cargo: Seq<char>, git: Seq<char>, date: Seq<char>) -> Seq<HelpLineView> {
    seq![
        line(false, "Cargo version: {}"@, lang, cargo),
        line(false, "Git version: {}"@, lang, git),
        line(false, "Build date: {}"@, lang, date),
    ]
}

/// The version lines of the about window.
pub fn about_lines(state: &LanguageState, cargo: &str, git: &str, date: &str) -> (r: Vec<HelpLine>)
    ensures
        line_views(r@) == about_spec(language_of(state.code), cargo@, git@, date@),
{
    let mut lines: Vec<HelpLine> = Vec::new();
    push_line(&mut lines, false, "Cargo version: {}", state, cargo);
    push_line(&mut lines, false, "Git version: {}", state, git);
    push_line(&mut lines, false, "Build date: {}", state, date);
    assert(line_views(lines@) =~= about_spec(language_of(state.code), cargo@, git@, date@));
    lines
}

} // verus!
