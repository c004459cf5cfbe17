//! What the screen shows, as text: the header line, the sidebar rows, the
//! log pane's title and where an overlay sits. The drawing itself (colours,
//! borders, widgets) belongs to the terminal front end; everything it
//! prints is computed here.

use vstd::prelude::*;

use crate::app::{selected_name, App, AppV};
use crate::rows::{Row, RowV};
use crate::runtime::status_of;
use crate::state::Status;
use crate::text::{chars_of, decimal_nat, is_blank, push_char, push_str, string_of, string_of_range, u64_to_string};

verus! {

/// Width of the sidebar, borders included.
pub const SIDEBAR_WIDTH: u16 = 24;

/// `n` spaces.
pub open spec fn spaces(n: nat) -> Seq<char> {
    Seq::new(n, |i: int| ' ')
}

/// `s` cut or right-padded with spaces to exactly `width` characters.
pub open spec fn padded(s: Seq<char>, width: nat) -> Seq<char> {
    if s.len() >= width {
        s.take(width as int)
    } else {
        s + spaces((width - s.len()) as nat)
    }
}

/// Cuts `s` to `width` characters, or pads it with spaces up to `width`.
pub fn pad_to(width: usize, s: &str) -> (r: String)
    ensures
        r@ == padded(s@, width as nat),
        r@.len() == width,
{
    let v = chars_of(s);
    if v.len() >= width {
        string_of_range(&v, 0, width)
    } else {
        let mut out = string_of(&v);
        let n = v.len();
        let mut i: usize = n;
        while i < width
            invariant
                n <= i <= width,
                n == s@.len(),
                out@ == s@ + spaces((i - n) as nat),
            decreases width - i,
        {
            push_char(&mut out, ' ');
            i = i + 1;
            assert(out@ =~= s@ + spaces((i - n) as nat));
        }
        out
    }
}

/// The header's left part: the program's name and the selected target.
pub open spec fn header_title_text(name: Option<Seq<char>>) -> Seq<char> {
    match name {
        Some(n) => " tukituki — "@ + n + " "@,
        None => " tukituki "@,
    }
}

/// The header's right part: the flash message, or the key hints.
pub open spec fn header_message_text(msg: Seq<char>) -> Seq<char> {
    if msg.len() == 0 {
        " ? help  q detach  Q stop all & exit "@
    } else {
        " "@ + msg + " "@
    }
}

/// The log pane's title.
pub open spec fn pane_title_text(name: Option<Seq<char>>) -> Seq<char> {
    match name {
        Some(n) => " "@ + n + " "@,
        None => " (no target selected) "@,
    }
}

/// The glyph that marks a status in the sidebar.
pub open spec fn glyph(s: Status) -> Seq<char> {
    match s {
        Status::Running => "●"@,
        Status::Stopped => "○"@,
        Status::Failed => "✗"@,
        Status::Unknown => "?"@,
    }
}

/// A folder row: arrow, name and size, fitted to the sidebar.
pub open spec fn folder_text(group: Seq<char>, expanded: bool, count: nat) -> Seq<char> {
    let arrow = if expanded {
        "▼"@
    } else {
        "▶"@
    };
    padded(arrow + " "@ + group + " ("@ + decimal_nat(count) + ")"@, (SIDEBAR_WIDTH - 2) as nat)
}

/// A target row's label (after the glyph), indented inside a folder.
pub open spec fn target_text(group: Seq<char>, name: Seq<char>) -> Seq<char> {
    let indent = if group.len() == 0 {
        Seq::empty()
    } else {
        "  "@
    };
    padded(indent + name + " "@, (SIDEBAR_WIDTH - 4) as nat)
}

/// The line that sets the virtual targets apart.
pub open spec fn separator_text() -> Seq<char> {
    Seq::new((SIDEBAR_WIDTH - 2) as nat, |i: int| '─')
}

/// How the sidebar draws row `i`.
pub enum RowText {
    /// A folder line, already fitted to the sidebar.
    Folder(String),
    /// A target: its status and its fitted label.
    Target(Status, String),
    /// The separator line.
    Separator(String),
    /// A row that points at no target: drawn empty.
    Blank,
}

/// What row `i` of `a` shows.
pub open spec fn row_text_spec(a: AppV, i: int) -> RowTextV {
    match a.rows[i] {
        RowV::Folder(group, expanded, count) => RowTextV::Folder(folder_text(group, expanded, count)),
        RowV::Target(idx, group) => if idx < a.targets.len() {
            let name = a.targets[idx as int].name@;
            RowTextV::Target(status_of(a.statuses, name), target_text(group, name))
        } else {
            RowTextV::Blank
        },
        RowV::Separator => RowTextV::Separator(separator_text()),
    }
}

/// A row's text as the contracts see it.
pub enum RowTextV {
    Folder(Seq<char>),
    Target(Status, Seq<char>),
    Separator(Seq<char>),
    Blank,
}

impl View for RowText {
    type V = RowTextV;

    open spec fn view(&self) -> RowTextV {
        match self {
            RowText::Folder(s) => RowTextV::Folder(s@),
            RowText::Target(st, s) => RowTextV::Target(*st, s@),
            RowText::Separator(s) => RowTextV::Separator(s@),
            RowText::Blank => RowTextV::Blank,
        }
    }
}

/// The glyph for a status.
pub fn status_glyph(s: Status) -> (r: &'static str)
    ensures
        r@ == glyph(s),
{
    match s {
        Status::Running => "●",
        Status::Stopped => "○",
        Status::Failed => "✗",
        Status::Unknown => "?",
    }
}

/// The header's left part.
pub fn header_title(app: &App) -> (r: String)
    ensures
        r@ == header_title_text(selected_name(app@)),
{
    match app.selected_target_name() {
        Some(n) => {
            let mut s = String::new();
            push_str(&mut s, " tukituki — ");
            push_str(&mut s, n.as_str());
            push_str(&mut s, " ");
            s
        },
        None => {
            let mut s = String::new();
            push_str(&mut s, " tukituki ");
            s
        },
    }
}

/// The header's right part.
pub fn header_message(app: &App) -> (r: String)
    ensures
        r@ == header_message_text(app@.status_msg),
{
    let mut s = String::new();
    if is_blank(&app.status_msg) {
        push_str(&mut s, " ? help  q detach  Q stop all & exit ");
    } else {
        push_str(&mut s, " ");
        push_str(&mut s, app.status_msg.as_str());
        push_str(&mut s, " ");
    }
    s
}

/// The log pane's title.
pub fn pane_title(app: &App) -> (r: String)
    ensures
        r@ == pane_title_text(selected_name(app@)),
{
    let mut s = String::new();
    match app.selected_target_name() {
        Some(n) => {
            push_str(&mut s, " ");
            push_str(&mut s, n.as_str());
            push_str(&mut s, " ");
        },
        None => {
            push_str(&mut s, " (no target selected) ");
        },
    }
    s
}

/// How the sidebar draws row `i`.
pub fn row_text(app: &App, i: usize) -> (r: RowText)
    requires
        i < app@.rows.len(),
    ensures
        r@ == row_text_spec(app@, i as int),
{
    match &app.rows[i] {
        Row::Folder { group, expanded, count } => {
            let mut s = String::new();
            if *expanded {
                push_str(&mut s, "▼");
            } else {
                push_str(&mut s, "▶");
            }
            push_str(&mut s, " ");
            push_str(&mut s, group.as_str());
            push_str(&mut s, " (");
            let c = u64_to_string(*count as u64);
            push_str(&mut s, c.as_str());
            push_str(&mut s, ")");
            proof {
                let arrow = if *expanded {
                    "▼"@
                } else {
                    "▶"@
                };
                assert(s@ =~= arrow + " "@ + group@ + " ("@ + decimal_nat(*count as nat) + ")"@);
            }
            let r = RowText::Folder(pad_to(22, s.as_str()));
            assert(r@ == row_text_spec(app@, i as int));
            r
        },
        Row::Target { target_idx, group } => {
            if *target_idx < app.targets.len() {
                let t = &app.targets[*target_idx];
                let status = match app.statuses.get(t.name.as_str()) {
                    Some(st) => *st,
                    None => Status::Unknown,
                };
                let mut s = String::new();
                if !is_blank(group) {
                    push_str(&mut s, "  ");
                }
                push_str(&mut s, t.name.as_str());
                push_str(&mut s, " ");
                proof {
                    let indent = if group@.len() == 0 {
                        Seq::empty()
                    } else {
                        "  "@
                    };
                    assert(s@ =~= indent + t.name@ + " "@);
                }
                let r = RowText::Target(status, pad_to(20, s.as_str()));
                assert(r@ == row_text_spec(app@, i as int));
                r
            } else {
                RowText::Blank
            }
        },
        Row::Separator => {
            let mut s = String::new();
            let mut k: usize = 0;
            while k < 22
                invariant
                    k <= 22,
                    s@ == Seq::new(k as nat, |j: int| '─'),
                decreases 22 - k,
            {
                push_char(&mut s, '─');
                k = k + 1;
                assert(s@ =~= Seq::new(k as nat, |j: int| '─'));
            }
            assert(s@ =~= separator_text());
            RowText::Separator(s)
        },
    }
}

/// A rectangle of the terminal, in cells.
pub struct Area {
    pub x: u16,
    pub y: u16,
    pub width: u16,
    pub height: u16,
}

/// `a - b`, or 0 where `b` exceeds `a`.
pub open spec fn sat_sub(a: int, b: int) -> int {
    if a >= b {
        a - b
    } else {
        0
    }
}

/// The larger of two numbers.
pub open spec fn larger(a: int, b: int) -> int {
    if a >= b {
        a
    } else {
        b
    }
}

/// Where an overlay sits inside `a`: four columns narrower and two rows
/// shorter than `a` (but at least 20 by 5), centred.
pub open spec fn overlay_spec(a: Area) -> (int, int, int, int) {
    let w = larger(sat_sub(a.width as int, 4), 20);
    let h = larger(sat_sub(a.height as int, 2), 5);
    (a.x + sat_sub(a.width as int, w) / 2, a.y + sat_sub(a.height as int, h) / 2, w, h)
}

/// Where an overlay sits inside `a`.
pub fn overlay_area(a: &Area) -> (r: Area)
    requires
        a.x + a.width <= u16::MAX,
        a.y + a.height <= u16::MAX,
    ensures
        (r.x as int, r.y as int, r.width as int, r.height as int) == overlay_spec(*a),
{
    let w0 = a.width.saturating_sub(4);
    let w = if w0 >= 20 {
        w0
    } else {
        20
    };
    let h0 = a.height.saturating_sub(2);
    let h = if h0 >= 5 {
        h0
    } else {
        5
    };
    let x = a.x + a.width.saturating_sub(w) / 2;
    let y = a.y + a.height.saturating_sub(h) / 2;
    Area { x, y, width: w, height: h }
}

} // verus!
