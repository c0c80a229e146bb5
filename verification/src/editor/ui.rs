//! Small UI enums and records of the editor.

use vstd::prelude::*;
use crate::text::{chars_of, string_of, starts_with, strip_prefix, sub_chars};
use crate::manifest::{LeafGraphic, Output};

verus! {

/// The graphic a "New …" command creates.
#[derive(Debug, Clone, Copy, PartialEq, Eq, Structural)]
pub enum NewGraphic {
    Container,
    Sprite,
    /// 4-vert axis-aligned quad polygon with explicit `[0,2,3,3,1,0]` indices.
    Rect,
    Polygon,
    SpriteRenderer,
}

/// A guide-line drag on the preview canvas.
#[derive(Debug, Clone, Copy, PartialEq, Eq, Structural)]
pub enum GuideDrag {
    /// Dragging out of the top ruler: a new vertical guide.
    AddVertical,
    /// Dragging out of the left ruler: a new horizontal guide.
    AddHorizontal,
    /// Moving the vertical guide at this index.
    MoveVertical(usize),
    /// Moving the horizontal guide at this index.
    MoveHorizontal(usize),
}

/// One tab = one open `.tps.fab.json` document.
#[derive(Debug, Clone, Copy, PartialEq, Eq, Hash, Structural)]
pub struct TabId {
    pub doc: usize,
}

/// What the modal picker picks.
#[derive(Debug, Clone, Copy, PartialEq, Eq, Structural)]
pub enum PickerKind {
    Sprite,
    Color,
}

/// The command palette's query and highlighted row.
#[derive(Debug, Clone)]
pub struct PaletteState {
    pub query: String,
    pub selected_idx: usize,
}

impl Default for PaletteState {
    fn default() -> (r: PaletteState)
        ensures
            r.query@ == Seq::<char>::empty(),
            r.selected_idx == 0,
    {
        PaletteState { query: String::new(), selected_idx: 0 }
    }
}

/// The highlighted row after one frame with `n` matching commands: kept in
/// bounds, then one down (stopping at the last row) and/or one up
/// (stopping at the first).
pub open spec fn palette_row(sel: int, n: int, down: bool, up: bool) -> int {
    let clamped = if n == 0 {
        0
    } else if sel >= n {
        n - 1
    } else {
        sel
    };
    let after_down = if down && n > 0 {
        if clamped + 1 < n - 1 {
            clamped + 1
        } else {
            n - 1
        }
    } else {
        clamped
    };
    if up {
        if after_down > 0 {
            after_down - 1
        } else {
            0
        }
    } else {
        after_down
    }
}

impl PaletteState {
    /// Apply one frame of arrow-key navigation over `n` matching commands.
    pub fn navigate(&mut self, n: usize, down: bool, up: bool)
        ensures
            final(self).selected_idx == palette_row(old(self).selected_idx as int, n as int, down, up),
            final(self).query == old(self).query,
            n > 0 ==> final(self).selected_idx < n,
    {
        if n == 0 {
            self.selected_idx = 0;
        } else if self.selected_idx >= n {
            self.selected_idx = n - 1;
        }
        if down && n > 0 {
            self.selected_idx = if self.selected_idx + 1 < n - 1 {
                self.selected_idx + 1
            } else {
                n - 1
            };
        }
        if up {
            self.selected_idx = if self.selected_idx > 0 {
                self.selected_idx - 1
            } else {
                0
            };
        }
    }
}

/// `s` cut to `max` characters: unchanged when it fits, else its first
/// `max - 1` characters and an ellipsis.
pub open spec fn truncated(s: Seq<char>, max: int) -> Seq<char> {
    if s.len() <= max {
        s
    } else {
        s.take(max - 1).push('…')
    }
}

/// Shorten a label for a picker tile.
pub fn truncate(s: &str, max: usize) -> (r: String)
    requires
        max >= 1 || s@.len() == 0,
    ensures
        r@ == truncated(s@, max as int),
{
    let cs = chars_of(s);
    if cs.len() <= max {
        return string_of(&cs);
    }
    let mut out: Vec<char> = Vec::new();
    let mut i: usize = 0;
    while i < max - 1
        invariant
            max >= 1,
            max < cs@.len(),
            i <= max - 1,
            cs@ == s@,
            out@ == s@.take(i as int),
        decreases max - 1 - i,
    {
        out.push(cs[i]);
        proof {
            assert(s@.take(i + 1) =~= s@.take(i as int).push(s@[i as int]));
        }
        i = i + 1;
    }
    out.push('…');
    string_of(&out)
}

/// The active tab after closing tab `closed`, with `remaining` tabs left:
/// closing the active tab activates its right neighbour (or the new last
/// tab, or none); closing a tab to its left shifts it down by one.
pub open spec fn spec_active_after_close(active: Option<usize>, closed: usize, remaining: usize) -> Option<usize> {
    match active {
        Some(a) => if a == closed {
            if closed < remaining {
                Some(closed)
            } else if remaining > 0 {
                Some((remaining - 1) as usize)
            } else {
                None
            }
        } else if a > closed {
            Some((a - 1) as usize)
        } else {
            Some(a)
        },
        None => None,
    }
}

pub fn active_after_close(active: Option<usize>, closed: usize, remaining: usize) -> (r: Option<usize>)
    ensures
        r == spec_active_after_close(active, closed, remaining),
{
    match active {
        Some(a) => if a == closed {
            if closed < remaining {
                Some(closed)
            } else if remaining > 0 {
                Some(remaining - 1)
            } else {
                None
            }
        } else if a > closed {
            Some(a - 1)
        } else {
            Some(a)
        },
        None => None,
    }
}

/// The tab `delta` steps from the active one (the first when none is
/// active), wrapping around the `n` tabs.
pub fn cycle_tab_index(active: Option<usize>, delta: i32, n: usize) -> (r: usize)
    requires
        0 < n <= i32::MAX,
        active matches Some(a) ==> a < n,
    ensures
        r < n,
        r as int == ((match active {
            Some(a) => a as int,
            None => 0,
        }) + delta) % (n as int),
{
    let cur: i64 = match active {
        Some(a) => a as i64,
        None => 0,
    };
    let x: i64 = cur + delta as i64;
    let m: u64 = n as u64;
    if x >= 0 {
        let r: u64 = (x as u64) % m;
        r as usize
    } else {
        let y: u64 = ((0 - x) as u64) % m;
        proof {
            let q = (-x) / (m as int);
            vstd::arithmetic::div_mod::lemma_fundamental_div_mod(-x, m as int);
            if y == 0 {
                assert(x == (-q) * (m as int) + 0) by (nonlinear_arith)
                    requires
                        -x == (m as int) * q + y,
                        y == 0,
                ;
                vstd::arithmetic::div_mod::lemma_fundamental_div_mod_converse(x as int, m as int, -q, 0);
            } else {
                assert(x == (-q - 1) * (m as int) + (m - y)) by (nonlinear_arith)
                    requires
                        -x == (m as int) * q + y,
                ;
                vstd::arithmetic::div_mod::lemma_fundamental_div_mod_converse(
                    x as int,
                    m as int,
                    -q - 1,
                    (m - y) as int,
                );
            }
        }
        if y == 0 {
            0
        } else {
            (m - y) as usize
        }
    }
}

/// The visible row `delta` rows from row `cur`, kept within the `n` rows.
pub fn step_row(cur: usize, delta: i32, n: usize) -> (r: usize)
    requires
        0 < n <= i32::MAX,
        cur <= i32::MAX,
    ensures
        r < n,
        r as int == (if cur + delta < 0 {
            0
        } else if cur + delta > n - 1 {
            n - 1
        } else {
            cur + delta
        }),
{
    let x: i64 = cur as i64 + delta as i64;
    if x < 0 {
        0
    } else if x > n as i64 - 1 {
        n - 1
    } else {
        x as usize
    }
}


/// The short name of a tree's output shown beside it: `"ui"` for a CSA
/// sprite, `"sma-canvas"` or `"sma-renderer"` for an SMA mesh.
pub fn mode_label(o: &Output) -> (r: &'static str)
    ensures
        r@ == (match o {
            Output::Csa => "ui"@,
            Output::Sma { used_in_canvas, .. } => if *used_in_canvas { "sma-canvas"@ } else { "sma-renderer"@ },
        }),
{
    match o {
        Output::Csa => "ui",
        Output::Sma { used_in_canvas: true, .. } => "sma-canvas",
        Output::Sma { used_in_canvas: false, .. } => "sma-renderer",
    }
}

/// The name shown for a node: its own, or `(unnamed)`.
pub open spec fn shown_name(name: Seq<char>) -> Seq<char> {
    if name.len() == 0 { "(unnamed)"@ } else { name }
}

/// A color's name without its `Color_` prefix.
pub open spec fn color_hex_part(polygon_sprite: Seq<char>) -> Seq<char> {
    match strip_prefix(polygon_sprite, "Color_"@) {
        Some(rest) => rest,
        None => polygon_sprite,
    }
}

/// The tree panel's row label of a node named `name` with graphic `graphic`.
pub open spec fn spec_node_label(name: Seq<char>, graphic: Option<LeafGraphic>) -> Seq<char> {
    match graphic {
        None => shown_name(name) + " \u{b7} container"@,
        Some(LeafGraphic::Sprite { sprite, .. }) | Some(LeafGraphic::SpriteRenderer { sprite, .. }) => {
            if sprite@.len() == 0 {
                shown_name(name) + " \u{b7} (no sprite)"@
            } else if name.len() == 0 {
                sprite@
            } else {
                name + " \u{b7} "@ + sprite@
            }
        },
        Some(LeafGraphic::Polygon { polygon_sprite }) => {
            if name.len() == 0 {
                "polygon #"@ + color_hex_part(polygon_sprite@)
            } else {
                name + " \u{b7} #"@ + color_hex_part(polygon_sprite@)
            }
        },
    }
}

fn concat(a: &str, b: &str) -> (r: Vec<char>)
    ensures
        r@ == a@ + b@,
{
    let mut r = chars_of(a);
    let mut t = chars_of(b);
    r.append(&mut t);
    r
}

/// The tree panel's row label of a node named `name` with graphic
/// `graphic`: the name and the graphic's kind or sprite, a color shown by
/// its hex part.
pub fn node_label(name: &str, graphic: &Option<LeafGraphic>) -> (r: String)
    ensures
        r@ == spec_node_label(name@, *graphic),
{
    let shown: &str = if name.is_empty() { "(unnamed)" } else { name };
    let v: Vec<char> = match graphic {
        None => concat(shown, " \u{b7} container"),
        Some(LeafGraphic::Sprite { sprite, .. }) | Some(LeafGraphic::SpriteRenderer { sprite, .. }) => {
            let sprite: &str = sprite.as_str();
            if sprite.is_empty() {
                concat(shown, " \u{b7} (no sprite)")
            } else if name.is_empty() {
                chars_of(sprite)
            } else {
                let mut r = concat(name, " \u{b7} ");
                let mut t = chars_of(sprite);
                r.append(&mut t);
                r
            }
        },
        Some(LeafGraphic::Polygon { polygon_sprite }) => {
            let p = chars_of(polygon_sprite.as_str());
            let prefix = chars_of("Color_");
            let mut hex = if starts_with(&p, &prefix) {
                sub_chars(&p, prefix.len(), p.len())
            } else {
                p
            };
            let mut r = if name.is_empty() { chars_of("polygon #") } else { concat(name, " \u{b7} #") };
            r.append(&mut hex);
            r
        },
    };
    string_of(&v)
}

} // verus!
