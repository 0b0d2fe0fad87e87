use unicode_width::{UnicodeWidthChar, UnicodeWidthStr};
use vstd::prelude::*;

use crate::data::tui_layout::Rect;
use crate::draw::{CommandModel, DrawCommand};
use crate::text::{str_chars, string_from_chars};

verus! {

/// The columns that a character takes on a terminal, or `None` for a control
/// character, as `unicode-width` reckons it.
pub uninterp spec fn char_width(c: char) -> Option<usize>;

/// The columns that a string takes on a terminal, as `unicode-width`
/// reckons it; for some sequences this is not the sum of the characters'
/// widths.
pub uninterp spec fn str_width(s: Seq<char>) -> usize;

/// `UnicodeWidthChar::width`: the width of a character, `None` for the
/// control characters below U+0020 and from U+007F to U+009F, one for the
/// other ASCII characters.
#[verifier::external_body]
pub(crate) fn width_of_char(c: char) -> (r: Option<usize>)
    ensures
        r == char_width(c),
        (c as u32) < 0x20 ==> r is None,
        0x20 <= (c as u32) < 0x7f ==> r == Some(1usize),
        0x7f <= (c as u32) < 0xa0 ==> r is None,
{
    c.width()
}

/// `UnicodeWidthStr::width`: the width of a string; the empty string takes
/// no column.
#[verifier::external_body]
pub(crate) fn width_of_str(s: &str) -> (r: usize)
    ensures
        r == str_width(s@),
        s@.len() == 0 ==> r == 0,
{
    s.width()
}

/// The width that the display loop counts for a character: control
/// characters count as zero.
pub open spec fn col_width(c: char) -> nat {
    match char_width(c) {
        Some(w) => w as nat,
        None => 0,
    }
}

/// The columns that the display loop counts for `s`.
pub open spec fn cols(s: Seq<char>) -> nat
    decreases s.len(),
{
    if s.len() == 0 {
        0
    } else {
        cols(s.drop_last()) + col_width(s.last())
    }
}

/// The number of columns of `[lw, rw)` that lie in `[l, r)`.
pub open spec fn overlap(lw: int, rw: int, l: int, r: int) -> int {
    let lo = if lw < l {
        l
    } else {
        lw
    };
    let hi = if rw < r {
        rw
    } else {
        r
    };
    if lo < hi {
        hi - lo
    } else {
        0
    }
}

/// The text that shows columns `[l, r)` of `s`, and whether the scan stopped
/// early. A character wholly inside shows as itself (a line feed as
/// nothing); a character cut by an edge shows as blanks for its columns
/// inside.
pub open spec fn trimmed(s: Seq<char>, l: int, r: int) -> (Seq<char>, bool)
    decreases s.len(),
{
    if s.len() == 0 {
        (Seq::empty(), false)
    } else {
        let prev = trimmed(s.drop_last(), l, r);
        let c = s.last();
        let lw = cols(s.drop_last()) as int;
        let rw = lw + col_width(c);
        if prev.1 {
            prev
        } else if rw <= l {
            prev
        } else if r <= lw {
            (prev.0, true)
        } else if lw < l || r < rw {
            (prev.0 + Seq::new(overlap(lw, rw, l, r) as nat, |i: int| ' '), false)
        } else if c != '\n' {
            (prev.0.push(c), false)
        } else {
            prev
        }
    }
}

/// The part of `line` that shows in columns `range_l` to `range_r`.
pub fn trim_display_range(line: &str, range_l: usize, range_r: usize) -> (r: String)
    requires
        cols(line@) <= usize::MAX,
    ensures
        r@ == trimmed(line@, range_l as int, range_r as int).0,
{
    let cs = str_chars(line);
    let mut width: usize = 0;
    let mut result: Vec<char> = Vec::new();
    let mut i: usize = 0;
    let mut stopped = false;
    assert(cs@.take(0) =~= Seq::<char>::empty());
    while i < cs.len() && !stopped
        invariant
            cs@ == line@,
            i <= cs@.len(),
            cols(cs@) <= usize::MAX,
            width == cols(cs@.take(i as int)),
            (result@, stopped) == trimmed(cs@.take(i as int), range_l as int, range_r as int),
        decreases cs@.len() - i,
    {
        proof {
            lemma_cols_prefix(cs@, i + 1);
            assert(cs@.take(i + 1).drop_last() =~= cs@.take(i as int));
        }
        let c = cs[i];
        let l = width;
        let w = match width_of_char(c) {
            Some(x) => x,
            None => 0,
        };
        let r = l + w;
        width = width + w;
        if r <= range_l {
        } else if range_r <= l {
            stopped = true;
        } else if l < range_l || range_r < r {
            let lo = if l < range_l {
                range_l
            } else {
                l
            };
            let hi = if r < range_r {
                r
            } else {
                range_r
            };
            let mut k = lo;
            let ghost base = result@;
            while k < hi
                invariant
                    lo <= k <= hi || (hi <= lo && k == lo),
                    result@ == base + Seq::new((k - lo) as nat, |x: int| ' '),
                decreases hi - k,
            {
                result.push(' ');
                k = k + 1;
                assert(result@ =~= base + Seq::new((k - lo) as nat, |x: int| ' '));
            }
            assert(result@ =~= base + Seq::new(overlap(l as int, r as int, range_l as int, range_r as int) as nat, |x: int| ' '));
        } else if c != '\n' {
            result.push(c);
        }
        i = i + 1;
    }
    proof {
        lemma_trimmed_stopped(cs@, i as int, range_l as int, range_r as int);
    }
    string_from_chars(result.as_slice())
}

/// `s` cut from the end until it fits in `w` columns from column `p`.
pub open spec fn fitted(s: Seq<char>, p: u16, w: u16) -> Seq<char>
    decreases s.len(),
{
    if s.len() == 0 || p + (str_width(s) as u16) <= w {
        s
    } else {
        fitted(s.drop_last(), p, w)
    }
}

/// `s` and each part of it cut from its end fit after column `p` within the
/// machine's columns.
pub open spec fn widths_fit(s: Seq<char>, p: u16) -> bool {
    forall|k: int| 0 <= k <= s.len() ==> p + (#[trigger] str_width(s.take(k)) as u16) <= u16::MAX
}

/// A command moved by `rect`'s offset.
pub open spec fn moved_by(p: (u16, u16), rect: Rect) -> (u16, u16) {
    ((p.0 + rect.offset.0) as u16, (p.1 + rect.offset.1) as u16)
}

/// What clipping to `rect` makes of a command: a string below the rectangle
/// or a cursor outside the focused pane is dropped; a string is cut to the
/// rectangle's width; what is kept moves by the rectangle's offset.
pub open spec fn clip_one(c: CommandModel, rect: Rect, is_focus: bool) -> Option<CommandModel> {
    match c {
        CommandModel::Str(p, s) => if rect.size.1 <= p.1 {
            None
        } else {
            Some(CommandModel::Str(moved_by(p, rect), fitted(s, p.0, rect.size.0)))
        },
        CommandModel::Cursor(p, st) => if !is_focus {
            None
        } else {
            Some(CommandModel::Cursor(moved_by(p, rect), st))
        },
    }
}

/// The commands clipped to `rect`, in order.
pub open spec fn clip_all(cs: Seq<CommandModel>, rect: Rect, is_focus: bool) -> Seq<CommandModel>
    decreases cs.len(),
{
    if cs.len() == 0 {
        Seq::empty()
    } else {
        let prev = clip_all(cs.drop_last(), rect, is_focus);
        match clip_one(cs.last(), rect, is_focus) {
            Some(c) => prev.push(c),
            None => prev,
        }
    }
}

/// Clipping a command to `rect` neither loops forever nor leaves the
/// machine's columns: a kept string starts within the rectangle's width and
/// every cut of it fits, and a kept command's moved position fits.
pub open spec fn clip_ok(c: CommandModel, rect: Rect, is_focus: bool) -> bool {
    match c {
        CommandModel::Str(p, s) => p.1 < rect.size.1 ==> {
            &&& p.0 <= rect.size.0
            &&& widths_fit(s, p.0)
            &&& p.0 + rect.offset.0 <= u16::MAX
            &&& p.1 + rect.offset.1 <= u16::MAX
        },
        CommandModel::Cursor(p, _) => is_focus ==> p.0 + rect.offset.0 <= u16::MAX && p.1
            + rect.offset.1 <= u16::MAX,
    }
}

/// Cuts a string from its end until it fits in `w` columns from column `p`.
fn fit_text(text: &String, p: u16, w: u16) -> (r: String)
    requires
        p <= w,
        widths_fit(text@, p),
    ensures
        r@ == fitted(text@, p, w),
{
    let mut cs = str_chars(text.as_str());
    let ghost orig = cs@;
    loop
        invariant
            orig == text@,
            cs@.len() <= orig.len(),
            cs@ == orig.take(cs@.len() as int),
            fitted(cs@, p, w) == fitted(orig, p, w),
            p <= w,
            widths_fit(orig, p),
        decreases cs@.len(),
    {
        let s = string_from_chars(cs.as_slice());
        let n = width_of_str(s.as_str());
        assert(orig.take(cs@.len() as int) == cs@);
        assert(p + (str_width(orig.take(cs@.len() as int)) as u16) <= u16::MAX);
        if cs.len() == 0 || p + (n as u16) <= w {
            return s;
        }
        let ghost before = cs@;
        let _ = cs.pop();
        assert(cs@ =~= before.drop_last());
        assert(cs@ =~= orig.take(cs@.len() as int));
    }
}

/// Drops, cuts and moves commands for a pane's rectangle; see `clip_one`.
pub fn translate_and_clip(commands: Vec<DrawCommand>, rect: Rect, is_focus: bool) -> (r: Vec<DrawCommand>)
    requires
        forall|i: int| 0 <= i < commands@.len() ==> clip_ok(#[trigger] commands@[i]@, rect, is_focus),
    ensures
        r@.len() == clip_all(commands@.map_values(|c: DrawCommand| c@), rect, is_focus).len(),
        forall|i: int| 0 <= i < r@.len() ==> #[trigger] r@[i]@ == clip_all(
            commands@.map_values(|c: DrawCommand| c@),
            rect,
            is_focus,
        )[i],
{
    let ghost ms = commands@.map_values(|c: DrawCommand| c@);
    let mut out: Vec<DrawCommand> = Vec::new();
    let mut i: usize = 0;
    while i < commands.len()
        invariant
            i <= commands@.len(),
            ms == commands@.map_values(|c: DrawCommand| c@),
            forall|j: int| 0 <= j < commands@.len() ==> clip_ok(#[trigger] commands@[j]@, rect, is_focus),
            out@.len() == clip_all(ms.take(i as int), rect, is_focus).len(),
            forall|j: int| 0 <= j < out@.len() ==> #[trigger] out@[j]@ == clip_all(ms.take(i as int), rect, is_focus)[j],
        decreases commands@.len() - i,
    {
        assert(ms.take(i + 1).drop_last() =~= ms.take(i as int));
        assert(ms.take(i + 1).last() == commands@[i as int]@);
        assert(clip_ok(commands@[i as int]@, rect, is_focus));
        match &commands[i] {
            DrawCommand::DrawString { position, text } => {
                if !(rect.size.1 <= position.1) {
                    let t = fit_text(text, position.0, rect.size.0);
                    out.push(DrawCommand::DrawString {
                        position: (position.0 + rect.offset.0, position.1 + rect.offset.1),
                        text: t,
                    });
                }
            },
            DrawCommand::SetCursor { position, style } => {
                if is_focus {
                    out.push(DrawCommand::SetCursor {
                        position: (position.0 + rect.offset.0, position.1 + rect.offset.1),
                        style: *style,
                    });
                }
            },
        }
        i = i + 1;
    }
    assert(ms.take(commands@.len() as int) =~= ms);
    out
}

/// Whether `s` and each part of it cut from its end fit after column `p`;
/// see `widths_fit`.
fn widths_fit_check(s: &String, p: u16) -> (b: bool)
    ensures
        b == widths_fit(s@, p),
{
    let cs = str_chars(s.as_str());
    let n = cs.len();
    let mut k: usize = 0;
    loop
        invariant
            cs@ == s@,
            n == cs@.len(),
            k <= n,
            forall|j: int| 0 <= j < k ==> p + (#[trigger] str_width(s@.take(j)) as u16) <= u16::MAX,
        decreases n - k,
    {
        let prefix = crate::modal::slice_prefix(&cs, k);
        let t = string_from_chars(prefix.as_slice());
        let w = width_of_str(t.as_str());
        assert(t@ == s@.take(k as int));
        let w16 = #[verifier::truncate] (w as u16);
        if p as u32 + w16 as u32 > 65535 {
            return false;
        }
        if k == n {
            return true;
        }
        k = k + 1;
    }
}

/// Whether a command can be clipped to `rect`; see `clip_ok`.
pub(crate) fn clip_ok_check(c: &DrawCommand, rect: Rect, is_focus: bool) -> (b: bool)
    ensures
        b == clip_ok(c@, rect, is_focus),
{
    match c {
        DrawCommand::DrawString { position, text } => {
            !(position.1 < rect.size.1) || (position.0 <= rect.size.0 && widths_fit_check(text, position.0)
                && position.0 as u32 + rect.offset.0 as u32 <= 65535 && position.1 as u32 + rect.offset.1 as u32
                <= 65535)
        },
        DrawCommand::SetCursor { position, .. } => {
            !is_focus || (position.0 as u32 + rect.offset.0 as u32 <= 65535 && position.1 as u32
                + rect.offset.1 as u32 <= 65535)
        },
    }
}

/// `translate_and_clip` where every command can be clipped to `rect`, and
/// `None` where one cannot: a string that starts past the rectangle's right
/// edge, or that would reach past the machine's last column, or a command
/// that its offset would move past it.
pub fn clip_checked(commands: Vec<DrawCommand>, rect: Rect, is_focus: bool) -> (r: Option<Vec<DrawCommand>>)
    ensures
        r is Some <==> forall|i: int| 0 <= i < commands@.len() ==> clip_ok(#[trigger] commands@[i]@, rect, is_focus),
        r matches Some(v) ==> v@.len() == clip_all(commands@.map_values(|c: DrawCommand| c@), rect, is_focus).len()
            && forall|i: int| 0 <= i < v@.len() ==> #[trigger] v@[i]@ == clip_all(
            commands@.map_values(|c: DrawCommand| c@),
            rect,
            is_focus,
        )[i],
{
    let mut i: usize = 0;
    while i < commands.len()
        invariant
            i <= commands@.len(),
            forall|j: int| 0 <= j < i ==> clip_ok(#[trigger] commands@[j]@, rect, is_focus),
        decreases commands@.len() - i,
    {
        if !clip_ok_check(&commands[i], rect, is_focus) {
            return None;
        }
        i = i + 1;
    }
    Some(translate_and_clip(commands, rect, is_focus))
}

/// Whether the display loop's count of columns of `s` fits in a `usize`.
pub(crate) fn cols_fit(s: &String) -> (b: bool)
    ensures
        b == (cols(s@) <= usize::MAX),
{
    let cs = str_chars(s.as_str());
    let mut acc: usize = 0;
    let mut i: usize = 0;
    assert(cs@.take(0) =~= Seq::<char>::empty());
    while i < cs.len()
        invariant
            cs@ == s@,
            i <= cs@.len(),
            acc == cols(cs@.take(i as int)),
        decreases cs@.len() - i,
    {
        let w = match width_of_char(cs[i]) {
            Some(w) => w,
            None => 0,
        };
        assert(cs@.take(i + 1).drop_last() =~= cs@.take(i as int));
        assert(cs@.take(i + 1).last() == cs@[i as int]);
        if acc > usize::MAX - w {
            proof {
                lemma_cols_prefix(s@, i + 1);
            }
            return false;
        }
        acc = acc + w;
        i = i + 1;
    }
    assert(cs@.take(i as int) =~= s@);
    true
}

pub proof fn lemma_cols_prefix(s: Seq<char>, k: int)
    requires
        0 <= k <= s.len(),
    ensures
        cols(s.take(k)) <= cols(s),
    decreases s.len() - k,
{
    if k < s.len() {
        lemma_cols_prefix(s, k + 1);
        assert(s.take(k + 1).drop_last() =~= s.take(k));
    } else {
        assert(s.take(k) =~= s);
    }
}

/// Once the scan stopped, the rest of the text changes nothing.
pub proof fn lemma_trimmed_stopped(s: Seq<char>, k: int, l: int, r: int)
    requires
        0 <= k <= s.len(),
        k < s.len() ==> trimmed(s.take(k), l, r).1,
    ensures
        trimmed(s, l, r) == trimmed(s.take(k), l, r),
    decreases s.len() - k,
{
    if k < s.len() {
        assert(s.take(k + 1).drop_last() =~= s.take(k));
        lemma_trimmed_stopped_step(s.take(k + 1), l, r);
        lemma_trimmed_stopped(s, k + 1, l, r);
    } else {
        assert(s.take(k) =~= s);
    }
}

proof fn lemma_trimmed_stopped_step(s: Seq<char>, l: int, r: int)
    requires
        s.len() > 0,
        trimmed(s.drop_last(), l, r).1,
    ensures
        trimmed(s, l, r) == trimmed(s.drop_last(), l, r),
{
}

} // verus!
