use vstd::prelude::*;

use crate::data::id::PaneId;
use crate::data::tui_layout::{min_u16, Rect, ResolvedLayout};
use crate::draw::{CommandModel, DrawCommand};
use crate::screen::{clip_all, clip_ok, clip_ok_check, translate_and_clip};

verus! {

/// The contents of a list of draw commands.
pub open spec fn views(cs: Seq<DrawCommand>) -> Seq<CommandModel> {
    cs.map_values(|c: DrawCommand| c@)
}

/// `r` cut down to `outer`'s size, as `Rect::clip` does.
pub open spec fn clipped(r: Rect, outer: Rect) -> Rect {
    let ox = min_u16(r.offset.0, outer.size.0);
    let oy = min_u16(r.offset.1, outer.size.1);
    Rect {
        offset: (ox, oy),
        size: (min_u16(r.size.0, (outer.size.0 - ox) as u16), min_u16(r.size.1, (outer.size.1 - oy) as u16)),
    }
}

/// The rectangle of a pane laid out in `area`: its own rectangle cut to the
/// area's size and moved to the area's place.
pub open spec fn area_of(r: Rect, area: Rect) -> Rect {
    let c = clipped(r, Rect { offset: (0, 0), size: area.size });
    Rect { offset: ((c.offset.0 + area.offset.0) as u16, (c.offset.1 + area.offset.1) as u16), size: c.size }
}

/// The whole terminal.
pub open spec fn screen(size: (u16, u16)) -> Rect {
    Rect { offset: (0, 0), size }
}

/// Where a floating window stands: the rectangle its plugin asked for, cut to
/// the terminal.
pub open spec fn float_area(size: (u16, u16), r: Rect) -> Rect {
    clipped(r, screen(size))
}

/// The panes of a layout drawn in `area`, each pane's commands clipped to its
/// rectangle; only the focused pane keeps its cursor.
pub open spec fn panes_drawn(
    rects: Seq<(PaneId, Rect)>,
    panes: Seq<(PaneId, Vec<DrawCommand>)>,
    area: Rect,
    focus: PaneId,
) -> Seq<CommandModel>
    decreases rects.len(),
{
    if rects.len() == 0 || panes.len() == 0 {
        Seq::empty()
    } else {
        panes_drawn(rects.drop_last(), panes.drop_last(), area, focus) + clip_all(
            views(panes.last().1@),
            area_of(rects.last().1, area),
            rects.last().0 == focus,
        )
    }
}

/// A layout drawn in `area`: its background, then its panes.
pub open spec fn layout_drawn(
    l: ResolvedLayout,
    panes: Seq<(PaneId, Vec<DrawCommand>)>,
    area: Rect,
    focus: PaneId,
) -> Seq<CommandModel> {
    clip_all(views(l.back_draw_commands@), area, false) + panes_drawn(l.pane_rects@, panes, area, focus)
}

/// The floating windows drawn over the terminal, one after the other.
pub open spec fn floats_drawn(
    size: (u16, u16),
    floats: Seq<(Rect, ResolvedLayout, Vec<(PaneId, Vec<DrawCommand>)>)>,
    focus: PaneId,
) -> Seq<CommandModel>
    decreases floats.len(),
{
    if floats.len() == 0 {
        Seq::empty()
    } else {
        let f = floats.last();
        floats_drawn(size, floats.drop_last(), focus) + layout_drawn(f.1, f.2@, float_area(size, f.0), focus)
    }
}

/// A frame: the main window's layout over the whole terminal, then every
/// floating window in order.
pub open spec fn frame_model(
    size: (u16, u16),
    main: ResolvedLayout,
    main_panes: Seq<(PaneId, Vec<DrawCommand>)>,
    floats: Seq<(Rect, ResolvedLayout, Vec<(PaneId, Vec<DrawCommand>)>)>,
    focus: PaneId,
) -> Seq<CommandModel> {
    layout_drawn(main, main_panes, screen(size), focus) + floats_drawn(size, floats, focus)
}

/// The rendered panes go with the layout's pane rectangles one for one, and
/// every command can be clipped to its rectangle.
pub open spec fn layout_ok(
    l: ResolvedLayout,
    panes: Seq<(PaneId, Vec<DrawCommand>)>,
    area: Rect,
    focus: PaneId,
) -> bool {
    &&& panes.len() == l.pane_rects@.len()
    &&& forall|i: int| 0 <= i < panes.len() ==> (#[trigger] panes[i]).0 == l.pane_rects@[i].0
    &&& forall|j: int|
        0 <= j < l.back_draw_commands@.len() ==> clip_ok(#[trigger] l.back_draw_commands@[j]@, area, false)
    &&& forall|i: int, j: int|
        0 <= i < panes.len() && 0 <= j < panes[i].1@.len() ==> clip_ok(
            #[trigger] panes[i].1@[j]@,
            area_of(l.pane_rects@[i].1, area),
            l.pane_rects@[i].0 == focus,
        )
}

/// What composing a frame needs: `layout_ok` for the main window over the
/// terminal and for each floating window in its place.
pub open spec fn frame_ok(
    size: (u16, u16),
    main: ResolvedLayout,
    main_panes: Seq<(PaneId, Vec<DrawCommand>)>,
    floats: Seq<(Rect, ResolvedLayout, Vec<(PaneId, Vec<DrawCommand>)>)>,
    focus: PaneId,
) -> bool {
    &&& layout_ok(main, main_panes, screen(size), focus)
    &&& forall|k: int|
        0 <= k < floats.len() ==> layout_ok(
            (#[trigger] floats[k]).1,
            floats[k].2@,
            float_area(size, floats[k].0),
            focus,
        )
}

proof fn lemma_views_append(a: Seq<DrawCommand>, b: Seq<DrawCommand>)
    ensures
        views(a + b) == views(a) + views(b),
{
    assert(views(a + b) =~= views(a) + views(b));
}

/// The area's rectangle for a pane, computed as the frame does.
fn pane_rect(r: Rect, area: Rect) -> (out: Rect)
    requires
        area.offset.0 + area.size.0 <= u16::MAX,
        area.offset.1 + area.size.1 <= u16::MAX,
    ensures
        out == area_of(r, area),
{
    let mut c = r;
    c.clip(Rect { offset: (0, 0), size: area.size });
    c.apply_offset(area.offset);
    c
}

/// Draws the panes of a layout in `area`, in the layout's order.
fn draw_panes(
    out: &mut Vec<DrawCommand>,
    rects: &Vec<(PaneId, Rect)>,
    panes: Vec<(PaneId, Vec<DrawCommand>)>,
    area: Rect,
    focus: PaneId,
)
    requires
        area.offset.0 + area.size.0 <= u16::MAX,
        area.offset.1 + area.size.1 <= u16::MAX,
        panes@.len() == rects@.len(),
        forall|i: int, j: int|
            0 <= i < panes@.len() && 0 <= j < panes@[i].1@.len() ==> clip_ok(
                #[trigger] panes@[i].1@[j]@,
                area_of(rects@[i].1, area),
                rects@[i].0 == focus,
            ),
    ensures
        views(final(out)@) == views(old(out)@) + panes_drawn(rects@, panes@, area, focus),
{
    let ghost all = panes@;
    let ghost start = views(out@);
    let mut rest = panes;
    let mut i: usize = 0;
    while i < rects.len()
        invariant
            i <= rects@.len(),
            all.len() == rects@.len(),
            rest@ == all.skip(i as int),
            area.offset.0 + area.size.0 <= u16::MAX,
            area.offset.1 + area.size.1 <= u16::MAX,
            forall|a: int, j: int|
                0 <= a < all.len() && 0 <= j < all[a].1@.len() ==> clip_ok(
                    #[trigger] all[a].1@[j]@,
                    area_of(rects@[a].1, area),
                    rects@[a].0 == focus,
                ),
            views(out@) == start + panes_drawn(rects@.take(i as int), all.take(i as int), area, focus),
        decreases rects@.len() - i,
    {
        let (id, cmds) = rest.remove(0);
        assert(all[i as int] == (id, cmds));
        let r = pane_rect(rects[i].1, area);
        let mut drawn = translate_and_clip(cmds, r, rects[i].0 == focus);
        let ghost before = out@;
        let ghost d = drawn@;
        assert(views(d) =~= clip_all(views(all[i as int].1@), r, rects@[i as int].0 == focus));
        out.append(&mut drawn);
        proof {
            lemma_views_append(before, d);
            assert(rects@.take(i + 1).drop_last() =~= rects@.take(i as int));
            assert(all.take(i + 1).drop_last() =~= all.take(i as int));
            assert(all.skip(i + 1) =~= all.skip(i as int).remove(0));
        }
        i = i + 1;
    }
    assert(rects@.take(i as int) =~= rects@);
    assert(all.take(i as int) =~= all);
}

/// Draws a resolved layout in `area`: its background, then its panes.
fn draw_layout(
    out: &mut Vec<DrawCommand>,
    l: ResolvedLayout,
    panes: Vec<(PaneId, Vec<DrawCommand>)>,
    area: Rect,
    focus: PaneId,
)
    requires
        area.offset.0 + area.size.0 <= u16::MAX,
        area.offset.1 + area.size.1 <= u16::MAX,
        layout_ok(l, panes@, area, focus),
    ensures
        views(final(out)@) == views(old(out)@) + layout_drawn(l, panes@, area, focus),
{
    let ghost l0 = l;
    let ResolvedLayout { pane_rects, back_draw_commands } = l;
    let mut back = translate_and_clip(back_draw_commands, area, false);
    let ghost before = out@;
    let ghost b = back@;
    assert(views(b) =~= clip_all(views(l0.back_draw_commands@), area, false));
    out.append(&mut back);
    proof {
        lemma_views_append(before, b);
    }
    draw_panes(out, &pane_rects, panes, area, focus);
}

/// Composes a frame from the main window's resolved layout and its rendered
/// panes, and each floating window's requested rectangle, resolved layout and
/// rendered panes: every pane's commands are clipped to its rectangle, and only
/// the focused pane keeps its cursor.
pub fn compose_frame(
    size: (u16, u16),
    main: ResolvedLayout,
    main_panes: Vec<(PaneId, Vec<DrawCommand>)>,
    floats: Vec<(Rect, ResolvedLayout, Vec<(PaneId, Vec<DrawCommand>)>)>,
    focus: PaneId,
) -> (r: Vec<DrawCommand>)
    requires
        frame_ok(size, main, main_panes@, floats@, focus),
    ensures
        views(r@) == frame_model(size, main, main_panes@, floats@, focus),
{
    let mut out: Vec<DrawCommand> = Vec::new();
    let whole = Rect { offset: (0, 0), size };
    assert(views(out@) =~= Seq::<CommandModel>::empty());
    draw_layout(&mut out, main, main_panes, whole, focus);
    let ghost all = floats@;
    let ghost start = views(out@);
    let mut rest = floats;
    let mut k: usize = 0;
    let n = rest.len();
    while k < n
        invariant
            k <= n,
            n == all.len(),
            whole == screen(size),
            rest@ == all.skip(k as int),
            forall|a: int|
                0 <= a < all.len() ==> layout_ok(
                    (#[trigger] all[a]).1,
                    all[a].2@,
                    float_area(size, all[a].0),
                    focus,
                ),
            views(out@) == start + floats_drawn(size, all.take(k as int), focus),
        decreases n - k,
    {
        let (rect, l, panes) = rest.remove(0);
        assert(all[k as int] == (rect, l, panes));
        let mut area = rect;
        area.clip(whole);
        proof {
            assert(area == float_area(size, rect));
            assert(all.take(k + 1).last() == all[k as int]);
            assert(layout_ok(all[k as int].1, all[k as int].2@, float_area(size, all[k as int].0), focus));
            assert(all.take(k + 1).drop_last() =~= all.take(k as int));
            assert(all.skip(k + 1) =~= all.skip(k as int).remove(0));
        }
        draw_layout(&mut out, l, panes, area, focus);
        k = k + 1;
    }
    assert(all.take(k as int) =~= all);
    out
}

/// Whether `layout_ok` holds.
fn layout_check(l: &ResolvedLayout, panes: &Vec<(PaneId, Vec<DrawCommand>)>, area: Rect, focus: PaneId) -> (b: bool)
    requires
        area.offset.0 + area.size.0 <= u16::MAX,
        area.offset.1 + area.size.1 <= u16::MAX,
    ensures
        b == layout_ok(*l, panes@, area, focus),
{
    if panes.len() != l.pane_rects.len() {
        return false;
    }
    let mut j: usize = 0;
    while j < l.back_draw_commands.len()
        invariant
            j <= l.back_draw_commands@.len(),
            forall|k: int| 0 <= k < j ==> clip_ok(#[trigger] l.back_draw_commands@[k]@, area, false),
        decreases l.back_draw_commands@.len() - j,
    {
        if !clip_ok_check(&l.back_draw_commands[j], area, false) {
            return false;
        }
        j = j + 1;
    }
    let mut i: usize = 0;
    while i < panes.len()
        invariant
            i <= panes@.len(),
            panes@.len() == l.pane_rects@.len(),
            area.offset.0 + area.size.0 <= u16::MAX,
            area.offset.1 + area.size.1 <= u16::MAX,
            forall|k: int| 0 <= k < i ==> (#[trigger] panes@[k]).0 == l.pane_rects@[k].0,
            forall|a: int, k: int|
                0 <= a < i && 0 <= k < panes@[a].1@.len() ==> clip_ok(
                    #[trigger] panes@[a].1@[k]@,
                    area_of(l.pane_rects@[a].1, area),
                    l.pane_rects@[a].0 == focus,
                ),
        decreases panes@.len() - i,
    {
        if panes[i].0 != l.pane_rects[i].0 {
            return false;
        }
        let r = pane_rect(l.pane_rects[i].1, area);
        let focused = l.pane_rects[i].0 == focus;
        let cmds = &panes[i].1;
        let mut k: usize = 0;
        while k < cmds.len()
            invariant
                i < panes@.len(),
                panes@.len() == l.pane_rects@.len(),
                r == area_of(l.pane_rects@[i as int].1, area),
                focused == (l.pane_rects@[i as int].0 == focus),
                cmds@ == panes@[i as int].1@,
                k <= cmds@.len(),
                forall|m: int| 0 <= m < k ==> clip_ok(#[trigger] cmds@[m]@, r, focused),
            decreases cmds@.len() - k,
        {
            if !clip_ok_check(&cmds[k], r, focused) {
                assert(!clip_ok(panes@[i as int].1@[k as int]@, area_of(l.pane_rects@[i as int].1, area), l.pane_rects@[i as int].0 == focus));
                return false;
            }
            k = k + 1;
        }
        i = i + 1;
    }
    true
}

/// `compose_frame` where every command can be clipped to its rectangle and
/// the rendered panes go with their layouts' rectangles (see `frame_ok`),
/// and `None` where not.
pub fn compose_frame_checked(
    size: (u16, u16),
    main: ResolvedLayout,
    main_panes: Vec<(PaneId, Vec<DrawCommand>)>,
    floats: Vec<(Rect, ResolvedLayout, Vec<(PaneId, Vec<DrawCommand>)>)>,
    focus: PaneId,
) -> (r: Option<Vec<DrawCommand>>)
    ensures
        r is Some <==> frame_ok(size, main, main_panes@, floats@, focus),
        r matches Some(v) ==> views(v@) == frame_model(size, main, main_panes@, floats@, focus),
{
    let whole = Rect { offset: (0, 0), size };
    if !layout_check(&main, &main_panes, whole, focus) {
        return None;
    }
    let mut k: usize = 0;
    while k < floats.len()
        invariant
            k <= floats@.len(),
            whole == screen(size),
            forall|a: int|
                0 <= a < k ==> layout_ok((#[trigger] floats@[a]).1, floats@[a].2@, float_area(size, floats@[a].0), focus),
        decreases floats@.len() - k,
    {
        let mut area = floats[k].0;
        area.clip(whole);
        assert(area == float_area(size, floats@[k as int].0));
        if !layout_check(&floats[k].1, &floats[k].2, area, focus) {
            return None;
        }
        k = k + 1;
    }
    Some(compose_frame(size, main, main_panes, floats, focus))
}

} // verus!
