//! Where the transcript rests in its viewport. Lengths are whole numbers of
//! 64ths of a pixel.
use vstd::prelude::*;

verus! {

/// A length in 64ths of a pixel.
pub type Length = i64;

/// One pixel.
pub const PIXEL: Length = 64;

/// Half a pixel: the slack that a scroll position may have.
pub const HALF_PIXEL: Length = 32;

/// No length on a screen is larger than this.
pub const MAX_LENGTH: Length = 0x1_0000_0000_0000;

/// Whether a length is one that a screen can have.
pub open spec fn sane(length: Length) -> bool {
    -MAX_LENGTH <= length <= MAX_LENGTH
}

/// What is left of `space` after `used`, and nothing where `used` is larger.
pub open spec fn remaining(space: Length, used: Length) -> int {
    if space > used {
        space - used
    } else {
        0
    }
}

/// Leading space above a short, bottom-aligned transcript, or `None` while
/// the content's height is unknown.
pub fn disclosure_leading_space(viewport_height: Length, content_height: Option<Length>) -> (space:
    Option<Length>)
    requires
        sane(viewport_height),
        content_height matches Some(height) ==> sane(height),
    ensures
        match content_height {
            Some(height) => space matches Some(space) && space == remaining(viewport_height, height),
            None => space is None,
        },
{
    match content_height {
        Some(height) => Some(transcript_anchor_end_space(viewport_height, height)),
        None => None,
    }
}

/// The space that keeps a short new turn at the top of the viewport.
pub fn transcript_anchor_end_space(viewport_height: Length, anchored_tail_height: Length) -> (space:
    Length)
    requires
        sane(viewport_height),
        sane(anchored_tail_height),
    ensures
        space == remaining(viewport_height, anchored_tail_height),
{
    if viewport_height > anchored_tail_height {
        viewport_height - anchored_tail_height
    } else {
        0
    }
}

/// Whether the transcript sits at the end of its content, or `None` while the
/// last row is unmeasured.
pub open spec fn rests_at_tail(
    viewport_bottom: Length,
    tail_bottom: Option<Length>,
    end_space: Length,
) -> Option<bool> {
    match tail_bottom {
        Some(tail) => Some(tail + end_space <= viewport_bottom + HALF_PIXEL),
        None => None,
    }
}

/// Whether the transcript sits at the end of its content, or `None` while the
/// last row is unmeasured.
pub fn transcript_rests_at_tail(
    viewport_bottom: Length,
    tail_bottom: Option<Length>,
    end_space: Length,
) -> (rests: Option<bool>)
    requires
        sane(viewport_bottom),
        tail_bottom matches Some(tail) ==> sane(tail),
        sane(end_space),
    ensures
        rests == rests_at_tail(viewport_bottom, tail_bottom, end_space),
{
    match tail_bottom {
        Some(tail) => Some(tail + end_space <= viewport_bottom + HALF_PIXEL),
        None => None,
    }
}

/// Whether the transcript offers a way back to its tail, or `None` while the
/// tail's position is unknown.
pub fn should_show_scroll_to_bottom(
    is_scrolled: bool,
    anchor_following: bool,
    transcript_scrollable: bool,
    viewport_bottom: Length,
    tail_bottom: Option<Length>,
    end_space: Length,
) -> (show: Option<bool>)
    requires
        sane(viewport_bottom),
        tail_bottom matches Some(tail) ==> sane(tail),
        sane(end_space),
    ensures
        show == if !is_scrolled || anchor_following || !transcript_scrollable {
            Some(false)
        } else {
            match rests_at_tail(viewport_bottom, tail_bottom, end_space) {
                Some(rests) => Some(!rests),
                None => None,
            }
        },
{
    if !is_scrolled || anchor_following || !transcript_scrollable {
        return Some(false);
    }
    match transcript_rests_at_tail(viewport_bottom, tail_bottom, end_space) {
        Some(rests) => Some(!rests),
        None => None,
    }
}

/// A scroll position: a row, and how far it is scrolled past the top.
#[derive(Clone, Copy, Debug, PartialEq, Eq, Structural)]
pub struct ListOffset {
    pub item_ix: usize,
    pub offset_in_item: Length,
}

/// Where the list is scrolled to so that the turn's anchor holds: to the start
/// of the anchor's row, and only while it is being followed and end space is
/// reserved for it.
pub fn maintain_transcript_anchor(
    anchor_row: usize,
    anchor_following: bool,
    end_space: Length,
) -> (target: Option<ListOffset>)
    ensures
        target == if anchor_following && end_space > 0 {
            Some(ListOffset { item_ix: anchor_row, offset_in_item: 0 })
        } else {
            None
        },
{
    if anchor_following && end_space > 0 {
        Some(ListOffset { item_ix: anchor_row, offset_in_item: 0 })
    } else {
        None
    }
}

/// Which ends of the navigation rail hide turns: above, and below.
pub fn navigation_rail_fade_visibility(offset: Length, max_offset: Length) -> (fades: (bool, bool))
    requires
        sane(offset),
        sane(max_offset),
    ensures
        fades.0 == (-offset > HALF_PIXEL),
        fades.1 == (max_offset + offset > HALF_PIXEL),
{
    (-offset > HALF_PIXEL, max_offset + offset > HALF_PIXEL)
}

/// The height of one turn on the navigation rail.
pub const NAVIGATION_RAIL_TURN_HEIGHT: Length = 768;

/// The height of the rail: all of its turns, but no more than four fifths of
/// the viewport.
pub fn navigation_rail_height(turn_count: usize, viewport_height: Length) -> (height: Length)
    requires
        0 <= viewport_height <= MAX_LENGTH,
    ensures
        height == if turn_count * NAVIGATION_RAIL_TURN_HEIGHT < viewport_height * 4 / 5 {
            turn_count * NAVIGATION_RAIL_TURN_HEIGHT
        } else {
            viewport_height * 4 / 5
        },
{
    let most: Length = viewport_height * 4 / 5;
    if turn_count as u64 <= (most / NAVIGATION_RAIL_TURN_HEIGHT) as u64 {
        turn_count as Length * NAVIGATION_RAIL_TURN_HEIGHT
    } else {
        most
    }
}

/// How long a tick of the rail is, in hundredths of its full length: the
/// emphasised turn's is full, and its neighbours' fall off.
pub fn navigation_rail_scale(turn_index: usize, emphasized: Option<usize>) -> (percent: u32)
    ensures
        percent == match emphasized {
            None => 25u32,
            Some(emphasized) => {
                let distance = if turn_index < emphasized {
                    emphasized - turn_index
                } else {
                    turn_index - emphasized
                };
                if distance == 0 {
                    100
                } else if distance == 1 {
                    68
                } else if distance == 2 {
                    44
                } else {
                    25
                }
            },
        },
{
    match emphasized {
        None => 25,
        Some(emphasized) => {
            let distance: usize = if turn_index < emphasized {
                emphasized - turn_index
            } else {
                turn_index - emphasized
            };
            if distance == 0 {
                100
            } else if distance == 1 {
                68
            } else if distance == 2 {
                44
            } else {
                25
            }
        },
    }
}

/// The least room to the left of the conversation.
pub const CONTENT_LEAST_MARGIN: Length = 1_280;

/// Whether the navigation rail is shown: where there is something to scroll,
/// more than one turn, and `clearance` to the left of the conversation.
pub fn should_show_navigation_rail(
    transcript_scrollable: bool,
    turn_count: usize,
    viewport_width: Length,
    content_max_width: Length,
    clearance: Length,
) -> (show: bool)
    requires
        sane(viewport_width) && sane(content_max_width) && sane(clearance),
    ensures
        show == (transcript_scrollable && turn_count >= 2 && (viewport_width - content_max_width
            >= 2 * clearance || CONTENT_LEAST_MARGIN >= clearance)),
{
    transcript_scrollable && turn_count >= 2 && (viewport_width - content_max_width >= 2
        * clearance || CONTENT_LEAST_MARGIN >= clearance)
}

/// What an expanding disclosure does to the scroll position first.
#[derive(Clone, Copy, Debug, PartialEq, Eq, Structural)]
pub enum DisclosurePin {
    /// The position is already explicit.
    Keep,
    /// Resolve the row at this scroll offset, then move half a pixel further.
    ResolveBottom { offset: Length },
    /// Show the first row below this much leading space.
    LeadingSpace { space: Length },
}

/// How to turn a tail-pinned list into an explicit scroll position before a
/// disclosure changes the document's height.
pub fn pin_for_disclosure(
    row_count: usize,
    top_row: usize,
    max_offset: Length,
    viewport_height: Length,
    content_height: Option<Length>,
) -> (pin: DisclosurePin)
    requires
        sane(max_offset),
        sane(viewport_height),
        content_height matches Some(height) ==> sane(height),
    ensures
        pin == if top_row < row_count || row_count == 0 {
            DisclosurePin::Keep
        } else if max_offset > HALF_PIXEL {
            DisclosurePin::ResolveBottom { offset: (HALF_PIXEL - max_offset) as Length }
        } else if viewport_height > 0 {
            match content_height {
                Some(height) => DisclosurePin::LeadingSpace {
                    space: remaining(viewport_height, height) as Length,
                },
                None => DisclosurePin::Keep,
            }
        } else {
            DisclosurePin::Keep
        },
{
    if top_row < row_count || row_count == 0 {
        return DisclosurePin::Keep;
    }
    if max_offset > HALF_PIXEL {
        return DisclosurePin::ResolveBottom { offset: HALF_PIXEL - max_offset };
    }
    if viewport_height > 0 {
        if let Some(space) = disclosure_leading_space(viewport_height, content_height) {
            return DisclosurePin::LeadingSpace { space };
        }
    }
    DisclosurePin::Keep
}

/// The end space below an anchored turn: measured where the tail is measured,
/// else what it was before.
pub fn anchored_end_space(
    viewport_height: Length,
    anchored_tail_height: Option<Length>,
    previous: Length,
) -> (space: Length)
    requires
        sane(viewport_height),
        anchored_tail_height matches Some(height) ==> sane(height),
    ensures
        space == match anchored_tail_height {
            Some(height) => remaining(viewport_height, height),
            None => previous as int,
        },
{
    match anchored_tail_height {
        Some(height) => transcript_anchor_end_space(viewport_height, height),
        None => previous,
    }
}

/// How the transcript is held at a turn's prompt.
#[derive(Clone, Copy, Debug, PartialEq, Eq, Structural)]
pub struct AnchorState {
    /// The room kept below the last row.
    pub end_space: Length,
    /// Whether the anchor is held.
    pub following: bool,
    /// Whether the reader is off the tail.
    pub is_scrolled: bool,
}

/// Keep the room below an anchored turn, and hold the anchor. Without an
/// anchor there is neither. The viewport's height is the list's where it has
/// been measured, else the window's; a tail that has not been measured leaves
/// the room as it was. Where the list is scrolled to, if anywhere.
pub fn update_transcript_anchor_end_space(
    state: &mut AnchorState,
    anchor_row: Option<usize>,
    list_height: Length,
    window_height: Length,
    anchored_tail_height: Option<Length>,
) -> (target: Option<ListOffset>)
    requires
        sane(list_height) && sane(window_height),
        anchored_tail_height matches Some(height) ==> sane(height),
    ensures
        match anchor_row {
            None => {
                &&& target is None
                &&& *final(state) == (AnchorState { end_space: 0, following: false, ..*old(state) })
            },
            Some(row) => {
                let viewport = if list_height > 0 {
                    list_height
                } else {
                    window_height
                };
                let space = match anchored_tail_height {
                    Some(height) => remaining(viewport, height),
                    None => old(state).end_space as int,
                };
                let held = old(state).following && space > 0;
                &&& final(state).end_space == space
                &&& final(state).following == old(state).following
                &&& final(state).is_scrolled == (old(state).is_scrolled || held)
                &&& target == if held {
                    Some(ListOffset { item_ix: row, offset_in_item: 0 })
                } else {
                    None
                }
            },
        },
{
    match anchor_row {
        None => {
            state.end_space = 0;
            state.following = false;
            None
        },
        Some(row) => {
            let viewport: Length = if list_height > 0 {
                list_height
            } else {
                window_height
            };
            state.end_space = anchored_end_space(viewport, anchored_tail_height, state.end_space);
            let target = maintain_transcript_anchor(row, state.following, state.end_space);
            if target.is_some() {
                state.is_scrolled = true;
            }
            target
        },
    }
}

/// How the list on screen follows a new row count.
#[derive(Clone, Copy, Debug, PartialEq, Eq, Structural)]
pub enum ListSync {
    Unchanged,
    /// Add this many rows at the end.
    Append { added: usize },
    /// Start over with this many rows.
    Reset { count: usize },
}

/// Appends keep the reader's place; shrinking resets the view.
pub fn sync_rows(current: usize, count: usize) -> (sync: ListSync)
    ensures
        sync == if count > current {
            ListSync::Append { added: (count - current) as usize }
        } else if count < current {
            ListSync::Reset { count }
        } else {
            ListSync::Unchanged
        },
{
    if count > current {
        ListSync::Append { added: count - current }
    } else if count < current {
        ListSync::Reset { count }
    } else {
        ListSync::Unchanged
    }
}

/// The rows from `from` up to `to`.
#[derive(Clone, Copy, Debug, PartialEq, Eq, Structural)]
pub struct RowRange {
    pub from: usize,
    pub to: usize,
}

/// The rows around `anchor` that a change of width measures again: `margin`
/// rows to either side, cut off at the ends of the list.
pub fn remeasure_window(anchor: usize, count: usize, margin: usize) -> (range: RowRange)
    ensures
        count == 0 ==> range == (RowRange { from: 0, to: 0 }),
        count > 0 ==> {
            let anchor = if anchor < count {
                anchor as int
            } else {
                count - 1
            };
            &&& range.from == (if anchor > margin {
                anchor - margin
            } else {
                0
            })
            &&& range.to == (if anchor + margin + 1 < count {
                anchor + margin + 1
            } else {
                count as int
            })
            &&& range.from <= anchor < range.to <= count
        },
{
    if count == 0 {
        return RowRange { from: 0, to: 0 };
    }
    let anchor: usize = if anchor < count {
        anchor
    } else {
        count - 1
    };
    let from: usize = anchor.saturating_sub(margin);
    let to: usize = if margin < count - anchor - 1 {
        anchor + margin + 1
    } else {
        count
    };
    RowRange { from, to }
}

/// The last `tail` rows.
pub fn remeasure_tail(count: usize, tail: usize) -> (range: RowRange)
    ensures
        range.to == count,
        range.from == (if count > tail {
            count - tail
        } else {
            0
        }),
{
    RowRange { from: count.saturating_sub(tail), to: count }
}

// ── Panels ─────────────────────────────────────────────────────────────────

/// The panel whose edge is being dragged.
#[derive(Clone, Copy, Debug, PartialEq, Eq, Structural)]
pub enum PanelResizeTarget {
    Sidebar,
    RightPanel,
    FileTree,
}

/// How narrow and how wide a panel may be, and what has to be left beside it.
#[derive(Clone, Copy, Debug, PartialEq, Eq, Structural)]
pub struct PanelLimits {
    pub minimum: Length,
    pub maximum: Length,
    pub beside: Length,
}

impl PanelLimits {
    /// Whether the limits are ones that a screen can have.
    pub open spec fn wf(self) -> bool {
        0 <= self.minimum <= self.maximum <= MAX_LENGTH && 0 <= self.beside <= MAX_LENGTH
    }

    /// The widest that a panel may be in some room.
    pub open spec fn widest(self, room: Length) -> int {
        let capped = if self.maximum < room - self.beside {
            self.maximum as int
        } else {
            room - self.beside
        };
        if capped > self.minimum {
            capped
        } else {
            self.minimum as int
        }
    }

    /// The width that is asked for, kept within the limits.
    pub open spec fn fitted(self, room: Length, width: int) -> int {
        if width < self.minimum {
            self.minimum as int
        } else if width > self.widest(room) {
            self.widest(room)
        } else {
            width
        }
    }
}

/// An edge that is being dragged.
#[derive(Clone, Copy, Debug, PartialEq, Eq, Structural)]
pub struct PanelResizeDrag {
    pub target: PanelResizeTarget,
    pub start_mouse_x: Length,
    pub start_width: Length,
}

/// A drag of a panel's edge begins at the width that the panel is shown with.
pub fn begin_panel_resize(
    target: PanelResizeTarget,
    mouse_x: Length,
    sidebar_width: Length,
    right_panel_width: Length,
    file_tree_width: Length,
) -> (drag: PanelResizeDrag)
    ensures
        drag.target == target,
        drag.start_mouse_x == mouse_x,
        drag.start_width == match target {
            PanelResizeTarget::Sidebar => sidebar_width,
            PanelResizeTarget::RightPanel => right_panel_width,
            PanelResizeTarget::FileTree => file_tree_width,
        },
{
    let start_width: Length = match target {
        PanelResizeTarget::Sidebar => sidebar_width,
        PanelResizeTarget::RightPanel => right_panel_width,
        PanelResizeTarget::FileTree => file_tree_width,
    };
    PanelResizeDrag { target, start_mouse_x: mouse_x, start_width }
}

/// The width that a drag asks for: the sidebar grows to the right, the others
/// to the left.
pub open spec fn dragged_width(drag: PanelResizeDrag, mouse_x: Length) -> int {
    if drag.target == PanelResizeTarget::Sidebar {
        drag.start_width + (mouse_x - drag.start_mouse_x)
    } else {
        drag.start_width - (mouse_x - drag.start_mouse_x)
    }
}

/// The panel's width after the pointer has moved, where it changes by at least
/// half a pixel. `room` is the width that the panel shares with what has to be
/// left beside it.
pub fn resize_panel_mouse_move(
    drag: PanelResizeDrag,
    mouse_x: Length,
    limits: PanelLimits,
    room: Length,
    current: Length,
) -> (width: Option<Length>)
    requires
        limits.wf(),
        sane(drag.start_mouse_x) && sane(drag.start_width) && sane(mouse_x),
        sane(room) && sane(current),
    ensures
        ({
            let fitted = limits.fitted(room, dragged_width(drag, mouse_x));
            if -HALF_PIXEL < current - fitted < HALF_PIXEL {
                width is None
            } else {
                width matches Some(width) && width == fitted
            }
        }),
{
    let delta: Length = mouse_x - drag.start_mouse_x;
    let asked: Length = match drag.target {
        PanelResizeTarget::Sidebar => drag.start_width + delta,
        PanelResizeTarget::RightPanel => drag.start_width - delta,
        PanelResizeTarget::FileTree => drag.start_width - delta,
    };
    let left: Length = room - limits.beside;
    let capped: Length = if limits.maximum < left {
        limits.maximum
    } else {
        left
    };
    let widest: Length = if capped > limits.minimum {
        capped
    } else {
        limits.minimum
    };
    let fitted: Length = if asked < limits.minimum {
        limits.minimum
    } else if asked > widest {
        widest
    } else {
        asked
    };
    let change: Length = current - fitted;
    if -HALF_PIXEL < change && change < HALF_PIXEL {
        None
    } else {
        Some(fitted)
    }
}

/// However far an edge is dragged, the panel stays within its limits.
pub proof fn a_dragged_panel_stays_within_its_limits(
    drag: PanelResizeDrag,
    mouse_x: Length,
    limits: PanelLimits,
    room: Length,
)
    requires
        limits.wf(),
    ensures
        limits.minimum <= limits.fitted(room, dragged_width(drag, mouse_x)) <= limits.maximum,
{
}

/// An edge that has been taken hold of and not moved changes nothing: a panel
/// within its limits keeps its width.
pub proof fn an_unmoved_edge_keeps_the_width(
    drag: PanelResizeDrag,
    limits: PanelLimits,
    room: Length,
)
    requires
        limits.wf(),
        limits.minimum <= drag.start_width <= limits.widest(room),
    ensures
        limits.fitted(room, dragged_width(drag, drag.start_mouse_x)) == drag.start_width,
{
}

/// Whether the layout is saved when an edge is let go: the file tree's width
/// is not kept.
pub fn finish_panel_resize(target: PanelResizeTarget) -> (save: bool)
    ensures
        save == (target != PanelResizeTarget::FileTree),
{
    match target {
        PanelResizeTarget::FileTree => false,
        _ => true,
    }
}

/// A panel that can be hidden.
#[derive(Clone, Copy, Debug, PartialEq, Eq, Structural)]
pub struct Panel {
    pub visible: bool,
    /// The width that it is sliding from.
    pub slide: Option<Length>,
}

impl Panel {
    /// The panel shown or hidden: it slides from the width it is seen with,
    /// unless motion is to be reduced.
    pub open spec fn shown(self, visible: bool, seen: Length, reduce_motion: bool) -> Panel {
        if self.visible == visible {
            self
        } else {
            Panel {
                visible,
                slide: if reduce_motion {
                    None
                } else {
                    Some(seen)
                },
            }
        }
    }

    /// Show or hide the panel; whether that is a change, which is saved.
    pub fn set_visible(&mut self, visible: bool, seen: Length, reduce_motion: bool) -> (changed:
        bool)
        ensures
            changed == (old(self).visible != visible),
            *final(self) == old(self).shown(visible, seen, reduce_motion),
    {
        if self.visible == visible {
            return false;
        }
        self.visible = visible;
        self.slide = if reduce_motion {
            None
        } else {
            Some(seen)
        };
        true
    }
}

/// What the transcript leaves free around itself.
pub const TRANSCRIPT_MARGIN: Length = 2_560;

/// The transcript's width, and whether it has moved far enough for what is
/// visible to be measured again.
pub fn sync_transcript_layout_width(
    viewport_width: Length,
    sidebar_width: Length,
    right_panel_width: Length,
    maximum: Length,
    previous: Length,
) -> (result: (Length, bool))
    requires
        sane(viewport_width) && sane(sidebar_width) && sane(right_panel_width),
        sane(previous),
        PIXEL <= maximum <= MAX_LENGTH,
    ensures
        ({
            let free = viewport_width - sidebar_width - right_panel_width - TRANSCRIPT_MARGIN;
            let width = if free < PIXEL {
                PIXEL as int
            } else if free > maximum {
                maximum as int
            } else {
                free
            };
            &&& result.0 == width
            &&& result.1 == !(previous > 0 && -PIXEL < previous - width < PIXEL)
        }),
{
    let free: Length = viewport_width - sidebar_width - right_panel_width - TRANSCRIPT_MARGIN;
    let width: Length = if free < PIXEL {
        PIXEL
    } else if free > maximum {
        maximum
    } else {
        free
    };
    let change: Length = previous - width;
    (width, !(previous > 0 && -PIXEL < change && change < PIXEL))
}

} // verus!
