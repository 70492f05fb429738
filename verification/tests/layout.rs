use waku::layout::{
    anchored_end_space, begin_panel_resize, disclosure_leading_space, finish_panel_resize, maintain_transcript_anchor,
    navigation_rail_fade_visibility, navigation_rail_height, navigation_rail_scale,
    pin_for_disclosure, remeasure_tail, remeasure_window, resize_panel_mouse_move,
    should_show_navigation_rail, should_show_scroll_to_bottom, sync_rows,
    sync_transcript_layout_width, transcript_anchor_end_space, transcript_rests_at_tail,
    update_transcript_anchor_end_space, AnchorState,
    DisclosurePin, Length, ListOffset, ListSync, Panel, PanelLimits, PanelResizeDrag, PanelResizeTarget, RowRange,
    NAVIGATION_RAIL_TURN_HEIGHT, PIXEL,
};

fn px(pixels: f32) -> Length {
    (pixels * PIXEL as f32) as Length
}

#[test]
fn conversation_navigation_rail_visibility_uses_all_three_gates() {
    let shown = |scrollable, turns, width| {
        should_show_navigation_rail(scrollable, turns, px(width), px(768.0), px(52.0))
    };
    assert!(shown(true, 2, 872.0));
    assert!(!shown(false, 2, 872.0));
    assert!(!shown(true, 1, 872.0));
    assert!(!shown(true, 2, 871.0));
}

#[test]
fn conversation_navigation_rail_height_caps_at_eighty_percent() {
    assert_eq!(navigation_rail_height(10, px(600.0)), px(120.0));
    // Every turn keeps its full 12px scroll position; only the viewport is
    // capped, so the remaining turns are reached by scrolling the rail.
    assert_eq!(navigation_rail_height(100, px(600.0)), px(480.0));
    assert!(navigation_rail_height(100, px(600.0)) <= px(600.0 * 0.80));
    assert_eq!(NAVIGATION_RAIL_TURN_HEIGHT, px(12.0));
}

#[test]
fn conversation_navigation_rail_fades_point_toward_hidden_turns() {
    assert_eq!(
        navigation_rail_fade_visibility(px(0.0), px(120.0)),
        (false, true)
    );
    assert_eq!(
        navigation_rail_fade_visibility(px(-40.0), px(120.0)),
        (true, true)
    );
    assert_eq!(
        navigation_rail_fade_visibility(px(-120.0), px(120.0)),
        (true, false)
    );
    assert_eq!(
        navigation_rail_fade_visibility(px(0.0), px(0.0)),
        (false, false)
    );
}

#[test]
fn conversation_navigation_tick_scale_follows_hover_falloff() {
    let scale = |turn, emphasized| navigation_rail_scale(turn, emphasized) as f32 / 100.0;
    assert_eq!(scale(0, None), 0.25);
    assert_eq!(scale(4, Some(4)), 1.0);
    assert_eq!(scale(3, Some(4)), 0.68);
    assert_eq!(scale(2, Some(4)), 0.44);
    assert_eq!(scale(1, Some(4)), 0.25);
}

#[test]
fn anchor_end_space_keeps_a_short_new_turn_at_the_viewport_top() {
    assert_eq!(
        transcript_anchor_end_space(px(700.0), px(180.0)),
        px(520.0)
    );
    assert_eq!(transcript_anchor_end_space(px(700.0), px(900.0)), px(0.0));
}

#[test]
fn scroll_to_bottom_only_appears_while_the_tail_is_below_the_viewport() {
    let viewport_bottom = px(700.0);

    assert_eq!(
        should_show_scroll_to_bottom(false, false, true, viewport_bottom, None, 0),
        Some(false)
    );
    assert_eq!(
        should_show_scroll_to_bottom(true, true, true, viewport_bottom, Some(px(900.0)), 0),
        Some(false)
    );
    // Disclosure pinning keeps `is_scrolled` true and a splice can leave the
    // tail temporarily unmeasured, but a collapsed transcript that fits the
    // viewport has nowhere to scroll back to.
    assert_eq!(
        should_show_scroll_to_bottom(true, false, false, viewport_bottom, None, 0),
        Some(false)
    );
    assert_eq!(
        should_show_scroll_to_bottom(true, false, true, viewport_bottom, Some(px(701.0)), 0),
        Some(true)
    );
    assert_eq!(
        should_show_scroll_to_bottom(
            true,
            false,
            true,
            viewport_bottom,
            Some(px(500.0)),
            px(200.0),
        ),
        Some(false)
    );
    // A stream commit remeasures the tail rows, so the frame after each one has
    // no bounds to read. Answering "show" there strobes the button against the
    // measured frames between commits; the caller holds its last answer instead.
    assert_eq!(
        should_show_scroll_to_bottom(true, false, true, viewport_bottom, None, 0),
        None
    );
}

#[test]
fn scrolling_back_onto_the_tail_is_told_apart_from_an_unmeasured_tail() {
    let viewport_bottom = px(700.0);

    // Landed on the tail: the reply's last row ends at the viewport bottom,
    // with or without the anchor's reserved end space below it.
    assert_eq!(
        transcript_rests_at_tail(viewport_bottom, Some(px(700.0)), 0),
        Some(true)
    );
    assert_eq!(
        transcript_rests_at_tail(viewport_bottom, Some(px(500.0)), px(200.0)),
        Some(true)
    );
    // Stopped short of it, so the stream must not reclaim the view.
    assert_eq!(
        transcript_rests_at_tail(viewport_bottom, Some(px(701.0)), 0),
        Some(false)
    );
    // Unmeasured this frame: unknown, not "stopped short" — concluding the
    // latter would drop the re-engage whenever a scroll settles on a commit.
    assert_eq!(transcript_rests_at_tail(viewport_bottom, None, 0), None);
}

#[test]
fn pending_expansion_reasserts_the_user_message_anchor() {
    let anchored = maintain_transcript_anchor(0, true, px(320.0)).expect("the anchor is held");
    assert_eq!(anchored.item_ix, 0);
    assert_eq!(anchored.offset_in_item, 0);
    assert!(maintain_transcript_anchor(0, true, 0).is_none());
    assert!(maintain_transcript_anchor(0, false, px(320.0)).is_none());
}

#[test]
fn an_anchor_keeps_the_room_below_it() {
    let held = AnchorState {
        end_space: px(100.0),
        following: true,
        is_scrolled: false,
    };
    let mut state = held;
    let target = update_transcript_anchor_end_space(&mut state, Some(3), 0, px(700.0), None);
    // A tail without bounds leaves the room as it was.
    assert_eq!(state.end_space, px(100.0));
    assert!(state.is_scrolled);
    assert_eq!(
        target,
        Some(ListOffset {
            item_ix: 3,
            offset_in_item: 0
        })
    );
    let mut state = held;
    update_transcript_anchor_end_space(&mut state, Some(3), 0, px(700.0), Some(px(200.0)));
    assert_eq!(state.end_space, px(500.0));
    let target =
        update_transcript_anchor_end_space(&mut state, Some(3), px(150.0), 0, Some(px(200.0)));
    assert_eq!(state.end_space, 0);
    assert_eq!(target, None);
    let target = update_transcript_anchor_end_space(&mut state, None, px(150.0), 0, None);
    assert_eq!(target, None);
    assert!(!state.following);
}

#[test]
fn a_disclosure_never_forces_a_scroll_it_cannot_measure() {
    // Unmeasured: no scroll at all.
    assert_eq!(disclosure_leading_space(px(718.0), None), None);

    // Short content sits at the bottom, with the remainder as leading space.
    assert_eq!(
        disclosure_leading_space(px(718.0), Some(px(200.0))),
        Some(px(518.0))
    );

    // Content taller than the viewport needs no leading space, and never a
    // negative one.
    assert_eq!(
        disclosure_leading_space(px(718.0), Some(px(5_000.0))),
        Some(0)
    );
}

#[test]
fn a_tail_that_is_pinned_becomes_an_explicit_position() {
    assert_eq!(
        pin_for_disclosure(3, 1, px(9.0), px(9.0), None),
        DisclosurePin::Keep
    );
    assert_eq!(
        pin_for_disclosure(3, 3, px(90.0), px(9.0), None),
        DisclosurePin::ResolveBottom { offset: px(-89.5) }
    );
    assert_eq!(
        pin_for_disclosure(3, 3, 0, px(90.0), Some(px(30.0))),
        DisclosurePin::LeadingSpace { space: px(60.0) }
    );
    assert_eq!(
        pin_for_disclosure(3, 3, 0, px(90.0), None),
        DisclosurePin::Keep
    );
    assert_eq!(
        pin_for_disclosure(0, 0, 0, px(90.0), None),
        DisclosurePin::Keep
    );
}

#[test]
fn an_unmeasured_tail_keeps_the_space_below_it() {
    assert_eq!(anchored_end_space(px(700.0), Some(px(180.0)), 5), px(520.0));
    assert_eq!(anchored_end_space(px(700.0), None, 5), 5);
}

#[test]
fn lists_follow_their_rows() {
    assert_eq!(sync_rows(3, 5), ListSync::Append { added: 2 });
    assert_eq!(sync_rows(5, 3), ListSync::Reset { count: 3 });
    assert_eq!(sync_rows(3, 3), ListSync::Unchanged);
    assert_eq!(remeasure_window(5, 20, 2), RowRange { from: 3, to: 8 });
    assert_eq!(remeasure_window(0, 20, 2), RowRange { from: 0, to: 3 });
    assert_eq!(remeasure_window(99, 20, 2), RowRange { from: 17, to: 20 });
    assert_eq!(remeasure_window(0, 0, 2), RowRange { from: 0, to: 0 });
    assert_eq!(remeasure_tail(20, 3), RowRange { from: 17, to: 20 });
    assert_eq!(remeasure_tail(2, 3), RowRange { from: 0, to: 2 });
}

#[test]
fn a_dragged_edge_stays_within_its_limits() {
    let limits = PanelLimits {
        minimum: px(180.0),
        maximum: px(420.0),
        beside: px(360.0),
    };
    let drag = PanelResizeDrag {
        target: PanelResizeTarget::Sidebar,
        start_mouse_x: px(200.0),
        start_width: px(200.0),
    };
    let moved = |x| resize_panel_mouse_move(drag, px(x), limits, px(980.0), px(200.0));
    assert_eq!(moved(250.0), Some(px(250.0)));
    assert_eq!(moved(200.25), None);
    assert_eq!(moved(0.0), Some(px(180.0)));
    assert_eq!(moved(900.0), Some(px(420.0)));
    // The other panels grow to the left.
    let right = PanelResizeDrag {
        target: PanelResizeTarget::RightPanel,
        ..drag
    };
    assert_eq!(
        resize_panel_mouse_move(right, px(150.0), limits, px(980.0), px(200.0)),
        Some(px(250.0))
    );
    // Where there is no room, the least width stands.
    assert_eq!(
        resize_panel_mouse_move(drag, px(250.0), limits, px(400.0), px(200.0)),
        Some(px(180.0))
    );
    assert!(finish_panel_resize(PanelResizeTarget::Sidebar));
    assert!(!finish_panel_resize(PanelResizeTarget::FileTree));
}

#[test]
fn a_width_that_hardly_moves_measures_nothing_again() {
    assert_eq!(
        sync_transcript_layout_width(px(1000.0), px(200.0), 0, px(768.0), 0),
        (px(760.0), true)
    );
    assert_eq!(
        sync_transcript_layout_width(px(1000.0), px(200.0), 0, px(768.0), px(760.5)),
        (px(760.0), false)
    );
    assert_eq!(
        sync_transcript_layout_width(px(2000.0), px(200.0), 0, px(768.0), px(700.0)),
        (px(768.0), true)
    );
    assert_eq!(
        sync_transcript_layout_width(px(10.0), px(200.0), 0, px(768.0), 0).0,
        px(1.0)
    );
}

#[test]
fn an_edge_is_taken_hold_of_where_it_is() {
    let begun = |target| begin_panel_resize(target, px(10.0), px(200.0), px(300.0), px(120.0));
    assert_eq!(begun(PanelResizeTarget::Sidebar).start_width, px(200.0));
    assert_eq!(begun(PanelResizeTarget::RightPanel).start_width, px(300.0));
    assert_eq!(begun(PanelResizeTarget::FileTree).start_width, px(120.0));
    let limits = PanelLimits {
        minimum: px(180.0),
        maximum: px(420.0),
        beside: px(380.0),
    };
    assert_eq!(
        resize_panel_mouse_move(
            begun(PanelResizeTarget::Sidebar),
            px(10.0),
            limits,
            px(980.0),
            px(200.0)
        ),
        None
    );
}

#[test]
fn a_panel_slides_from_where_it_is_seen() {
    let mut panel = Panel {
        visible: true,
        slide: None,
    };
    assert!(!panel.set_visible(true, px(200.0), false));
    assert_eq!(panel.slide, None);
    assert!(panel.set_visible(false, px(200.0), false));
    assert_eq!(panel.slide, Some(px(200.0)));
    assert!(panel.set_visible(true, px(80.0), true));
    assert!(panel.visible);
    assert_eq!(panel.slide, None);
}
