use wdm::comp::{
    draw_order, layer_slot_free, must_readvertise, must_ungrab, on_commit, order_by_rank,
    unconstrain_rect, Commit, Connected, Cursor, Drawn, Rect, Screen, MAX_LAYER_SURFACES,
};
use wdm::config::{Config, Output, Transform};

fn connected(id: u64, name: &str) -> Connected {
    Connected {
        id,
        name: name.to_owned(),
    }
}

fn names(list: &[&str]) -> Vec<String> {
    list.iter().map(|s| s.to_string()).collect()
}

/// A configuration that ranks these connectors in this order.
fn ranking(list: &[&str]) -> Config {
    let mut config = Config::default();
    for name in list {
        config.output.push(Output {
            connector: name.to_string(),
            mode: None,
            scale: None,
            transform: Transform::Normal,
            enable: true,
        });
    }
    config
}

#[test]
fn forgetting_the_greeter_drops_its_cursor_and_its_focus() {
    let mut screen = Screen::new();
    assert!(screen.new_layer_surface(1, None));
    assert_eq!(screen.focus, Some(1));

    screen.cursor_image(Cursor::Hidden);
    screen.forget_greeter();

    assert_eq!(screen.cursor, Cursor::Arrow, "the greeter's cursor survived it");
    assert!(screen.layers.is_empty());
    assert_eq!(
        screen.focus, None,
        "keyboard focus survived the surface it was on"
    );
}

#[test]
fn the_seventeenth_layer_surface_is_the_one_refused() {
    assert!(layer_slot_free(0), "a greeter with nothing was refused");
    assert!(layer_slot_free(MAX_LAYER_SURFACES - 1), "the last slot");
    assert!(
        !layer_slot_free(MAX_LAYER_SURFACES),
        "a seventeenth surface was allowed"
    );
    assert!(!layer_slot_free(MAX_LAYER_SURFACES + 1));
    assert!(!layer_slot_free(usize::MAX));

    let mut screen = Screen::new();
    for surface in 0..16 {
        assert!(screen.new_layer_surface(surface, None));
    }
    assert!(!screen.new_layer_surface(16, None));
    assert_eq!(screen.layers.len(), 16);
}

#[test]
fn forgetting_the_greeter_is_idempotent() {
    let mut screen = Screen::new();
    screen.forget_greeter();
    screen.forget_greeter();
    assert_eq!(screen.cursor, Cursor::Arrow);
    assert!(screen.layers.is_empty());
}

#[test]
fn rank_order_is_applied_to_the_outputs() {
    let found = vec![connected(2, "DP-2"), connected(1, "DP-1")];
    assert_eq!(order_by_rank(&names(&["DP-1", "DP-2"]), &found), [1, 2]);
}

#[test]
fn a_ranked_name_with_no_output_is_dropped() {
    let found = vec![connected(1, "DP-1")];
    assert_eq!(order_by_rank(&names(&["HDMI-A-1", "DP-1"]), &found), [1]);
}

#[test]
fn duplicate_names_resolve_to_the_first_output() {
    let found = vec![connected(1, "DP-1"), connected(2, "DP-1")];
    assert_eq!(order_by_rank(&names(&["DP-1"]), &found), [1]);
}

#[test]
fn a_popup_on_the_layer_surface_is_unconstrained_against_the_whole_output() {
    let target = unconstrain_rect((1920, 1080), (0, 0));
    assert_eq!(
        target,
        Rect {
            x: 0,
            y: 0,
            width: 1920,
            height: 1080
        }
    );
}

#[test]
fn a_nested_popup_shifts_the_output_back_by_its_parent_offset() {
    let target = unconstrain_rect((1920, 1080), (200, 300));
    assert_eq!((target.x, target.y), (-200, -300));
    assert_eq!((target.width, target.height), (1920, 1080));
    assert_eq!(target.y + target.height, 780);
}

#[test]
fn unplugging_the_primary_output_moves_the_form_and_the_keyboard() {
    let config = ranking(&["DP-1", "DP-2"]);
    let mut screen = Screen::new();
    let ranked = screen.set_outputs(&vec![connected(2, "DP-2"), connected(1, "DP-1")], &config);
    assert_eq!(ranked, ["DP-1", "DP-2"]);
    assert_eq!(screen.primary_output(), Some(1));

    // The background is on the second output, the form on the primary one.
    assert!(screen.new_layer_surface(10, Some(2)));
    assert!(screen.new_layer_surface(11, None));
    assert_eq!(screen.output_of(11), Some(1));
    assert_eq!(screen.focus, Some(11));
    assert_eq!(screen.layers_on(2), [10]);

    screen.set_outputs(&vec![connected(2, "DP-2")], &config);
    assert_eq!(screen.primary_output(), Some(2));
    assert_eq!(screen.output_of(11), Some(2));
    assert_eq!(screen.layers_on(2), [10, 11]);
    assert_eq!(screen.focus, screen.focus_under());

    screen.layer_destroyed(10);
    assert_eq!(screen.focus, Some(11));
    screen.layer_destroyed(11);
    assert_eq!(screen.focus, None);
}

#[test]
fn surfaces_survive_having_no_output() {
    let config = Config::default();
    let mut screen = Screen::new();
    screen.set_outputs(&vec![connected(1, "A")], &config);
    assert!(screen.new_layer_surface(10, Some(1)));
    screen.set_outputs(&vec![], &config);
    assert_eq!(screen.output_of(10), None);
    assert_eq!(screen.focus, Some(10));
    screen.set_outputs(&vec![connected(3, "B")], &config);
    assert_eq!(screen.output_of(10), Some(3));
}

#[test]
fn the_pointer_is_on_the_primary_output() {
    let mut screen = Screen::new();
    screen.set_outputs(&vec![connected(1, "A"), connected(2, "B")], &Config::default());
    screen.cursor_image(Cursor::Surface(7));
    assert_eq!(screen.pointer_on(1), Cursor::Surface(7));
    assert_eq!(screen.pointer_on(2), Cursor::Hidden);
}

#[test]
fn a_popup_is_on_the_output_of_its_root() {
    let mut screen = Screen::new();
    screen.set_outputs(&vec![connected(1, "A"), connected(2, "B")], &Config::default());
    assert!(screen.new_layer_surface(10, Some(2)));
    assert_eq!(screen.popup_output(Some(10)), Some(2));
    assert_eq!(screen.popup_output(Some(99)), Some(1));
    assert_eq!(screen.popup_output(None), Some(1));
}

#[test]
fn the_first_commit_is_configured_and_no_other() {
    let plan = on_commit(Commit {
        popup: Some(false),
        layer: None,
    });
    assert!(plan.configure_popup && !plan.configure_layer);
    let plan = on_commit(Commit {
        popup: None,
        layer: Some(false),
    });
    assert!(!plan.configure_popup && plan.configure_layer);
    let plan = on_commit(Commit {
        popup: Some(true),
        layer: Some(true),
    });
    assert!(!plan.configure_popup && !plan.configure_layer);
}

#[test]
fn a_foreign_grab_is_given_up() {
    assert!(must_ungrab(true, false, false));
    assert!(!must_ungrab(true, true, false));
    assert!(!must_ungrab(true, false, true));
    assert!(!must_ungrab(false, false, false));
}

#[test]
fn formats_are_advertised_anew_when_they_change() {
    assert!(!must_readvertise(&vec![(1, 2)], &vec![(1, 2)]));
    assert!(must_readvertise(&vec![(1, 2)], &vec![(1, 3)]));
    assert!(must_readvertise(&vec![(1, 2)], &vec![]));
}

#[test]
fn the_pointer_is_on_top_and_popups_are_above_their_layer() {
    assert_eq!(draw_order(&vec![], &vec![]), vec![Drawn::Pointer]);
    assert_eq!(
        draw_order(&vec![7, 9], &vec![2, 0]),
        vec![
            Drawn::Pointer,
            Drawn::Popup { layer: 7, index: 0 },
            Drawn::Popup { layer: 7, index: 1 },
            Drawn::Layer(7),
            Drawn::Layer(9),
        ]
    );
}
