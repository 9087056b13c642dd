use dbar::app::autohide::Autohide;
use dbar::app::click::{control, tell_tray, Deed, Move, Showing, TrayItem, Word};
use dbar::app::gesture::{gesture, i3bar_button, notches, ActionTarget, Area, ClickTarget, Frame};
use dbar::app::gesture::{Gesture, PlacedGroup, PlacedModule, SCROLL_DOWN, SCROLL_UP};
use dbar::app::menu::{menu_constraints, menu_facing, pointed_submenu, submenu_is_current};
use dbar::app::menu::{submenu_leave_needs_grace, Corner, Hook, Menus, Pointed, Row};
use dbar::app::provider::{Provided, StatusEvent};
use dbar::app::screen::{damaged, Bar, Bars, NameTrouble, Notices, Screen};
use dbar::app::scroll::{steps_of, AxisScroll, STEP};
use dbar::app::spin::{Spinner, SPIN_AFTER, SPIN_STEP};
use dbar::app::travel::{Folds, Travel, Travels};
use dbar::collect::media;
use dbar::collect::which::Which;
use dbar::color::Color;
use dbar::config::button::{Button, ClickActions};
use dbar::config::raw::Edge;
use dbar::number::{Number, WHOLE};
use dbar::status::Control;
use dbar::time::{Duration, Instant};

fn n(v: f64) -> Number {
    Number { bits: v.to_bits() }
}

fn area(x: f64, y: f64, width: f64, height: f64) -> Area {
    Area {
        left: n(x),
        top: n(y),
        right: n(x + width),
        bottom: n(y + height),
    }
}

const NOW: Instant = Instant {
    nanos: 50_000_000_000,
};

fn after(then: Instant, wait: Duration) -> Instant {
    Instant {
        nanos: then.nanos + wait.nanos,
    }
}

fn half(d: Duration) -> Duration {
    Duration { nanos: d.nanos / 2 }
}

// --- gestures -----------------------------------------------------------------------------

/// A placed module with nothing on it, for saying what one gesture key does without describing
/// a whole bar.
fn placed() -> PlacedModule {
    PlacedModule {
        area: area(0.0, 0.0, 10.0, 10.0),
        action: None,
        name: Some("weather".to_string()),
        alt: None,
        alt_button: Button::Left,
        refresh: None,
        mute: None,
        paged: None,
        collapsible: false,
        collapse_button: Button::Right,
        on_click: None,
    }
}

fn a_notch_turns_a_page() {
    let module = PlacedModule {
        paged: Some(3),
        refresh: Some(Button::Left),
        ..placed()
    };
    assert_eq!(
        gesture(&module, SCROLL_DOWN),
        Gesture::Page {
            count: 3,
            forward: true
        }
    );
    assert_eq!(
        gesture(&module, SCROLL_UP),
        Gesture::Page {
            count: 3,
            forward: false
        }
    );
    assert_eq!(gesture(&module, Button::Left.number()), Gesture::Refresh);
}

/// The wheel turns pages on a module that has them. It used to be answered by whatever the
/// module's buttons did, because a notch has no button to compare.
#[test]
fn app_a_notch_turns_a_page_and_says_which_way() {
    a_notch_turns_a_page();
}

#[test]
fn tests_a_notch_turns_a_page_and_says_which_way() {
    a_notch_turns_a_page();
}

fn a_notch_is_left_alone() {
    let module = PlacedModule {
        refresh: Some(Button::Left),
        ..placed()
    };
    assert_eq!(gesture(&module, SCROLL_UP), Gesture::Forward);
    assert_eq!(gesture(&module, SCROLL_DOWN), Gesture::Forward);
}

/// A module with nothing to page through leaves the notch alone, and it goes on to whatever
/// the module is showing - a volume that scrolls, or a provider's block.
#[test]
fn app_a_notch_on_a_module_with_one_reading_is_left_alone() {
    a_notch_is_left_alone();
}

#[test]
fn tests_a_notch_on_a_module_with_one_reading_is_left_alone() {
    a_notch_is_left_alone();
}

fn a_program_comes_first() {
    let actions = ClickActions {
        left: Some(vec!["cal".to_string()]),
        middle: None,
        right: None,
    };
    let module = PlacedModule {
        on_click: Some(actions),
        alt: Some(2),
        ..placed()
    };
    assert_eq!(
        gesture(&module, Button::Left.number()),
        Gesture::Run(Button::Left)
    );
    // The button it was not given still does what the module says.
    assert_eq!(gesture(&module, Button::Right.number()), Gesture::Forward);
}

/// A program of the user's own is the one thing the config asked for outright, so it takes its
/// button before anything built in looks at it.
#[test]
fn app_a_program_of_your_own_comes_before_anything_built_in() {
    a_program_comes_first();
}

#[test]
fn tests_a_program_of_your_own_comes_before_anything_built_in() {
    a_program_comes_first();
}

fn wordings_and_folding() {
    let module = PlacedModule {
        alt: Some(3),
        collapsible: true,
        ..placed()
    };
    assert_eq!(gesture(&module, Button::Left.number()), Gesture::Alt(3));
    assert_eq!(gesture(&module, Button::Right.number()), Gesture::Collapse);
    assert_eq!(gesture(&module, Button::Middle.number()), Gesture::Forward);
}

#[test]
fn app_the_wordings_and_the_folding_answer_to_their_own_buttons() {
    wordings_and_folding();
}

#[test]
fn tests_the_wordings_and_the_folding_answer_to_their_own_buttons() {
    wordings_and_folding();
}

fn an_unnamed_module_forwards() {
    let module = PlacedModule {
        name: None,
        alt: Some(2),
        collapsible: true,
        ..placed()
    };
    for button in [1, 2, 3, SCROLL_UP, SCROLL_DOWN] {
        assert_eq!(gesture(&module, button), Gesture::Forward);
    }
}

/// A module the frame did not name has nothing remembered against it, so every press goes to
/// what it is showing.
#[test]
fn app_a_module_no_gesture_names_forwards_everything() {
    an_unnamed_module_forwards();
}

#[test]
fn tests_a_module_no_gesture_names_forwards_everything() {
    an_unnamed_module_forwards();
}

fn actions() -> Vec<Option<ActionTarget>> {
    let operate = |what, step| Some(ActionTarget::Control { what, step: n(step) });
    vec![
        None,
        operate(Control::Volume, 5.0),
        operate(Control::Brightness, 5.0),
        operate(Control::Media, 0.0),
        Some(ActionTarget::Tray { key: "tray".into() }),
        Some(ActionTarget::I3Bar {
            name: Some("block".into()),
            instance: None,
        }),
        Some(ActionTarget::Sway("workspace 1".into())),
    ]
}

fn modules() -> Vec<PlacedModule> {
    let program = || Some(vec!["true".to_string()]);
    vec![
        PlacedModule {
            on_click: Some(ClickActions {
                left: program(),
                middle: program(),
                right: program(),
            }),
            ..placed()
        },
        PlacedModule {
            collapsible: true,
            ..placed()
        },
        PlacedModule {
            alt: Some(3),
            ..placed()
        },
        PlacedModule {
            refresh: Some(Button::Left),
            ..placed()
        },
        PlacedModule {
            mute: Some(Button::Middle),
            ..placed()
        },
        PlacedModule {
            paged: Some(3),
            ..placed()
        },
        placed(),
    ]
}

#[test]
fn group_button_precedes_every_child_gesture_and_forwarded_action() {
    for reserved in [Button::Left, Button::Middle, Button::Right] {
        for which in 0..modules().len() {
            for action in 0..actions().len() {
                let module = modules().remove(which);
                let child = |x: f64| PlacedModule {
                    area: area(x, 2.0, 10.0, 10.0),
                    action: actions().remove(action),
                    ..modules().remove(which)
                };
                let group = PlacedGroup {
                    area: area(0.0, 0.0, 40.0, 16.0),
                    collapse: Some(("system".into(), reserved)),
                    modules: vec![child(5.0), child(20.0)],
                };
                let frame = Frame {
                    groups: vec![group],
                };
                // Both children, horizontal/vertical padding, and the internal gap.
                for x in [0.0, 6.0, 16.0, 21.0, 39.0] {
                    for y in [0.0, 5.0, 15.0] {
                        assert!(matches!(
                            frame.click_at(n(x), n(y), reserved.number()),
                            Some(ClickTarget::Group("system"))
                        ));
                    }
                }
                for button in 1..=5 {
                    if button == reserved.number() {
                        continue;
                    }
                    let Some(ClickTarget::Module(hit)) = frame.click_at(n(6.0), n(5.0), button)
                    else {
                        panic!("lost child button {button}")
                    };
                    assert!(std::ptr::eq(hit, &frame.groups[0].modules[0]));
                    assert_eq!(gesture(hit, button), gesture(&module, button));
                    assert!(frame.click_at(n(16.0), n(5.0), button).is_none());
                }
                assert!(frame
                    .click_at(n(40.0), n(5.0), reserved.number())
                    .is_none());
            }
        }
    }
}

#[test]
fn buttons_and_notches_have_the_numbers_of_the_protocol() {
    assert_eq!(i3bar_button(0x110), Some(1));
    assert_eq!(i3bar_button(0x112), Some(2));
    assert_eq!(i3bar_button(0x111), Some(3));
    assert_eq!(i3bar_button(0x113), None);
    assert_eq!(notches(-3), (SCROLL_UP, 3));
    assert_eq!(notches(2), (SCROLL_DOWN, 2));
    assert_eq!(notches(i32::MIN).1, 2_147_483_648);
}

#[test]
fn a_page_turns_round_and_back() {
    let mut showing = Showing::new();
    let module = PlacedModule {
        paged: Some(3),
        ..placed()
    };
    for page in [1, 2, 0] {
        let deed = showing.dispatch_click(&module, SCROLL_DOWN, &Vec::new());
        assert!(matches!(deed, Deed::Redraw));
        assert_eq!(showing.page("weather"), page);
    }
    showing.dispatch_click(&module, SCROLL_UP, &Vec::new());
    assert_eq!(showing.page("weather"), 2);
    assert_eq!(showing.page("other"), 0);
}

#[test]
fn wordings_and_folds_are_remembered_by_name() {
    let mut showing = Showing::new();
    let module = PlacedModule {
        alt: Some(2),
        collapsible: true,
        ..placed()
    };
    showing.dispatch_click(&module, 1, &Vec::new());
    assert_eq!(showing.wording("weather"), 1);
    showing.dispatch_click(&module, 1, &Vec::new());
    assert_eq!(showing.wording("weather"), 0);
    showing.dispatch_click(&module, 3, &Vec::new());
    assert!(showing.is_folded("weather") && !showing.is_folded("other"));
    showing.dispatch_click(&module, 3, &Vec::new());
    assert!(!showing.is_folded("weather"));
    showing.fold("system");
    assert!(showing.is_folded("system") && !showing.is_folded("weather"));
    showing.fold("system");
    assert!(!showing.is_folded("system"));
}

#[test]
fn a_click_does_what_its_module_says() {
    let mut showing = Showing::new();
    let none = Vec::new();
    let all = modules();
    let mut deed = |module: &PlacedModule, button| showing.dispatch_click(module, button, &none);
    assert!(matches!(deed(&all[0], 1), Deed::Run(argv) if argv == ["true"]));
    assert!(matches!(deed(&all[3], 1), Deed::Refresh(name) if name == "weather"));
    assert!(matches!(deed(&all[4], 2), Deed::Mute));
    assert!(matches!(deed(&all[6], 1), Deed::Nothing));
    let showing_it = |action: usize| PlacedModule {
        action: actions().remove(action),
        ..placed()
    };
    assert!(matches!(deed(&showing_it(6), 1), Deed::Sway(c) if c == "workspace 1"));
    assert!(matches!(deed(&showing_it(6), 3), Deed::Nothing));
    assert!(matches!(
        deed(&showing_it(1), SCROLL_UP),
        Deed::Change(Move::Volume(v)) if v == n(5.0)
    ));
    assert!(matches!(
        deed(&showing_it(2), SCROLL_DOWN),
        Deed::Change(Move::Brightness(v)) if v == n(-5.0)
    ));
    assert!(matches!(
        deed(&showing_it(5), 2),
        Deed::Block { name: Some(name), instance: None } if name == "block"
    ));
}

#[test]
fn a_tray_icon_is_asked_for_its_menu_or_told() {
    let mut showing = Showing::new();
    let module = PlacedModule {
        action: Some(ActionTarget::Tray { key: "k".into() }),
        ..placed()
    };
    let item = |has_menu, is_menu| {
        vec![TrayItem {
            key: "k".to_string(),
            has_menu,
            is_menu,
        }]
    };
    let mut deed = |items: &Vec<TrayItem>, button| showing.dispatch_click(&module, button, items);
    assert!(matches!(deed(&item(true, false), 3), Deed::Menu(key) if key == "k"));
    assert!(matches!(
        deed(&item(true, false), 1),
        Deed::Tray(key, Word::Activate) if key == "k"
    ));
    assert!(matches!(deed(&item(true, true), 1), Deed::Menu(_)));
    assert!(matches!(deed(&item(false, true), 3), Deed::Nothing));
    assert_eq!(tell_tray(2), Some(Word::Secondary));
    assert_eq!(tell_tray(4), Some(Word::Scroll(-1)));
    assert_eq!(tell_tray(5), Some(Word::Scroll(1)));
    assert_eq!(
        control(Control::Media, n(0.0), 1),
        Move::Media(media::Command::PlayPause)
    );
    assert_eq!(
        control(Control::Media, n(0.0), SCROLL_UP),
        Move::Media(media::Command::Next)
    );
    assert_eq!(control(Control::Volume, n(5.0), 1), Move::Nothing);
}

// --- menus --------------------------------------------------------------------------------

#[test]
fn a_submenu_flips_across_its_row_at_a_horizontal_screen_edge() {
    let root = menu_constraints(false);
    assert!(root.slide_x);
    assert!(!root.flip_x);

    let submenu = menu_constraints(true);
    assert!(submenu.flip_x);
    assert!(submenu.slide_x);
    assert!(submenu.flip_y);
    assert!(submenu.slide_y);
}

fn row(id: i32, enabled: bool, submenu: bool) -> Row {
    Row {
        id,
        enabled,
        submenu,
        selectable: enabled,
    }
}

#[test]
fn only_an_enabled_submenu_is_opened_by_hover() {
    let rows = vec![row(1, true, false), row(2, false, true), row(3, true, true)];

    assert_eq!(pointed_submenu(&rows, Some(0)), None);
    assert_eq!(pointed_submenu(&rows, Some(1)), None);
    assert_eq!(pointed_submenu(&rows, Some(2)), Some(3));
    assert_eq!(pointed_submenu(&rows, None), None);
}

#[test]
fn an_open_or_in_flight_submenu_is_not_opened_again() {
    assert!(submenu_is_current(Some(7), None, 7));
    assert!(submenu_is_current(None, Some((42, 7)), 7));
    assert!(!submenu_is_current(Some(6), None, 7));
    assert!(!submenu_is_current(None, Some((42, 6)), 7));
}

#[test]
fn an_in_flight_submenu_gets_the_same_leave_grace_as_a_mapped_one() {
    assert!(submenu_leave_needs_grace(0, false, true));
    assert!(submenu_leave_needs_grace(0, true, false));
    assert!(submenu_leave_needs_grace(1, false, false));
    assert!(!submenu_leave_needs_grace(0, false, false));
}

#[test]
fn a_menu_hangs_from_what_asked_for_it() {
    let rows = || vec![row(1, true, false), row(2, true, true)];
    let outputs = vec![10, 20];
    let mut menus = Menus::new();
    assert_eq!(menus.hang("k", 0, &rows(), &outputs), None, "nobody asked");

    menus.ask(20, "k", n(3.0), n(9.0));
    let hook = menus.hang("k", 0, &rows(), &outputs).expect("it was asked for");
    assert_eq!(
        hook,
        Hook::Bar {
            bar: 1,
            x: n(3.0),
            width: n(9.0)
        }
    );
    menus.opened(hook, "k", rows(), &outputs);
    assert_eq!(
        menu_facing(Edge::Top, hook),
        (Corner::BottomLeft, Corner::BottomRight)
    );
    assert_eq!(
        menu_facing(Edge::Bottom, hook),
        (Corner::TopLeft, Corner::TopRight)
    );

    // Resting on a row that opens another asks for it once.
    assert!(matches!(
        menus.pointer(0, Some(1)),
        Pointed::Ask { key, id: 2 } if key == "k"
    ));
    assert!(matches!(menus.pointer(0, Some(1)), Pointed::Same));
    let hook = menus.hang("k", 2, &rows(), &outputs).expect("the row is there");
    assert_eq!(
        hook,
        Hook::Row {
            level: 0,
            row: 1,
            id: 2
        }
    );
    menus.opened(hook, "k", rows(), &outputs);
    assert_eq!(menus.open.len(), 2);
    assert_eq!(menus.open[1].output, 20);

    // Moving off the row closes what it opened.
    assert!(matches!(menus.pointer(0, Some(0)), Pointed::Moved));
    assert_eq!(menus.open.len(), 1);
    assert!(menus.click(0, Some(1)).is_none(), "a submenu is no choice");
    assert!(menus.click(0, None).is_none());
    assert!(matches!(menus.click(0, Some(0)), Some((key, 1)) if key == "k"));
    assert!(menus.open.is_empty());
}

#[test]
fn a_menu_goes_with_its_screen() {
    let rows = || vec![row(1, true, false)];
    let outputs = vec![10];
    let mut menus = Menus::new();
    menus.ask(10, "k", n(0.0), n(1.0));
    assert_eq!(menus.hang("other", 0, &rows(), &outputs), None);
    menus.ask(10, "k", n(0.0), n(1.0));
    assert_eq!(menus.hang("k", 0, &rows(), &Vec::new()), None, "it has gone");
    menus.ask(10, "k", n(0.0), n(1.0));
    assert_eq!(menus.hang("k", 0, &Vec::new(), &outputs), None, "it is empty");
    menus.ask(10, "k", n(0.0), n(1.0));
    let hook = menus.hang("k", 0, &rows(), &outputs).expect("it is there");
    menus.opened(hook, "k", rows(), &outputs);
    menus.output_gone(11);
    assert_eq!(menus.open.len(), 1);
    menus.output_gone(10);
    assert!(menus.open.is_empty());
}

// --- hiding -------------------------------------------------------------------------------

#[test]
fn a_hiding_bar_comes_out_for_the_pointer_and_goes_after_its_delay() {
    let now = NOW;
    let delay = Duration::from_millis(500);
    let mut bar = Autohide::new(delay);
    assert!(bar.hidden());
    assert!(bar.enter());
    assert!(!bar.enter(), "already out");
    assert_eq!(bar.due(), None, "nothing counts down under the pointer");

    bar.leave(now, false);
    assert_eq!(bar.due(), Some(after(now, delay)));
    assert!(!bar.step(after(now, half(delay))));
    assert!(!bar.hidden());
    assert!(bar.step(after(now, delay)));
    assert!(bar.hidden());
    assert_eq!(bar.due(), None, "a hidden bar keeps no timer");
}

#[test]
fn coming_back_before_the_delay_keeps_the_bar_out() {
    let now = NOW;
    let mut bar = Autohide::new(Duration::from_millis(500));
    bar.enter();
    bar.leave(now, false);
    bar.enter();
    assert_eq!(bar.due(), None);
    assert!(!bar.step(after(now, Duration::from_secs(1))));
    assert!(!bar.hidden());
}

#[test]
fn an_open_menu_holds_the_bar_until_it_closes() {
    let now = NOW;
    let delay = Duration::from_millis(300);
    let mut bar = Autohide::new(delay);
    bar.enter();
    bar.leave(now, true);
    assert_eq!(bar.due(), None);
    bar.wait(now, false);
    assert_eq!(bar.due(), Some(after(now, delay)));
}

#[test]
fn a_pinned_bar_stays_out_until_it_is_let_go() {
    let now = NOW;
    let delay = Duration::from_millis(300);
    let mut bar = Autohide::new(delay);
    assert!(bar.pin(true, now, false), "pinning brings a hidden bar out");
    assert!(bar.pinned());
    bar.enter();
    bar.leave(now, false);
    assert_eq!(bar.due(), None);

    assert!(!bar.pin(false, now, false));
    assert_eq!(bar.due(), Some(after(now, delay)));
    assert!(bar.step(after(now, delay)));
}

#[test]
fn letting_go_under_the_pointer_waits_for_the_pointer_to_leave() {
    let now = NOW;
    let mut bar = Autohide::new(Duration::from_millis(300));
    bar.pin(true, now, false);
    bar.enter();
    bar.pin(false, now, false);
    assert_eq!(bar.due(), None);
}

#[test]
fn another_delay_leaves_a_countdown_alone() {
    let mut bar = Autohide::new(Duration::from_millis(300));
    bar.enter();
    bar.leave(NOW, false);
    bar.set_delay(Duration::from_secs(9));
    assert_eq!(bar.due(), Some(after(NOW, Duration::from_millis(300))));
}

// --- travelling ---------------------------------------------------------------------------

fn share(parts: u32) -> f64 {
    f64::from(parts) / f64::from(WHOLE)
}

fn travel(from: u32, to: u32, over: Duration) -> Travel {
    Travel {
        name: "a".to_string(),
        leaving: 0,
        from,
        to,
        started: NOW,
        over,
        at: from,
    }
}

fn part(over: Duration, of: u128) -> Instant {
    after(
        NOW,
        Duration {
            nanos: over.nanos / of,
        },
    )
}

/// Where one of these has got to, or where it is counted from.
fn going<'a>(folds: &'a Folds, name: &str) -> &'a Travel {
    folds
        .travelling
        .iter()
        .find(|t| t.name == name)
        .expect("it is on its way")
}

#[test]
fn a_fold_eases_between_its_two_ends_and_stops_at_them() {
    let over = Duration::from_millis(200);
    let fold = travel(0, WHOLE, over);
    assert_eq!(fold.position(NOW), 0);
    assert_eq!(fold.position(after(NOW, over)), WHOLE);
    assert_eq!(
        fold.position(after(after(after(NOW, over), over), over)),
        WHOLE
    );
    assert!(fold.arrived(after(NOW, over)) && !fold.arrived(part(over, 2)));

    let quarter = share(fold.position(part(over, 4)));
    let half_way = fold.position(part(over, 2));
    assert!((share(half_way) - 0.5).abs() < 0.001);
    assert!(quarter < 0.25, "a fold leaves slowly, got {quarter}");
    assert_eq!(quarter, 0.15625);

    let back = travel(WHOLE, 0, over);
    assert!((share(back.position(part(over, 4))) - (1.0 - quarter)).abs() < 0.001);

    let turned = travel(half_way, 0, over);
    assert_eq!(turned.position(NOW), half_way);
    assert_eq!(turned.position(after(NOW, over)), 0);
}

#[test]
fn travels_run_a_timer_only_while_something_is_travelling() {
    let over = Duration::from_millis(200);
    let mut travels = Travels::new();

    assert!(!travels.claim());
    let (travelling, changed) = travels.step(NOW);
    assert!(!travelling && !changed);

    travels.folds.turn("a".to_string(), WHOLE, over, NOW);
    assert_eq!(travels.folds.at("a"), Some(0));
    assert!(travels.claim());
    assert!(!travels.claim());

    let (travelling, changed) = travels.step(part(over, 2));
    assert!(travelling && changed);
    let at = travels.folds.at("a").expect("it is on its way");
    assert!((share(at) - 0.5).abs() < 0.001);

    let (travelling, changed) = travels.step(after(NOW, over));
    assert!(!travelling && changed);
    assert!(travels.folds.travelling.is_empty() && travels.folds.idle());
    assert!(!travels.scheduled);
    travels.folds.turn("a".to_string(), 0, over, NOW);
    assert!(travels.claim());
}

#[test]
fn a_wording_and_a_fold_share_one_timer() {
    let over = Duration::from_millis(200);
    let mut travels = Travels::new();

    travels.wordings.start("m".to_string(), 0, over, NOW);
    assert!(travels.claim());
    travels.folds.turn("a".to_string(), WHOLE, over, NOW);
    assert!(!travels.claim());

    let (travelling, changed) = travels.step(part(over, 2));
    assert!(travelling && changed);
    assert!((share(going(&travels.wordings, "m").at) - 0.5).abs() < 0.001);
    assert_eq!(going(&travels.wordings, "m").leaving, 0);

    let (travelling, _) = travels.step(after(after(NOW, over), over));
    assert!(!travelling);
    assert!(travels.wordings.travelling.is_empty() && travels.wordings.at("m").is_none());
}

#[test]
fn a_wording_clicked_again_starts_over_from_its_new_origin() {
    let over = Duration::from_millis(200);
    let mut travels = Travels::new();
    travels.wordings.start("m".to_string(), 0, over, NOW);
    travels.step(part(over, 2));

    travels
        .wordings
        .start("m".to_string(), 1, over, part(over, 2));
    let leaving = going(&travels.wordings, "m");
    assert_eq!(leaving.leaving, 1);
    assert_eq!(leaving.at, 0);
    assert!(!leaving.arrived(after(NOW, over)));
    assert_eq!(travels.wordings.travelling.len(), 1);
}

#[test]
fn a_released_timer_claim_can_be_taken_again() {
    let mut travels = Travels::new();
    travels
        .folds
        .turn("a".to_string(), WHOLE, Duration::from_millis(200), NOW);
    assert!(travels.claim());
    travels.release();
    assert!(travels.claim());
}

#[test]
fn turning_around_uses_only_the_remaining_distance() {
    let over = Duration::from_millis(200);
    let mut folds = Folds::new();
    folds.turn("a".to_string(), WHOLE, over, NOW);
    folds.step(part(over, 10));
    let caught = folds.at("a").expect("it is on its way");
    assert!(caught > 0 && share(caught) < 0.1);

    folds.turn("a".to_string(), 0, over, part(over, 10));
    let back = going(&folds, "a");
    assert_eq!(back.from, caught);
    assert_eq!(back.to, 0);
    assert!(back.over.nanos < over.nanos / 10);

    let mut folds = Folds::new();
    folds.turn("b".to_string(), WHOLE, over, NOW);
    folds.turn("b".to_string(), 0, over, NOW);
    assert_eq!(going(&folds, "b").from, going(&folds, "b").to);
    assert!(going(&folds, "b").arrived(NOW));
    let (travelling, changed) = folds.step(NOW);
    assert!(!travelling && changed);
}

#[test]
fn settling_one_fold_leaves_the_others_running() {
    let mut folds = Folds::new();
    let over = Duration::from_millis(200);
    folds.turn("a".to_string(), WHOLE, over, NOW);
    folds.turn("b".to_string(), WHOLE, over, NOW);
    folds.settle("a");
    assert!(folds.at("a").is_none());
    assert!(folds.at("b").is_some());
}

// --- scrolling ----------------------------------------------------------------------------

fn wheel(value120: i32) -> AxisScroll {
    AxisScroll {
        value120,
        discrete: 0,
        travelled: 0,
        stop: false,
    }
}

/// A finger's travel in pixels, as the protocol counts them.
fn finger(pixels: f64) -> AxisScroll {
    AxisScroll {
        travelled: (pixels * 256.0) as i32,
        ..wheel(0)
    }
}

/// One notch is one step, however many events the wheel takes to report it. A high-resolution
/// wheel sends eighths of a notch, and eight of those are one step rather than eight.
fn a_wheel_notch_is_one_step_however_finely_it_arrives() {
    let mut carried = 0;
    assert_eq!(steps_of(&wheel(120), &mut carried), 1);

    let mut carried = 0;
    let stepped: i32 = (0..8).map(|_| steps_of(&wheel(15), &mut carried)).sum();
    assert_eq!(stepped, 1, "eight eighths of a notch made {stepped} steps");
}

#[test]
fn app_a_wheel_notch_is_one_step_however_finely_it_arrives() {
    a_wheel_notch_is_one_step_however_finely_it_arrives();
}

#[test]
fn tests_a_wheel_notch_is_one_step_however_finely_it_arrives() {
    a_wheel_notch_is_one_step_however_finely_it_arrives();
}

/// A touchpad reports pixels and no notches at all, which is what used to turn a two-finger
/// drag into an adjustment per frame.
fn a_finger_has_to_travel_before_anything_moves() {
    let mut carried = 0;
    for _ in 0..4 {
        assert_eq!(steps_of(&finger(3.0), &mut carried), 0, "moved too early");
    }
    assert_eq!(steps_of(&finger(3.0), &mut carried), 1);
}

#[test]
fn app_a_finger_has_to_travel_before_anything_moves() {
    a_finger_has_to_travel_before_anything_moves();
}

#[test]
fn tests_a_finger_has_to_travel_before_anything_moves() {
    a_finger_has_to_travel_before_anything_moves();
}

/// Scrolling the other way starts from nothing, so a nudge back does not land on a step that
/// the previous direction had almost paid for.
fn turning_around_drops_what_was_carried() {
    let mut carried = 0;
    // Three quarters of a notch up: not a step yet, but carried.
    assert_eq!(steps_of(&wheel(90), &mut carried), 0);
    // A full notch down is a full step down. Had the upward remainder still been there it
    // would have paid for three quarters of this one, and nothing would have moved.
    assert_eq!(steps_of(&wheel(-120), &mut carried), -1);
}

#[test]
fn app_turning_around_drops_what_was_carried() {
    turning_around_drops_what_was_carried();
}

#[test]
fn tests_turning_around_drops_what_was_carried() {
    turning_around_drops_what_was_carried();
}

/// A fast scroll is still every step it asked for, rather than one.
fn a_flick_is_worth_every_step_in_it() {
    let mut carried = 0;
    assert_eq!(steps_of(&wheel(600), &mut carried), 5);
}

#[test]
fn app_a_flick_is_worth_every_step_in_it() {
    a_flick_is_worth_every_step_in_it();
}

#[test]
fn tests_a_flick_is_worth_every_step_in_it() {
    a_flick_is_worth_every_step_in_it();
}

/// The end of a kinetic scroll leaves nothing behind to leak into the next one.
fn the_end_of_a_scroll_clears_what_was_carried() {
    let mut carried = 0;
    assert_eq!(steps_of(&finger(10.0), &mut carried), 0);
    let stop = AxisScroll {
        stop: true,
        ..wheel(0)
    };
    assert_eq!(steps_of(&stop, &mut carried), 0);
    assert_eq!(carried, 0);
    assert_eq!(
        steps_of(&finger(10.0), &mut carried),
        0,
        "carried across a stop"
    );
}

#[test]
fn app_the_end_of_a_scroll_clears_what_was_carried() {
    the_end_of_a_scroll_clears_what_was_carried();
}

#[test]
fn tests_the_end_of_a_scroll_clears_what_was_carried() {
    the_end_of_a_scroll_clears_what_was_carried();
}

#[test]
fn an_older_wheel_counts_in_whole_notches() {
    let mut carried = 0;
    let notches = AxisScroll {
        discrete: i32::MIN,
        ..wheel(0)
    };
    assert_eq!(steps_of(&notches, &mut carried), i32::MIN);
    assert_eq!(carried, 0);
    assert_eq!(steps_of(&wheel(-90), &mut carried), 0);
    assert_eq!(steps_of(&wheel(-90), &mut carried), -1);
    assert_eq!(carried, -STEP / 2);
}

// --- the provider -------------------------------------------------------------------------

#[test]
fn a_provider_that_stops_is_shown_as_a_fault() {
    let mut provided: Provided<u8> = Provided::new();
    assert!(!provided.on_status(StatusEvent::Header { click_events: true }));
    assert!(provided.accepts_clicks && provided.fault.is_none());
    assert!(provided.on_status(StatusEvent::Blocks(vec![1, 2])));
    assert_eq!(provided.items, [1, 2]);
    assert!(provided.on_status(StatusEvent::Stopped("it left".to_string())));
    assert!(provided.items.is_empty());
    assert_eq!(
        provided.fault.as_deref(),
        Some("status provider stopped: it left")
    );
    assert!(provided.on_status(StatusEvent::Blocks(vec![3])));
    assert!(provided.fault.is_none());
}

// --- colors -------------------------------------------------------------------------------

#[test]
fn a_mix_starts_at_one_color_and_ends_at_the_other() {
    let red = Color::rgba(200, 10, 0, 255);
    let blue = Color::rgba(0, 20, 100, 255);
    assert_eq!(red.mix(blue, 0), red);
    assert_eq!(red.mix(blue, WHOLE), blue);
    assert_eq!(red.mix(blue, u32::MAX), blue);
    assert_eq!(red.mix(blue, WHOLE / 2), Color::rgba(100, 15, 50, 255));
}

#[test]
fn a_fade_to_nothing_goes_out_through_its_own_color() {
    let fill = Color::rgba(200, 100, 50, 200);
    let half_way = fill.mix(Color::transparent(), WHOLE / 2);
    assert_eq!(half_way, Color::rgba(200, 100, 50, 100));
    assert_eq!(
        fill.mix(Color::transparent(), WHOLE),
        Color::transparent()
    );
    assert_eq!(fill.faded(WHOLE / 4), Color::rgba(200, 100, 50, 50));
    assert_eq!(fill.faded(u32::MAX), fill);
    assert_eq!(fill.faded(0).a, 0);
}

// --- waiting ------------------------------------------------------------------------------

#[test]
fn a_quick_command_never_spins() {
    let mut spinner = Spinner::new(8);
    let disk = Which::Disk("/".to_string());
    assert!(spinner.on_command_started(&disk, NOW), "a timer is wanted");
    assert!(!spinner.on_command_started(&Which::Cpu, NOW), "there is one");
    let due = Instant {
        nanos: NOW.nanos + SPIN_AFTER,
    };
    assert_eq!(spinner.on_spin(NOW), (Some(due), false));
    spinner.answered(&disk);
    let (next, redraw) = spinner.on_spin(due);
    assert_eq!(next, Some(Instant { nanos: due.nanos + SPIN_STEP }));
    assert!(redraw);
    assert_eq!(spinner.spin, 1);
    spinner.answered(&Which::Cpu);
    assert_eq!(spinner.on_spin(due), (None, false));
    assert!(!spinner.scheduled);
}

// --- screens ------------------------------------------------------------------------------

#[test]
fn a_bar_is_drawn_when_there_is_something_to_draw() {
    let mut bar = Bar::new(1, None, 30, 0);
    assert_eq!(bar.scale, 1);
    assert!(!bar.wants_drawing(), "nobody has said how wide it is");
    bar.configure(800, 0);
    assert_eq!((bar.width, bar.height), (800, 30));
    assert!(bar.wants_drawing());
    assert_eq!(bar.buffer(), Some((800, 30, 3200)));
    assert!(!bar.is_presented(false));
    bar.present();
    assert!(bar.is_presented(false) && !bar.is_presented(true));
    assert!(!bar.wants_drawing(), "a frame is outstanding");
    assert!(bar.rescale(2) && !bar.rescale(2));
    assert!(!bar.is_presented(false));
    assert_eq!(bar.buffer(), Some((1600, 60, 6400)));
    bar.configure(u32::MAX, 0);
    assert_eq!(bar.buffer(), None);
}

#[test]
fn damage_stays_on_the_buffer() {
    assert_eq!(damaged(5, 5, 10, 10, 100, 30), Some((4, 4, 7, 7)));
    assert_eq!(damaged(0, 0, 100, 30, 100, 30), Some((0, 0, 100, 30)));
    assert_eq!(damaged(200, 0, 300, 10, 100, 30), None);
    assert_eq!(
        damaged(i32::MIN, 0, i32::MAX, 1, 100, 30),
        Some((0, 0, 100, 2))
    );
}

#[test]
fn no_screen_has_two_bars() {
    let mut bars = Bars::new();
    bars.add_bar(Bar::new(7, None, 30, 1));
    assert_eq!(bars.find(7), Some(0));
    bars.add_bar(Bar::new(9, Some("DP-1".to_string()), 30, 1));
    bars.invalidate();
    assert!(bars.bars.iter().all(|b| b.dirty));
    assert_eq!(bars.drop_bar(7), Some(0));
    assert_eq!(bars.drop_bar(7), None);
    assert_eq!(bars.find(9), Some(0));
    assert_ne!(Screen::Add, Screen::Drop);
}

#[test]
fn a_notice_is_given_once() {
    let mut notices = Notices::new();
    assert_eq!(notices.warn_about_names(3, 0), NameTrouble::Nothing);
    assert_eq!(notices.warn_about_names(1, 2), NameTrouble::Starting);
    assert_eq!(notices.warn_about_names(3, 2), NameTrouble::Extra);
    assert_eq!(notices.warn_about_names(3, 2), NameTrouble::Nothing);

    let items = vec![Some("a".to_string()), None];
    let said = notices.warn_if_nothing_matched(0, &items, false);
    assert_eq!(said, Some(vec!["a".to_string(), "<unnamed>".to_string()]));
    assert_eq!(notices.warn_if_nothing_matched(0, &items, false), None);
    assert_eq!(notices.warn_if_nothing_matched(1, &items, false), None);
    assert!(notices.warn_if_nothing_matched(0, &items, false).is_some());
}
