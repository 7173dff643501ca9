use dfbhd_mus::buttons::{ButtonData, MyApp};

fn ids(app: &MyApp) -> Vec<u32> {
    app.buttons.iter().map(|b| b.id).collect()
}

fn running(app: &MyApp) -> Vec<bool> {
    app.buttons.iter().map(|b| b.is_processing).collect()
}

#[test]
fn five_buttons_to_start_with() {
    let app = MyApp::new();
    assert_eq!(ids(&app), vec![0, 1, 2, 3, 4]);
    let labels: Vec<&str> = app.buttons.iter().map(|b| b.label.as_str()).collect();
    assert_eq!(labels, vec!["Button 0", "Button 1", "Button 2", "Button 3", "Button 4"]);
    assert_eq!(running(&app), vec![false; 5]);
    assert!(!app.auto_start_next);
}

#[test]
fn a_button_moves_in_front_of_the_target() {
    let mut app = MyApp::new();
    app.reorder_button(0, 3);
    assert_eq!(ids(&app), vec![1, 2, 0, 3, 4]);
    app.reorder_button(4, 0);
    assert_eq!(ids(&app), vec![4, 1, 2, 0, 3]);
    app.reorder_button(1, 5);
    assert_eq!(ids(&app), vec![4, 2, 0, 3, 1]);
    app.reorder_button(2, 3);
    assert_eq!(ids(&app), vec![4, 2, 0, 3, 1]);
    app.reorder_button(3, 2);
    assert_eq!(ids(&app), vec![4, 2, 3, 0, 1]);
}

#[test]
fn moving_to_the_own_place_changes_nothing() {
    let mut app = MyApp::new();
    for i in [0usize, 2, 4, 5, 99] {
        app.reorder_button(i, i);
        assert_eq!(ids(&app), vec![0, 1, 2, 3, 4]);
    }
}

#[test]
fn moving_keeps_every_button() {
    let mut app = MyApp::new();
    for (from, to) in [(0usize, 5usize), (3, 1), (4, 4), (2, 0), (1, 3)] {
        app.reorder_button(from, to);
        let mut seen = ids(&app);
        seen.sort();
        assert_eq!(seen, vec![0, 1, 2, 3, 4]);
        for b in &app.buttons {
            assert_eq!(b.label, format!("Button {}", b.id));
        }
    }
}

#[test]
fn next_index_stops_at_the_end() {
    let app = MyApp::new();
    assert_eq!(app.get_next_index(0), Some(1));
    assert_eq!(app.get_next_index(3), Some(4));
    assert_eq!(app.get_next_index(4), None);
    assert_eq!(app.get_next_index(5), None);
    assert_eq!(app.get_next_index(usize::MAX), None);
    let empty = MyApp { buttons: Vec::new(), auto_start_next: true };
    assert_eq!(empty.get_next_index(0), None);
}

#[test]
fn a_task_is_started_once() {
    let mut app = MyApp::new();
    app.reorder_button(0, 5);
    assert_eq!(app.start_processing(4), Some(0));
    assert_eq!(running(&app), vec![false, false, false, false, true]);
    assert_eq!(app.start_processing(4), None);
    assert_eq!(running(&app), vec![false, false, false, false, true]);
    assert_eq!(ids(&app), vec![1, 2, 3, 4, 0]);
    assert_eq!(app.buttons[4].label, "Button 0");
}

#[test]
fn position_finds_the_first_button_with_the_id() {
    let mut app = MyApp::new();
    app.reorder_button(0, 5);
    assert_eq!(app.position(0), Some(4));
    assert_eq!(app.position(1), Some(0));
    assert_eq!(app.position(5), None);
    app.buttons.push(ButtonData { id: 1, label: "twin".to_string(), is_processing: false });
    assert_eq!(app.position(1), Some(0));
}

#[test]
fn a_finished_task_stops_its_button() {
    let mut app = MyApp::new();
    app.start_processing(1);
    app.start_processing(2);
    assert_eq!(app.finish_processing(1), None);
    assert_eq!(running(&app), vec![false, false, true, false, false]);
    assert_eq!(app.finish_processing(9), None);
    assert_eq!(running(&app), vec![false, false, true, false, false]);
}

#[test]
fn a_finished_task_starts_the_button_below() {
    let mut app = MyApp::new();
    app.auto_start_next = true;
    app.reorder_button(3, 0);
    app.start_processing(0);
    assert_eq!(app.finish_processing(3), Some(0));
    assert_eq!(running(&app), vec![false, true, false, false, false]);
    assert_eq!(app.finish_processing(0), Some(1));
    assert_eq!(app.finish_processing(1), Some(2));
    assert_eq!(app.finish_processing(2), Some(4));
    assert_eq!(app.finish_processing(4), None);
    assert_eq!(running(&app), vec![false; 5]);
    assert!(app.auto_start_next);
}

#[test]
fn a_running_button_below_is_not_started_again() {
    let mut app = MyApp::new();
    app.auto_start_next = true;
    app.start_processing(0);
    app.start_processing(1);
    assert_eq!(app.finish_processing(0), None);
    assert_eq!(running(&app), vec![false, true, false, false, false]);
}

#[test]
fn three_buttons_by_default() {
    let app = MyApp::default();
    assert_eq!(ids(&app), vec![1, 2, 3]);
    let labels: Vec<&str> = app.buttons.iter().map(|b| b.label.as_str()).collect();
    assert_eq!(labels, vec!["Button 1", "Button 2", "Button 3"]);
    assert_eq!(running(&app), vec![false; 3]);
    assert!(!app.auto_start_next);
}

#[test]
fn labels_hold_the_decimal_digits_of_the_id() {
    let mut app = MyApp::new();
    app.buttons.clear();
    assert_eq!(app.position(0), None);
    let fresh = MyApp::new();
    assert_eq!(fresh.buttons[4].label, "Button 4");
    assert_ne!(fresh.buttons[4].label, "4");
}
