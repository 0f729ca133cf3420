use cluster_tui::filter::{Filter, SearchAction};
use cluster_tui::gauge::GaugeState;
use cluster_tui::key::Key;

#[test]
fn gauge_applies_each_protocol_line() {
    let mut g = GaugeState::new();
    assert_eq!(g.progress, 0);
    g.update("PROGRESS: 42");
    assert_eq!(g.progress, 42);
    g.update("STATUS: embedding rows");
    assert_eq!(g.status, "embedding rows");
    assert!(!g.done);
    g.update("DONE");
    assert!(g.done);
    g.update("ERROR: out of disk");
    assert_eq!(g.message.as_deref(), Some("out of disk"));
    assert!(g.message_error);
}

#[test]
fn gauge_ignores_unrecognised_lines() {
    let mut g = GaugeState::new();
    g.update("PROGRESS: 10");
    g.update("loading shard 3 of 9");
    g.update("PROGRESS: notanumber");
    g.update("PROGRESS: 900");
    assert_eq!(g.progress, 10);
    assert!(g.message.is_none());
    assert!(!g.done);
}

#[test]
fn gauge_treats_crash_markers_as_errors() {
    let mut g = GaugeState::new();
    g.update("Traceback (most recent call last):");
    assert!(g.message_error);
    assert_eq!(g.message.as_deref(), Some("Traceback (most recent call last):"));
}

#[test]
fn recognizes_filters_the_protocol_lines() {
    assert!(GaugeState::recognizes("PROGRESS: 5"));
    assert!(GaugeState::recognizes("STATUS: x"));
    assert!(GaugeState::recognizes("DONE"));
    assert!(GaugeState::recognizes("ERROR: y"));
    assert!(GaugeState::recognizes("ValueError Exception raised"));
    assert!(!GaugeState::recognizes("epoch 3 loss 0.1"));
    assert!(!GaugeState::recognizes("DONE!"));
}

#[test]
fn filter_edits_the_buffer_at_the_cursor() {
    let mut f = Filter::default();
    f.activate();
    assert!(f.active());
    for c in "abc".chars() {
        assert_eq!(f.handle_key(Key::Char(c)), SearchAction::Update);
    }
    assert_eq!(f.term(), "abc");
    assert_eq!(f.handle_key(Key::Left), SearchAction::Update);
    assert_eq!(f.handle_key(Key::Char('X')), SearchAction::Update);
    assert_eq!(f.term(), "abXc");
    assert_eq!(f.handle_key(Key::Backspace), SearchAction::Update);
    assert_eq!(f.term(), "abc");
    assert_eq!(f.cursor_pos(), 2);
}

#[test]
fn filter_exits_on_enter_escape_and_control_c() {
    let mut f = Filter::default();
    f.activate();
    f.handle_key(Key::Char('x'));
    assert_eq!(f.handle_key(Key::Enter), SearchAction::Exit);
    assert_eq!(f.term(), "x");
    assert_eq!(f.handle_key(Key::Esc), SearchAction::Exit);
    assert_eq!(f.handle_key(Key::Ctrl('c')), SearchAction::Exit);
    assert_eq!(f.term(), "");
    assert_eq!(f.handle_key(Key::Tab), SearchAction::Ignored);
}

#[test]
fn parsed_query_tracks_the_buffer() {
    let mut f = Filter::default();
    assert!(f.parsed_query().is_none());
    for c in "a=1".chars() {
        f.handle_key(Key::Char(c));
    }
    let q = f.parsed_query().unwrap();
    assert_eq!(q.exprs.len(), 1);
}
