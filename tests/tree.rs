use session_tree::node::{Action, Row, TreeError};
use session_tree::feed::{PaneRecord, SessionRecord, TabRecord};
use session_tree::sessiontree::SessionTree;

fn pane(id: u32, title: &str) -> PaneRecord {
    PaneRecord { id, title: title.to_string(), is_plugin: false, is_focused: false }
}

fn tab(name: &str, position: usize, panes: Vec<PaneRecord>) -> TabRecord {
    TabRecord { name: name.to_string(), position, active: false, panes }
}

fn session(name: &str, current: bool, tabs: Vec<TabRecord>) -> SessionRecord {
    SessionRecord { name: name.to_string(), is_current_session: current, tabs }
}

fn texts(rows: &[Row]) -> Vec<String> {
    rows.iter().map(|r| r.text.clone()).collect()
}

fn cursor(tree: &SessionTree) -> usize {
    tree.get_current_node().unwrap().index()
}

/// Two sessions, the first with two tabs of one pane each, the second with none.
fn two_sessions() -> SessionTree {
    SessionTree::new(&vec![
        session("SessionA", false, vec![tab("TabA1", 0, vec![pane(7, "vim")]), tab("TabA2", 1, vec![pane(8, "htop")])]),
        session("SessionB", false, vec![]),
    ])
}

#[test]
fn initial_rows_show_only_sessions() {
    let mut tree = two_sessions();
    let rows = tree.render(20, 80);
    assert_eq!(texts(&rows), vec!["(0) SessionA", "(1) SessionB"]);
    assert_eq!(rows[0].indent, 0);
    assert!(rows[0].selected);
    assert!(!rows[1].selected);
}

#[test]
fn move_right_expands_first_session() {
    let mut tree = two_sessions();
    tree.render(20, 80);
    assert_eq!(tree.handle_right(), Ok(()));
    assert_eq!(cursor(&tree), 0);
    let rows = tree.render(20, 80);
    assert_eq!(texts(&rows), vec!["(0) SessionA", "(1) TabA1", "(2) TabA2", "(3) SessionB"]);
    assert_eq!(rows[1].indent, 1);
    assert!(rows[0].selected);
}

#[test]
fn move_right_on_expanded_moves_down() {
    let mut tree = two_sessions();
    tree.handle_right().unwrap();
    tree.handle_right().unwrap();
    assert_eq!(cursor(&tree), 1);
    tree.handle_right().unwrap();
    assert_eq!(cursor(&tree), 1);
    let rows = tree.render(20, 80);
    assert_eq!(texts(&rows), vec!["(0) SessionA", "(1) TabA1", "(2) vim", "(3) TabA2", "(4) SessionB"]);
    assert_eq!(rows[2].indent, 2);
}

#[test]
fn move_down_wraps_from_last_row() {
    let mut tree = two_sessions();
    tree.handle_down().unwrap();
    assert_eq!(cursor(&tree), 5);
    tree.handle_down().unwrap();
    assert_eq!(cursor(&tree), 0);
}

#[test]
fn move_up_wraps_from_first_row() {
    let mut tree = two_sessions();
    tree.handle_up().unwrap();
    assert_eq!(cursor(&tree), 5);
    tree.handle_up().unwrap();
    assert_eq!(cursor(&tree), 0);
}

#[test]
fn move_left_on_collapsed_first_session_stays() {
    let mut tree = two_sessions();
    assert_eq!(tree.handle_left(), Ok(()));
    assert_eq!(cursor(&tree), 0);
    let rows = tree.render(20, 80);
    assert_eq!(texts(&rows), vec!["(0) SessionA", "(1) SessionB"]);
}

#[test]
fn move_left_collapses_session_from_pane() {
    let mut tree = two_sessions();
    tree.handle_right().unwrap();
    tree.handle_down().unwrap();
    tree.handle_right().unwrap();
    tree.handle_down().unwrap();
    assert_eq!(cursor(&tree), 2);
    tree.handle_left().unwrap();
    assert_eq!(cursor(&tree), 0);
    let rows = tree.render(20, 80);
    assert_eq!(texts(&rows), vec!["(0) SessionA", "(1) SessionB"]);
    tree.handle_right().unwrap();
    let rows = tree.render(20, 80);
    assert_eq!(texts(&rows), vec!["(0) SessionA", "(1) TabA1", "(2) TabA2", "(3) SessionB"]);
}

#[test]
fn move_left_on_collapsed_session_goes_up() {
    let mut tree = two_sessions();
    tree.handle_down().unwrap();
    assert_eq!(cursor(&tree), 5);
    tree.handle_left().unwrap();
    assert_eq!(cursor(&tree), 0);
}

#[test]
fn switch_by_index_beyond_visible_rows_does_nothing() {
    let mut tree = SessionTree::new(&vec![
        session("a", false, vec![]),
        session("b", false, vec![]),
        session("c", false, vec![]),
    ]);
    let before = tree.render(20, 80);
    assert_eq!(tree.switch_by_index(5), Err(TreeError::QuickSelectMiss));
    assert_eq!(cursor(&tree), 0);
    assert_eq!(tree.render(20, 80), before);
}

#[test]
fn switch_by_index_focuses_row() {
    let mut tree = two_sessions();
    tree.handle_right().unwrap();
    tree.render(20, 80);
    assert_eq!(
        tree.switch_by_index(2),
        Ok(Action::SwitchSessionWithFocus { name: "SessionA".to_string(), tab_position: 1, pane_id: None })
    );
    assert_eq!(tree.switch_by_index(3), Ok(Action::SwitchSession { name: "SessionB".to_string() }));
}

#[test]
fn switch_before_any_render_misses() {
    let tree = two_sessions();
    assert_eq!(tree.switch_by_index(0), Err(TreeError::QuickSelectMiss));
}

#[test]
fn down_then_up_returns() {
    let mut tree = two_sessions();
    tree.handle_right().unwrap();
    for start in 0..4 {
        let here = cursor(&tree);
        tree.handle_down().unwrap();
        tree.handle_up().unwrap();
        assert_eq!(cursor(&tree), here);
        tree.handle_up().unwrap();
        tree.handle_down().unwrap();
        assert_eq!(cursor(&tree), here);
        tree.handle_down().unwrap();
        let _ = start;
    }
}

#[test]
fn down_visits_every_shown_node_once() {
    let mut tree = two_sessions();
    tree.handle_right().unwrap();
    tree.handle_down().unwrap();
    let start = cursor(&tree);
    let mut seen = vec![start];
    loop {
        tree.handle_down().unwrap();
        let c = cursor(&tree);
        if c == start {
            break;
        }
        assert!(!seen.contains(&c));
        seen.push(c);
    }
    seen.sort();
    assert_eq!(seen, vec![0, 1, 3, 5]);
}

#[test]
fn expand_then_collapse_restores_rows() {
    let mut tree = two_sessions();
    let before = tree.render(20, 80);
    tree.expand(0).unwrap();
    assert_eq!(tree.render(20, 80).len(), 4);
    tree.collapse(0).unwrap();
    assert_eq!(tree.render(20, 80), before);
}

#[test]
fn collapse_of_tab_collapses_its_session() {
    let mut tree = two_sessions();
    tree.expand(0).unwrap();
    tree.expand(1).unwrap();
    assert_eq!(tree.render(20, 80).len(), 5);
    tree.collapse(2).unwrap();
    assert_eq!(cursor(&tree), 0);
    assert_eq!(texts(&tree.render(20, 80)), vec!["(0) SessionA", "(1) SessionB"]);
}

#[test]
fn expand_of_hidden_node_is_refused() {
    let mut tree = two_sessions();
    assert_eq!(tree.expand(1), Err(TreeError::NodeHidden));
    assert_eq!(tree.expand(9), Err(TreeError::IndexOutOfRange));
    assert_eq!(tree.collapse(9), Err(TreeError::IndexOutOfRange));
    assert_eq!(tree.render(20, 80).len(), 2);
}

#[test]
fn collapsed_rows_are_not_rendered() {
    let mut tree = two_sessions();
    tree.expand(0).unwrap();
    tree.expand(1).unwrap();
    tree.collapse(1).unwrap();
    let rows = tree.render(20, 80);
    assert!(rows.iter().all(|r| !r.text.contains("vim") && !r.text.contains("Tab")));
}

#[test]
fn keybinds_run_through_digits_then_letters() {
    let sessions: Vec<SessionRecord> = (0..40).map(|i| session(&format!("s{}", i), false, vec![])).collect();
    let mut tree = SessionTree::new(&sessions);
    let rows = tree.render(40, 80);
    assert_eq!(rows.len(), 40);
    assert_eq!(rows[0].text, "(0) s0");
    assert_eq!(rows[9].text, "(9) s9");
    assert_eq!(rows[10].text, "(A) s10");
    assert_eq!(rows[35].text, "(Z) s35");
    assert_eq!(rows[36].text, "( ) s36");
    assert_eq!(rows[39].text, "( ) s39");
}

#[test]
fn viewport_centres_the_cursor() {
    let sessions: Vec<SessionRecord> = (0..10).map(|i| session(&format!("s{}", i), false, vec![])).collect();
    let mut tree = SessionTree::new(&sessions);
    for _ in 0..5 {
        tree.handle_down().unwrap();
    }
    let rows = tree.render(3, 80);
    assert_eq!(texts(&rows), vec!["(4) s4", "(5) s5", "(6) s6"]);
    assert!(rows[1].selected);
    for _ in 0..4 {
        tree.handle_down().unwrap();
    }
    let rows = tree.render(3, 80);
    assert_eq!(texts(&rows), vec!["(7) s7", "(8) s8", "(9) s9"]);
    assert!(tree.render(0, 80).is_empty());
}

#[test]
fn viewport_at_the_top_does_not_scroll() {
    let sessions: Vec<SessionRecord> = (0..10).map(|i| session(&format!("s{}", i), false, vec![])).collect();
    let mut tree = SessionTree::new(&sessions);
    tree.handle_down().unwrap();
    let rows = tree.render(4, 80);
    assert_eq!(texts(&rows), vec!["(0) s0", "(1) s1", "(2) s2", "(3) s3"]);
}

#[test]
fn empty_tree_refuses_cursor_operations() {
    let mut tree = SessionTree::new(&vec![]);
    assert_eq!(tree.handle_down(), Err(TreeError::CursorOutOfRange));
    assert_eq!(tree.handle_up(), Err(TreeError::CursorOutOfRange));
    assert_eq!(tree.handle_left(), Err(TreeError::CursorOutOfRange));
    assert_eq!(tree.handle_right(), Err(TreeError::CursorOutOfRange));
    assert_eq!(tree.switch_to_selected(), Err(TreeError::CursorOutOfRange));
    assert_eq!(tree.kill_selected(), Err(TreeError::CursorOutOfRange));
    assert!(tree.get_current_node().is_err());
    assert!(tree.render(10, 80).is_empty());
    let default_tree = SessionTree::default();
    assert!(default_tree.get_node(0).is_err());
}

#[test]
fn focus_actions_follow_the_current_session() {
    let mut tree = SessionTree::new(&vec![
        session("here", true, vec![tab("edit", 3, vec![pane(11, "nvim")])]),
        session("there", false, vec![tab("logs", 2, vec![pane(12, "tail")])]),
    ]);
    assert_eq!(tree.switch_to_selected(), Err(TreeError::CurrentSession));
    tree.expand(0).unwrap();
    tree.expand(1).unwrap();
    tree.handle_down().unwrap();
    assert_eq!(tree.switch_to_selected(), Ok(Action::FocusOrCreateTab { name: "edit".to_string() }));
    tree.handle_down().unwrap();
    assert_eq!(tree.switch_to_selected(), Ok(Action::FocusTerminalPane { id: 11 }));
    tree.handle_down().unwrap();
    assert_eq!(cursor(&tree), 3);
    assert_eq!(tree.switch_to_selected(), Ok(Action::SwitchSession { name: "there".to_string() }));
    tree.expand(3).unwrap();
    tree.expand(4).unwrap();
    tree.handle_down().unwrap();
    tree.handle_down().unwrap();
    assert_eq!(cursor(&tree), 5);
    assert_eq!(
        tree.switch_to_selected(),
        Ok(Action::SwitchSessionWithFocus { name: "there".to_string(), tab_position: 2, pane_id: Some((12, false)) })
    );
}

#[test]
fn only_sessions_can_be_killed() {
    let mut tree = two_sessions();
    assert_eq!(tree.kill_selected(), Ok(Action::KillSession { name: "SessionA".to_string() }));
    tree.handle_right().unwrap();
    tree.handle_down().unwrap();
    assert_eq!(tree.kill_selected(), Err(TreeError::CannotKillTab));
    tree.handle_right().unwrap();
    tree.handle_down().unwrap();
    assert_eq!(tree.kill_selected(), Err(TreeError::CannotKillPane));
}

#[test]
fn markers_for_current_session_and_active_tab() {
    let mut t = tab("main", 0, vec![]);
    t.active = true;
    let mut tree = SessionTree::new(&vec![session("work", true, vec![t])]);
    tree.handle_right().unwrap();
    let rows = tree.render(10, 80);
    assert_eq!(texts(&rows), vec!["(0) work (attached)", "(1) main (active)"]);
}

#[test]
fn lookups_of_parent_and_session() {
    let tree = two_sessions();
    assert_eq!(tree.get_parent(2).unwrap().index(), 1);
    assert_eq!(tree.get_parent(0).unwrap().index(), 0);
    assert_eq!(tree.get_session(2).unwrap().index(), 0);
    assert_eq!(tree.get_session(5).unwrap().index(), 5);
    assert_eq!(tree.get_node(6).err(), Some(TreeError::IndexOutOfRange));
    assert_eq!(tree.get_session(6).err(), Some(TreeError::IndexOutOfRange));
    assert_eq!(tree.get_node(4).unwrap().parent(), Some(3));
}
