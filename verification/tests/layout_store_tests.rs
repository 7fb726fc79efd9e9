use agent_tabs::agent::AgentState;
use agent_tabs::layout::calculate_visible_range;
use agent_tabs::store::{AgentStore, PaneAgent};

fn chars(s: &str) -> Vec<char> {
    s.chars().collect()
}

fn text(v: &[char]) -> String {
    v.iter().collect()
}

#[test]
fn visible_range_small_cases() {
    assert_eq!(calculate_visible_range(0, 5, 0), (0, 0, 0, 0));
    assert_eq!(calculate_visible_range(3, 5, 1), (0, 3, 0, 0));
    assert_eq!(calculate_visible_range(3, 3, 2), (0, 3, 0, 0));
    assert_eq!(calculate_visible_range(10, 2, 4), (0, 0, 10, 0));
}

#[test]
fn visible_range_centres_the_active_tab() {
    assert_eq!(calculate_visible_range(10, 5, 5), (4, 7, 4, 3));
    assert_eq!(calculate_visible_range(10, 5, 0), (0, 3, 0, 7));
    assert_eq!(calculate_visible_range(10, 5, 9), (7, 10, 7, 0));
    assert_eq!(calculate_visible_range(10, 6, 5), (3, 7, 3, 3));
}

#[test]
fn visible_range_keeps_the_active_tab_and_all_counts() {
    for count in 1..12usize {
        for rows in 3..14usize {
            for active in 0..count {
                let (s, e, above, below) = calculate_visible_range(count, rows, active);
                assert!(s <= active && active < e && e <= count);
                assert_eq!(above + (e - s) + below, count);
                if count > rows {
                    assert!(e - s + 2 <= rows);
                }
            }
        }
    }
}

fn agent(st: AgentState, a: &str, l: &str) -> PaneAgent {
    PaneAgent { state: st, agent: chars(a), label: chars(l) }
}

#[test]
fn store_insert_get_remove() {
    let mut s = AgentStore::new();
    assert!(s.is_empty());
    s.insert(7, agent(AgentState::Done, "shell", "make"));
    s.insert(3, agent(AgentState::Working, "aider", "x"));
    s.insert(7, agent(AgentState::Error, "shell", "exit 2"));
    assert_eq!(s.len(), 2);
    let ids: Vec<u32> = s.entries().iter().map(|e| e.0).collect();
    assert_eq!(ids, vec![3, 7]);
    assert_eq!(s.get(7).unwrap().state, AgentState::Error);
    assert_eq!(text(&s.get(7).unwrap().label), "exit 2");
    assert!(s.get(4).is_none());
    s.remove(3);
    s.remove(99);
    assert_eq!(s.len(), 1);
    assert!(s.get(3).is_none());
}

#[test]
fn state_reports() {
    let mut s = AgentStore::new();
    s.apply_state_payload(&chars("3\u{1f}working\u{1f}aider\u{1f}~/proj: npm test"));
    let pa = s.get(3).unwrap();
    assert_eq!(pa.state, AgentState::Working);
    assert_eq!(text(&pa.agent), "aider");
    assert_eq!(text(&pa.label), "~/proj: npm test");
    s.apply_state_payload(&chars(" 7 \u{1f}DONE"));
    let pa = s.get(7).unwrap();
    assert_eq!(pa.state, AgentState::Done);
    assert!(pa.agent.is_empty() && pa.label.is_empty());
    // idle clears the pane
    s.apply_state_payload(&chars("3\u{1f}idle\u{1f}aider\u{1f}"));
    assert!(s.get(3).is_none());
    // malformed reports are ignored
    s.apply_state_payload(&chars("5"));
    s.apply_state_payload(&chars("x\u{1f}working"));
    s.apply_state_payload(&chars("4294967296\u{1f}working"));
    s.apply_state_payload(&chars("-1\u{1f}working"));
    assert_eq!(s.len(), 1);
    // an unknown state keyword reads as idle and clears
    s.apply_state_payload(&chars("7\u{1f}busy"));
    assert!(s.is_empty());
}

#[test]
fn state_dump_round_trip() {
    let mut a = AgentStore::new();
    a.apply_state_payload(&chars("7\u{1f}done\u{1f}\u{1f}"));
    a.apply_state_payload(&chars("3\u{1f}working\u{1f}aider\u{1f}lbl"));
    let dump = a.sync_payload().unwrap();
    assert_eq!(text(&dump), "3\u{1f}working\u{1f}aider\u{1f}lbl\n7\u{1f}done\u{1f}\u{1f}");
    let mut b = AgentStore::new();
    b.apply_state_payload(&chars("9\u{1f}error\u{1f}shell\u{1f}boom"));
    b.apply_state_payload(&chars("3\u{1f}waiting"));
    b.apply_sync_state(&dump);
    assert_eq!(b.len(), 3);
    assert_eq!(b.get(3).unwrap().state, AgentState::Working);
    assert_eq!(text(&b.get(3).unwrap().label), "lbl");
    assert_eq!(b.get(7).unwrap().state, AgentState::Done);
    assert_eq!(b.get(9).unwrap().state, AgentState::Error);
    assert!(AgentStore::new().sync_payload().is_none());
}
