use agent_tabs::agent::{AgentState, Channels};
use agent_tabs::color::ColorSpec;
use agent_tabs::panes::{ModeView, PaneView, TabView, ThemeColors};
use agent_tabs::plugin::{Action, Event, PluginState};

fn chars(s: &str) -> Vec<char> {
    s.chars().collect()
}

fn text(v: &[char]) -> String {
    v.iter().collect()
}

fn mode() -> ModeView {
    ModeView {
        rename_tab: false,
        colors: ThemeColors {
            frame_selected: ColorSpec::EightBit(10),
            frame_unselected: Some(ColorSpec::EightBit(100)),
            exit_code_success: ColorSpec::Rgb(0, 200, 0),
            exit_code_error: ColorSpec::Rgb(200, 0, 0),
        },
    }
}

fn tab(pos: usize, name: &str, active: bool) -> TabView {
    TabView { position: pos, name: chars(name), active, is_fullscreen_active: false, is_sync_panes_active: false }
}

fn pane(id: u32, title: &str) -> PaneView {
    PaneView {
        id,
        is_plugin: false,
        is_focused: false,
        title: chars(title),
        terminal_command: None,
        exited: false,
        is_held: false,
        exit_status: None,
    }
}

fn command_pane(id: u32, cmd: &str, exited: bool, status: Option<i32>) -> PaneView {
    PaneView { terminal_command: Some(chars(cmd)), exited, exit_status: status, ..pane(id, cmd) }
}

fn granted() -> PluginState {
    let mut s = PluginState::new(mode());
    let (render, _) = s.update(Event::PermissionResult(true));
    assert!(render);
    s
}

fn describe(acts: &[Action]) -> Vec<String> {
    acts.iter()
        .map(|a| match a {
            Action::SetSelectable(b) => format!("selectable {}", b),
            Action::SwitchTab(t) => format!("switch {}", t),
            Action::SetTimeoutMs(ms) => format!("timeout {}", ms),
            Action::RequestStateSync => "sync request".to_string(),
            Action::BroadcastState(p) => format!("broadcast {}", text(p)),
            Action::RecordActivity(p) => format!("activity {}", text(p)),
        })
        .collect()
}

#[test]
fn events_wait_for_permission_then_replay_in_order() {
    let mut s = PluginState::new(mode());
    let (r, a) = s.update(Event::TabUpdate(vec![tab(0, "one", false), tab(1, "two", true)], true));
    assert!(!r && a.is_empty());
    let (r, a) = s.update(Event::PaneUpdate(vec![(1, vec![command_pane(5, "cargo build", false, None)])]));
    assert!(!r && a.is_empty());
    assert_eq!(s.pending_events.len(), 2);
    let (r, a) = s.update(Event::PermissionResult(false));
    assert!(!r && a.is_empty());
    assert_eq!(s.pending_events.len(), 2);
    let (r, a) = s.update(Event::PermissionResult(true));
    assert!(r);
    assert_eq!(describe(&a), vec!["selectable false", "sync request", "timeout 500"]);
    assert!(s.pending_events.is_empty());
    assert_eq!(s.tabs.len(), 2);
    assert_eq!(s.active_tab_idx, 2);
    assert!(s.timer_running);
    assert!(s.permissions_granted && !s.is_selectable);
}

#[test]
fn tab_and_mode_updates() {
    let mut s = granted();
    let (r, _) = s.update(Event::TabUpdate(vec![tab(0, "a", false), tab(1, "b", false)], true));
    assert!(r);
    assert_eq!(s.active_tab_idx, 1);
    let (r, _) = s.update(Event::TabUpdate(vec![tab(0, "a", false), tab(1, "b", false)], false));
    assert!(!r);
    let (r, _) = s.update(Event::TabUpdate(vec![tab(0, "a", false), tab(1, "c", false)], true));
    assert!(r);
    let (r, _) = s.update(Event::ModeUpdate(mode(), false));
    assert!(!r);
    let (r, _) = s.update(Event::ModeUpdate(ModeView { rename_tab: true, ..mode() }, true));
    assert!(r);
    assert!(s.mode.rename_tab);
}

#[test]
fn scrolling_switches_tabs_within_bounds() {
    let mut s = granted();
    s.update(Event::TabUpdate(vec![tab(0, "a", true), tab(1, "b", false), tab(2, "c", false)], true));
    let (r, a) = s.update(Event::ScrollUp);
    assert!(!r);
    assert_eq!(describe(&a), vec!["switch 1"]);
    let (_, a) = s.update(Event::ScrollDown);
    assert_eq!(describe(&a), vec!["switch 2"]);
    s.update(Event::TabUpdate(vec![tab(0, "a", false), tab(1, "b", false), tab(2, "c", true)], true));
    let (_, a) = s.update(Event::ScrollDown);
    assert_eq!(describe(&a), vec!["switch 3"]);
    let (_, a) = s.update(Event::ScrollUp);
    assert_eq!(describe(&a), vec!["switch 2"]);
    let (r, a) = s.update(Event::LeftClick(0));
    assert!(r && a.is_empty());
    let (r, a) = s.update(Event::OtherMouse);
    assert!(!r && a.is_empty());
}

#[test]
fn timer_keeps_running_only_while_something_animates() {
    let mut s = granted();
    let (r, a) = s.update(Event::PaneUpdate(vec![(0, vec![command_pane(1, "make", false, None)])]));
    assert!(r);
    assert_eq!(describe(&a), vec!["timeout 500"]);
    let (_, a) = s.update(Event::PaneUpdate(vec![(0, vec![command_pane(1, "make", false, None)])]));
    assert!(a.is_empty());
    let (r, a) = s.update(Event::Timer);
    assert!(r);
    assert_eq!(describe(&a), vec!["timeout 500"]);
    assert_eq!(s.frame, 1);
    // the command finished with status 0: done is solid, nothing animates
    s.update(Event::PaneUpdate(vec![(0, vec![command_pane(1, "make", true, Some(0))])]));
    let (r, a) = s.update(Event::Timer);
    assert!(!r && a.is_empty());
    assert_eq!(s.frame, 2);
    assert!(!s.timer_running);
}

#[test]
fn session_updates() {
    let mut s = granted();
    let (r, _) = s.update(Event::SessionUpdate(vec![(chars("other"), false), (chars("main"), true)]));
    assert!(r);
    let (r, _) = s.update(Event::SessionUpdate(vec![(chars("main"), true), (chars("x"), true)]));
    assert!(!r);
    let (r, _) = s.update(Event::SessionUpdate(vec![(chars("other"), false)]));
    assert!(!r);
    let (r, _) = s.update(Event::SessionUpdate(Vec::new()));
    assert!(!r);
    assert_eq!(text(&s.own_session), "main");
}

#[test]
fn pipe_selectable_messages() {
    let mut s = granted();
    let (r, a) = s.pipe(&chars("set_selectable"), Some(chars("true")));
    assert!(!r);
    assert_eq!(describe(&a), vec!["selectable true"]);
    assert!(s.is_selectable);
    let (_, a) = s.pipe(&chars("set_selectable"), Some(chars("maybe")));
    assert!(a.is_empty() && s.is_selectable);
    let (_, a) = s.pipe(&chars("toggle_selectable"), None);
    assert_eq!(describe(&a), vec!["selectable false"]);
    let (_, a) = s.pipe(&chars("toggle_selectable"), None);
    assert_eq!(describe(&a), vec!["selectable true"]);
    let (_, a) = s.pipe(&chars("set_selectable"), Some(chars("false")));
    assert_eq!(describe(&a), vec!["selectable false"]);
    assert!(!s.is_selectable);
}

#[test]
fn pipe_agent_state_and_sync() {
    let mut s = granted();
    s.update(Event::PaneUpdate(vec![(0, vec![pane(4, "zsh")])]));
    let (r, a) = s.pipe(&chars("zat_sync_request"), None);
    assert!(!r && a.is_empty());
    let (r, a) = s.pipe(&chars("agent_state"), Some(chars("4\u{1f}working\u{1f}aider\u{1f}tests")));
    assert!(r);
    assert_eq!(describe(&a), vec!["timeout 500"]);
    assert_eq!(s.tab_agent(0).0, AgentState::Working);
    let (r, a) = s.pipe(&chars("agent_state"), None);
    assert!(!r && a.is_empty());
    let (r, a) = s.pipe(&chars("zat_sync_request"), Some(chars("ignored")));
    assert!(!r);
    assert_eq!(describe(&a), vec!["broadcast 4\u{1f}working\u{1f}aider\u{1f}tests"]);
    let (r, _) = s.pipe(&chars("zat_sync_state"), Some(chars("4\u{1f}idle\n8\u{1f}error\u{1f}x\u{1f}y")));
    assert!(r);
    assert_eq!(s.tab_agent(0).0, AgentState::Idle);
    assert!(s.pane_agents.get(8).is_some());
    let (r, a) = s.pipe(&chars("activity"), Some(chars("payload")));
    assert!(!r);
    assert_eq!(describe(&a), vec!["activity payload"]);
    let (r, a) = s.pipe(&chars("unknown"), Some(chars("x")));
    assert!(!r && a.is_empty());
}

#[test]
fn a_new_tab_copy_catches_up_from_a_peer() {
    let mut peer = granted();
    peer.pipe(&chars("agent_state"), Some(chars("2\u{1f}waiting\u{1f}aider\u{1f}needs you")));
    let mut fresh = granted();
    let (_, a) = peer.pipe(&chars("zat_sync_request"), None);
    let dump = match &a[0] {
        Action::BroadcastState(p) => p.clone(),
        _ => panic!("expected a state dump"),
    };
    fresh.pipe(&chars("zat_sync_state"), Some(dump));
    let pa = fresh.pane_agents.get(2).unwrap();
    assert_eq!(pa.state, AgentState::Waiting);
    assert_eq!(text(&pa.label), "needs you");
}

#[test]
fn pane_states() {
    let mut s = granted();
    assert_eq!(s.pane_state(&pane(1, "zsh")), None);
    let (st, l) = s.pane_state(&command_pane(2, "cargo test", false, None)).unwrap();
    assert_eq!((st, text(&l)), (AgentState::Working, "cargo test".to_string()));
    assert_eq!(s.pane_state(&command_pane(2, "x", true, Some(0))).unwrap().0, AgentState::Done);
    assert_eq!(s.pane_state(&command_pane(2, "x", true, Some(3))).unwrap().0, AgentState::Error);
    assert_eq!(s.pane_state(&command_pane(2, "x", true, None)).unwrap().0, AgentState::Done);
    let held = PaneView { is_held: true, ..command_pane(2, "x", false, Some(1)) };
    assert_eq!(s.pane_state(&held).unwrap().0, AgentState::Error);
    // a report through the pipe wins over the native state
    s.pipe(&chars("agent_state"), Some(chars("2\u{1f}waiting\u{1f}a\u{1f}lbl")));
    let (st, l) = s.pane_state(&command_pane(2, "x", true, Some(3))).unwrap();
    assert_eq!((st, text(&l)), (AgentState::Waiting, "lbl".to_string()));
}

#[test]
fn the_most_urgent_pane_wins() {
    let mut s = granted();
    let plugin = PaneView { is_plugin: true, ..pane(9, "bar") };
    s.update(Event::PaneUpdate(vec![(
        3,
        vec![plugin, pane(1, "aider"), command_pane(2, "npm run dev", false, None), command_pane(5, "make", true, Some(2))],
    )]));
    s.pipe(&chars("agent_state"), Some(chars("1\u{1f}working\u{1f}aider\u{1f}")));
    s.pipe(&chars("agent_state"), Some(chars("9\u{1f}error\u{1f}x\u{1f}plugin")));
    let (st, l) = s.tab_agent(3);
    assert_eq!(st, AgentState::Error);
    assert_eq!(l.map(|v| text(&v)), Some("make".to_string()));
    // a tie keeps the first pane: pane 1 (empty label) before pane 2
    s.style.state_priority = vec![AgentState::Working, AgentState::Error];
    let (st, l) = s.tab_agent(3);
    assert_eq!(st, AgentState::Working);
    assert_eq!(l, None);
    assert_eq!(s.tab_agent(42), (AgentState::Idle, None));
    assert_eq!(s.prio(AgentState::Error), 1);
    assert_eq!(s.prio(AgentState::Done), usize::MAX);
}

#[test]
fn colours_from_theme_and_settings() {
    let mut s = granted();
    assert_eq!(s.border_active(), ColorSpec::EightBit(10));
    assert_eq!(s.border_inactive(), ColorSpec::EightBit(100));
    assert_eq!(s.state_color(AgentState::Working), ColorSpec::Rgb(0, 200, 0));
    assert_eq!(s.state_color(AgentState::Done), ColorSpec::Rgb(0, 200, 0));
    assert_eq!(s.state_color(AgentState::Error), ColorSpec::Rgb(200, 0, 0));
    assert_eq!(s.state_color(AgentState::Waiting), ColorSpec::EightBit(208));
    assert_eq!(s.state_color(AgentState::Idle), ColorSpec::Default);
    s.mode.colors.frame_unselected = None;
    assert_eq!(s.border_inactive(), ColorSpec::EightBit(240));
    s.style.color_inactive_border = Some(ColorSpec::EightBit(1));
    s.style.color_active_border = Some(ColorSpec::EightBit(2));
    s.style.color_waiting = Some(ColorSpec::EightBit(208));
    assert_eq!(s.border_inactive(), ColorSpec::EightBit(1));
    assert_eq!(s.border_active(), ColorSpec::EightBit(2));
    assert_eq!(s.state_color(AgentState::Waiting), ColorSpec::EightBit(208));
}

#[test]
fn tab_names_and_titles() {
    let mut s = granted();
    let focused = PaneView { is_focused: true, ..pane(1, "nvim") };
    let placeholder = PaneView { is_focused: true, ..pane(2, "Pane #2") };
    s.update(Event::PaneUpdate(vec![(0, vec![pane(3, "other"), focused]), (1, vec![placeholder])]));
    assert_eq!(s.get_focused_pane_title(0).map(|v| text(&v)), Some("nvim".to_string()));
    assert_eq!(s.get_focused_pane_title(1), None);
    assert_eq!(s.get_focused_pane_title(7), None);
    assert_eq!(text(&s.tab_display_name(&tab(0, "Tab #1", true))), "nvim");
    assert_eq!(text(&s.tab_display_name(&tab(0, "work", true))), "work");
    assert_eq!(text(&s.tab_display_name(&tab(1, "", true))), "…");
}

#[test]
fn loading_settings_records_a_conflict() {
    let mut s = PluginState::new(mode());
    let cfg = vec![(chars("focus_style"), chars("fill"))];
    s.load(&cfg);
    assert_eq!(s.style.focus_style, Channels { fill: true, border: false, glyph: false });
    assert_eq!(
        s.config_error.as_ref().map(|v| text(v)),
        Some("state_style & focus_style both use the FILL — set one to border/glyph/none".to_string())
    );
    let mut ok = PluginState::new(mode());
    ok.load(&vec![(chars("tab_height"), chars("4"))]);
    assert!(ok.config_error.is_none());
    assert_eq!(ok.style.tab_height, 4);
}
