use aether_win32::browser::{normalize_url, percent_encode, BrowserEvent, BrowserState};
use aether_win32::state::{EditorState, Tab, TabContent, Viewport};

#[test]
fn blank_input_goes_home() {
    assert_eq!(normalize_url(""), "https://www.bing.com");
    assert_eq!(normalize_url(" \t\n "), "https://www.bing.com");
}

#[test]
fn input_with_a_scheme_is_kept_trimmed() {
    assert_eq!(normalize_url("  http://example.com/a b  "), "http://example.com/a b");
    assert_eq!(normalize_url("file:///C:/x"), "file:///C:/x");
}

#[test]
fn host_names_get_https() {
    assert_eq!(normalize_url("example.com"), "https://example.com");
    assert_eq!(normalize_url("  localhost:3000 "), "https://localhost:3000");
    assert_eq!(normalize_url("localhost"), "https://localhost");
}

#[test]
fn other_input_is_a_web_search() {
    assert_eq!(normalize_url("rust verus"), "https://www.bing.com/search?q=rust%20verus");
    assert_eq!(normalize_url("a.b c"), "https://www.bing.com/search?q=a.b%20c");
    assert_eq!(normalize_url("中"), "https://www.bing.com/search?q=%E4%B8%AD");
}

#[test]
fn unicode_white_space_is_trimmed() {
    assert_eq!(normalize_url("\u{3000}example.com\u{2003}"), "https://example.com");
}

#[test]
fn percent_encoding_keeps_only_unreserved_bytes() {
    assert_eq!(percent_encode("Az09-_.~"), "Az09-_.~");
    assert_eq!(percent_encode("a b/c?"), "a%20b%2Fc%3F");
    assert_eq!(percent_encode("é"), "%C3%A9");
    assert_eq!(percent_encode(""), "");
}

fn editor() -> EditorState {
    let viewport = Viewport {
        line_height: 20,
        char_width: 8,
        editor_width: 800,
        editor_height: 600,
        content_height: 580,
    };
    EditorState::new(TabContent::new(), viewport)
}

#[test]
fn active_browser_id_follows_the_active_tab() {
    let mut s = editor();
    assert_eq!(s.active_browser_id(), None);
    s.tab_bar.tabs.push(Tab::Browser(7));
    s.tab_bar.active_tab = 1;
    assert_eq!(s.active_browser_id(), Some(7));
    s.tab_bar.active_tab = 5;
    assert_eq!(s.active_browser_id(), None);
}

#[test]
fn agent_mode_needs_the_right_panel() {
    let mut s = editor();
    s.tab_bar.tabs = vec![Tab::Browser(3)];
    s.agent_mode = true;
    s.right_panel_visible = false;
    assert_eq!(s.active_browser_id(), None);
    s.right_panel_visible = true;
    assert_eq!(s.active_browser_id(), Some(3));
}

#[test]
fn instances_get_fresh_ids() {
    let mut b = BrowserState::new();
    let a = b.add_instance("https://a.test");
    let c = b.add_instance("https://c.test");
    assert_eq!((a, c), (1, 2));
    let inst = b.get(2).unwrap();
    assert_eq!(inst.url, "https://c.test");
    assert_eq!(inst.address_text, "https://c.test");
    assert!(inst.loading && inst.pending_create && !inst.address_editing);
    assert!(b.get(3).is_none());
    assert_eq!(b.position(1), Some(0));
}

#[test]
fn removed_instance_is_gone_and_ids_are_not_reused() {
    let mut b = BrowserState::new();
    b.add_instance("x");
    b.add_instance("y");
    b.remove_instance(1);
    assert!(b.get(1).is_none());
    assert_eq!(b.instances.len(), 1);
    b.remove_instance(9);
    assert_eq!(b.instances.len(), 1);
    assert_eq!(b.add_instance("z"), 3);
}

#[test]
fn only_instances_shown_by_tabs_are_kept() {
    let mut b = BrowserState::new();
    b.add_instance("1");
    b.add_instance("2");
    b.add_instance("3");
    let tabs = vec![Tab::Welcome, Tab::Browser(3), Tab::Browser(1)];
    b.retain_referenced(&tabs);
    let ids: Vec<usize> = b.instances.iter().map(|i| i.id).collect();
    assert_eq!(ids, vec![1, 3]);
}

#[test]
fn navigation_and_reported_source() {
    let mut b = BrowserState::new();
    b.add_instance("about:blank");
    let inst = &mut b.instances[0];
    inst.address_editing = true;
    inst.loading = false;
    let url = inst.navigate_input(" example.org ");
    assert_eq!(url, "https://example.org");
    assert_eq!(inst.url, "https://example.org");
    assert_eq!(inst.address_text, "https://example.org");
    assert!(!inst.address_editing && inst.loading);
    inst.address_editing = true;
    inst.address_text = "typing".to_string();
    inst.apply_source("https://example.org/next".to_string());
    assert_eq!(inst.url, "https://example.org/next");
    assert_eq!(inst.address_text, "typing");
    inst.address_editing = false;
    inst.apply_source(String::new());
    assert_eq!(inst.url, "https://example.org/next");
    inst.apply_source("https://z.test".to_string());
    assert_eq!(inst.address_text, "https://z.test");
}

#[test]
fn environment_is_started_once() {
    let mut b = BrowserState::new();
    assert!(b.ensure_environment());
    assert!(b.env_creating);
    assert!(!b.ensure_environment());
    let mut failed = BrowserState::new();
    failed.env_failed = true;
    assert!(!failed.ensure_environment());
}

#[test]
fn empty_search_box_reset() {
    let mut b = BrowserState::new();
    b.empty_search_focused = true;
    b.empty_search_text = "query".to_string();
    b.empty_search_composition = Some("q".to_string());
    b.reset_empty_search();
    assert!(!b.empty_search_focused);
    assert!(b.empty_search_text.is_empty());
    assert_eq!(b.empty_search_composition, None);
}

#[test]
fn environment_events_set_the_flags() {
    let mut b = BrowserState::new();
    b.ensure_environment();
    assert!(b.apply_event(BrowserEvent::EnvironmentReady(true)));
    assert!(b.env_ready && !b.env_creating && !b.env_failed);
    let mut f = BrowserState::new();
    f.ensure_environment();
    assert!(!f.apply_event(BrowserEvent::EnvironmentReady(false)));
    assert!(!f.env_ready && !f.env_creating && f.env_failed);
}

#[test]
fn navigation_events_update_only_their_instance() {
    let mut b = BrowserState::new();
    b.add_instance("a");
    b.add_instance("b");
    let done = BrowserEvent::NavigationCompleted {
        id: 2,
        can_go_back: Some(true),
        can_go_forward: None,
        source: "https://b.test/".to_string(),
    };
    assert!(!b.apply_event(done));
    let second = b.get(2).unwrap();
    assert!(!second.loading && second.can_go_back && !second.can_go_forward);
    assert_eq!(second.url, "https://b.test/");
    assert_eq!(second.address_text, "https://b.test/");
    let first = b.get(1).unwrap();
    assert!(first.loading);
    assert_eq!(first.url, "a");

    b.apply_event(BrowserEvent::NavigationCompleted {
        id: 2,
        can_go_back: None,
        can_go_forward: Some(true),
        source: String::new(),
    });
    let second = b.get(2).unwrap();
    assert_eq!(second.url, "https://b.test/");
    assert!(second.can_go_back && second.can_go_forward);

    b.apply_event(BrowserEvent::TitleChanged(1, "Home".to_string()));
    assert_eq!(b.get(1).unwrap().title, "Home");
    b.apply_event(BrowserEvent::HistoryChanged { id: 1, can_go_back: Some(true), can_go_forward: Some(false) });
    assert!(b.get(1).unwrap().can_go_back);
    b.apply_event(BrowserEvent::ControllerFailed(1));
    assert!(!b.get(1).unwrap().loading);
    b.instances[0].address_editing = true;
    b.apply_event(BrowserEvent::SourceChanged(1, "https://new.test".to_string()));
    assert_eq!(b.get(1).unwrap().url, "https://new.test");
    assert_eq!(b.get(1).unwrap().address_text, "a");
    // An event about an unknown instance changes nothing.
    b.apply_event(BrowserEvent::TitleChanged(9, "x".to_string()));
    assert_eq!(b.instances.len(), 2);
    assert_eq!(b.get(2).unwrap().title, "");
}

#[test]
fn web_views_are_created_once_the_environment_is_ready() {
    let mut b = BrowserState::new();
    b.add_instance("");
    b.add_instance("https://b.test");
    // Before the environment is ready nothing is handed out.
    assert!(!b.request_controller(1));
    assert!(b.take_pending_creates().is_empty());
    assert!(b.get(1).unwrap().pending_create);
    b.ensure_environment();
    assert!(b.apply_event(BrowserEvent::EnvironmentReady(true)));
    assert_eq!(b.take_pending_creates(), vec![1, 2]);
    assert!(!b.get(1).unwrap().pending_create && !b.get(2).unwrap().pending_create);
    // A second call finds nothing waiting.
    assert!(b.take_pending_creates().is_empty());

    assert_eq!(b.controller_ready(1), Some("https://www.bing.com".to_string()));
    assert_eq!(b.controller_ready(2), Some("https://b.test".to_string()));
    assert!(b.get(1).unwrap().has_view);
    // The tab was closed before its web view arrived.
    assert_eq!(b.controller_ready(7), None);

    // An instance with a view is not created again.
    assert!(b.request_controller(2));
    assert!(b.take_pending_creates().is_empty());
}

#[test]
fn normalizing_twice_changes_nothing() {
    for input in ["", "  example.com ", "rust verus", "http://a.b/c", "中", "localhost:8080", "a b.c"] {
        let once = normalize_url(input);
        assert_eq!(normalize_url(&once), once, "{:?}", input);
    }
}
