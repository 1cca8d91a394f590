use appscale_core::navigation::{
    match_path, NavigationAction, NavigationEvent, Navigator, Presentation, RouteDefinition, RouteOptions,
};
use std::collections::HashMap;

fn setup_navigator() -> Navigator {
    let mut nav = Navigator::new();
    nav.register_route(RouteDefinition {
        name: "Home".to_string(),
        path: Some("/".to_string()),
        presentation: Presentation::Push,
        options: RouteOptions::default(),
    });
    nav.register_route(RouteDefinition {
        name: "Profile".to_string(),
        path: Some("/profile/:id".to_string()),
        presentation: Presentation::Push,
        options: RouteOptions { gesture_enabled: true, ..Default::default() },
    });
    nav.register_route(RouteDefinition {
        name: "Settings".to_string(),
        path: Some("/settings".to_string()),
        presentation: Presentation::Modal,
        options: RouteOptions::default(),
    });

    nav.dispatch(NavigationAction::Push { route: "Home".to_string(), params: HashMap::new() });

    nav
}

#[test]
fn test_push_and_pop() {
    let mut nav = setup_navigator();
    assert_eq!(nav.stack_len(), 1);

    nav.dispatch(NavigationAction::Push {
        route: "Profile".to_string(),
        params: [("id".to_string(), "42".to_string())].into(),
    });
    assert_eq!(nav.stack_len(), 2);
    assert_eq!(nav.active_screen().unwrap().route_name, "Profile");

    nav.dispatch(NavigationAction::Pop);
    assert_eq!(nav.stack_len(), 1);
    assert_eq!(nav.active_screen().unwrap().route_name, "Home");
}

#[test]
fn test_modal() {
    let mut nav = setup_navigator();

    nav.dispatch(NavigationAction::PresentModal { route: "Settings".to_string(), params: HashMap::new() });
    assert_eq!(nav.modal_count(), 1);
    assert_eq!(nav.active_screen().unwrap().route_name, "Settings");

    nav.dispatch(NavigationAction::GoBack);
    assert_eq!(nav.modal_count(), 0);
    assert_eq!(nav.active_screen().unwrap().route_name, "Home");
}

#[test]
fn test_deep_link() {
    let mut nav = setup_navigator();

    nav.dispatch(NavigationAction::DeepLink { url: "/profile/99".to_string() });
    assert_eq!(nav.stack_len(), 2);
    assert_eq!(nav.active_screen().unwrap().params.get("id").unwrap(), "99");
}

#[test]
fn test_cannot_pop_root() {
    let mut nav = setup_navigator();
    nav.dispatch(NavigationAction::Pop);
    assert_eq!(nav.stack_len(), 1);
}

#[test]
fn test_path_matching() {
    let params = match_path("/profile/:id", "/profile/123").unwrap();
    assert_eq!(params.get("id").unwrap(), "123");

    assert!(match_path("/profile/:id", "/settings").is_none());
    assert!(match_path("/a/:b/:c", "/a/1/2").is_some());
}

#[test]
fn path_matching_strips_query_and_binds_all_params() {
    let params = match_path("/a/:b/:c", "/a/1/2?x=y").unwrap();
    assert_eq!(params.len(), 2);
    assert_eq!(params.get("b").unwrap(), "1");
    assert_eq!(params.get("c").unwrap(), "2");
    assert!(match_path("/a/:b", "/a/1/2").is_none());
    assert_eq!(match_path("/settings", "/settings").unwrap().len(), 0);
}

#[test]
fn push_then_pop_restores_stack() {
    let mut nav = setup_navigator();
    let before: Vec<u64> = nav.stack_snapshot().iter().map(|s| s.id.0).collect();
    nav.dispatch(NavigationAction::Push { route: "Profile".to_string(), params: HashMap::new() });
    assert!(nav.can_go_back());
    nav.dispatch(NavigationAction::Pop);
    let after: Vec<u64> = nav.stack_snapshot().iter().map(|s| s.id.0).collect();
    assert_eq!(before, after);
    assert!(!nav.can_go_back());
}

#[test]
fn push_does_not_look_up_the_route() {
    let mut nav = setup_navigator();
    let events = nav.dispatch(NavigationAction::Push { route: "Nowhere".to_string(), params: HashMap::new() });
    assert!(!events.is_empty());
    assert_eq!(nav.stack_len(), 2);
    assert_eq!(nav.active_screen().unwrap().route_name, "Nowhere");
}

#[test]
fn push_reports_mount_and_activation() {
    let mut nav = setup_navigator();
    let events = nav.dispatch(NavigationAction::Push { route: "Profile".to_string(), params: HashMap::new() });
    assert!(events.iter().any(|e| matches!(e, NavigationEvent::ScreenMounted { route_name, .. } if route_name == "Profile")));
    assert!(events.iter().any(|e| matches!(e, NavigationEvent::StateChanged { stack_depth: 2, active_route } if active_route == "Profile")));
}

#[test]
fn screen_ids_are_unique() {
    let mut nav = setup_navigator();
    nav.dispatch(NavigationAction::Push { route: "Profile".to_string(), params: HashMap::new() });
    nav.dispatch(NavigationAction::PresentModal { route: "Settings".to_string(), params: HashMap::new() });
    let ids: Vec<u64> = nav.stack_snapshot().iter().map(|s| s.id.0).collect();
    assert_eq!(ids.len(), 3);
    assert_eq!(*ids.last().unwrap(), nav.active_screen().unwrap().id.0);
    let mut sorted = ids.clone();
    sorted.sort();
    sorted.dedup();
    assert_eq!(sorted.len(), ids.len());
}

#[test]
fn pop_to_root_keeps_only_root() {
    let mut nav = setup_navigator();
    nav.dispatch(NavigationAction::Push { route: "Profile".to_string(), params: HashMap::new() });
    nav.dispatch(NavigationAction::Push { route: "Profile".to_string(), params: HashMap::new() });
    nav.dispatch(NavigationAction::PopToRoot);
    assert_eq!(nav.stack_len(), 1);
    assert_eq!(nav.active_screen().unwrap().route_name, "Home");
}

#[test]
fn replace_swaps_top_screen() {
    let mut nav = setup_navigator();
    nav.dispatch(NavigationAction::Push { route: "Profile".to_string(), params: HashMap::new() });
    nav.dispatch(NavigationAction::Replace { route: "Settings".to_string(), params: HashMap::new() });
    assert_eq!(nav.stack_len(), 2);
    assert_eq!(nav.active_screen().unwrap().route_name, "Settings");
}

#[test]
fn dismiss_modal_without_modal_changes_nothing() {
    let mut nav = setup_navigator();
    nav.dispatch(NavigationAction::DismissModal);
    assert_eq!(nav.modal_count(), 0);
    assert_eq!(nav.stack_len(), 1);
}

#[test]
fn deep_link_to_unknown_path_changes_nothing() {
    let mut nav = setup_navigator();
    nav.dispatch(NavigationAction::DeepLink { url: "/nowhere/1".to_string() });
    assert_eq!(nav.stack_len(), 1);
}

#[test]
fn go_back_with_modal_reports_its_dismissal() {
    let mut nav = setup_navigator();
    nav.dispatch(NavigationAction::PresentModal { route: "Settings".to_string(), params: HashMap::new() });
    let modal_id = nav.active_screen().unwrap().id;
    let events = nav.dispatch(NavigationAction::GoBack);
    assert!(matches!(events.first(), Some(NavigationEvent::ScreenUnmounting { screen_id }) if *screen_id == modal_id));
    assert!(events.iter().any(|e| matches!(e, NavigationEvent::StateChanged { stack_depth: 1, active_route } if active_route == "Home")));
    assert_eq!(nav.modal_count(), 0);
    assert!(nav.stack_snapshot().iter().all(|s| s.id != modal_id));
}

#[test]
fn later_parameter_of_the_same_name_wins() {
    let m = match_path("/a/:x/:x", "/a/1/2?q=3").unwrap();
    assert_eq!(m.len(), 1);
    assert_eq!(m.get("x").unwrap(), "2");
}
