use appscale_core::bridge::AsyncCall;
use appscale_core::navigation::NavigationAction;
use appscale_core::tree::NodeId;
use std::collections::HashMap;

fn navigate(action: &str, route: Option<&str>, url: Option<&str>, index: Option<usize>) -> AsyncCall {
    AsyncCall::Navigate {
        action: action.into(),
        route: route.map(|r| r.to_string()),
        params: HashMap::new(),
        url: url.map(|u| u.to_string()),
        index,
    }
}

#[test]
fn test_navigate_to_action_conversion() {
    let call = AsyncCall::Navigate {
        action: "push".into(),
        route: Some("Profile".into()),
        params: HashMap::new(),
        url: None,
        index: None,
    };
    let action = call.to_navigation_action().unwrap();
    match action {
        NavigationAction::Push { route, .. } => {
            assert_eq!(route, "Profile");
        }
        _ => panic!("wrong action"),
    }

    let call = AsyncCall::Navigate {
        action: "deepLink".into(),
        route: None,
        params: HashMap::new(),
        url: Some("myapp://profile/42".into()),
        index: None,
    };
    let action = call.to_navigation_action().unwrap();
    match action {
        NavigationAction::DeepLink { url } => {
            assert_eq!(url, "myapp://profile/42");
        }
        _ => panic!("wrong action"),
    }

    let call = AsyncCall::SetFocus { node_id: NodeId(1) };
    assert!(call.to_navigation_action().is_none());
}

#[test]
fn navigate_actions_without_their_argument_give_nothing() {
    assert!(navigate("push", None, None, None).to_navigation_action().is_none());
    assert!(navigate("replace", None, None, None).to_navigation_action().is_none());
    assert!(navigate("presentModal", None, None, None).to_navigation_action().is_none());
    assert!(navigate("switchTab", None, None, None).to_navigation_action().is_none());
    assert!(navigate("deepLink", None, None, None).to_navigation_action().is_none());
    assert!(navigate("fly", Some("Home"), None, None).to_navigation_action().is_none());
}

#[test]
fn navigate_simple_actions() {
    assert!(matches!(navigate("pop", None, None, None).to_navigation_action(), Some(NavigationAction::Pop)));
    assert!(matches!(
        navigate("popToRoot", None, None, None).to_navigation_action(),
        Some(NavigationAction::PopToRoot)
    ));
    assert!(matches!(
        navigate("dismissModal", None, None, None).to_navigation_action(),
        Some(NavigationAction::DismissModal)
    ));
    assert!(matches!(navigate("goBack", None, None, None).to_navigation_action(), Some(NavigationAction::GoBack)));
    assert!(matches!(
        navigate("switchTab", None, None, Some(2)).to_navigation_action(),
        Some(NavigationAction::SwitchTab { index: 2 })
    ));
    match navigate("replace", Some("Settings"), None, None).to_navigation_action() {
        Some(NavigationAction::Replace { route, .. }) => assert_eq!(route, "Settings"),
        _ => panic!("wrong action"),
    }
    match navigate("presentModal", Some("Login"), None, None).to_navigation_action() {
        Some(NavigationAction::PresentModal { route, .. }) => assert_eq!(route, "Login"),
        _ => panic!("wrong action"),
    }
}
