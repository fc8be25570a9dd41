use crab_router::NodeType;

#[test]
fn satoshi_is_core() {
    assert_eq!(NodeType::from_user_agent(b"/Satoshi:25.0/"), NodeType::Core);
}

#[test]
fn knots_is_knots() {
    assert_eq!(NodeType::from_user_agent(b"/Knots:25.0/"), NodeType::Knots);
}

#[test]
fn libre_relay_is_libre() {
    assert_eq!(NodeType::from_user_agent(b"/Libre Relay:1.2/"), NodeType::LibreRelay);
}

#[test]
fn unmatched_agent_is_other() {
    assert_eq!(NodeType::from_user_agent(b"/Foo:1.0/"), NodeType::Other);
}

#[test]
fn classification_is_case_insensitive() {
    assert_eq!(NodeType::from_user_agent(b"/KNOTS:99/"), NodeType::Knots);
    assert_eq!(NodeType::from_user_agent(b"/sAtOsHi:1/"), NodeType::Core);
    assert_eq!(NodeType::from_user_agent(b"/LIBRE relay/"), NodeType::LibreRelay);
    assert_eq!(NodeType::from_user_agent(b"/CORE thing/"), NodeType::Core);
}

#[test]
fn knots_wins_over_core() {
    assert_eq!(NodeType::from_user_agent(b"/Satoshi Knots:25/"), NodeType::Knots);
}

#[test]
fn empty_agent_is_other() {
    assert_eq!(NodeType::from_user_agent(b""), NodeType::Other);
}

#[test]
fn labels_are_stable() {
    assert_eq!(NodeType::Unknown.as_str(), "unknown");
    assert_eq!(NodeType::Knots.as_str(), "knots");
    assert_eq!(NodeType::Core.as_str(), "core");
    assert_eq!(NodeType::LibreRelay.as_str(), "libre");
    assert_eq!(NodeType::Other.as_str(), "other");
}
