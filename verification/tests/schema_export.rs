use gtk4_e2e_server::proto::advertised_capabilities;

#[test]
fn capabilities_order_is_stable() {
    let info = gtk4_e2e_server::Info {
        instance_id: "x".into(),
        pid: 0,
        port: 0,
        app_name: "x".into(),
        app_version: "x".into(),
        capabilities: vec![
            gtk4_e2e_server::Capability::Info,
            gtk4_e2e_server::Capability::Tap,
            gtk4_e2e_server::Capability::Wait,
            gtk4_e2e_server::Capability::Screenshot,
            gtk4_e2e_server::Capability::Events,
            gtk4_e2e_server::Capability::Type,
            gtk4_e2e_server::Capability::Swipe,
            gtk4_e2e_server::Capability::Elements,
        ],
        token_required: None,
    };
    assert_eq!(
        info.capabilities,
        vec![
            gtk4_e2e_server::Capability::Info,
            gtk4_e2e_server::Capability::Tap,
            gtk4_e2e_server::Capability::Wait,
            gtk4_e2e_server::Capability::Screenshot,
            gtk4_e2e_server::Capability::Events,
            gtk4_e2e_server::Capability::Type,
            gtk4_e2e_server::Capability::Swipe,
            gtk4_e2e_server::Capability::Elements,
        ]
    );
}

#[test]
fn advertised_capabilities_keep_introduction_order() {
    let caps = advertised_capabilities();
    assert_eq!(caps.len(), 11);
    assert_eq!(caps[0], gtk4_e2e_server::Capability::Info);
    assert_eq!(caps[4], gtk4_e2e_server::Capability::Events);
    assert_eq!(caps[5], gtk4_e2e_server::Capability::Type);
    assert_eq!(caps[10], gtk4_e2e_server::Capability::Focus);
}
