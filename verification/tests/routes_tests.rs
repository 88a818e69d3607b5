use clipture::routes::{router, Route, RouteKind};

#[test]
fn test_rspc_router() {
    router();
}

#[test]
fn mod_test_rspc_router() {
    router();
}

#[test]
fn route_table_lists_every_route_in_mounting_order() {
    let table: Vec<Route> = router();
    let got: Vec<(String, RouteKind)> = table.into_iter().map(|r| (r.name, r.kind)).collect();
    let want = vec![
        ("auth.sign_in".to_string(), RouteKind::Mutation),
        ("auth.sign_out".to_string(), RouteKind::Mutation),
        ("auth.is_logged_in".to_string(), RouteKind::Query),
        ("auth.open_auth_window".to_string(), RouteKind::Query),
        ("bootstrap.initialize".to_string(), RouteKind::Subscription),
        ("bootstrap.show_or_create_main".to_string(), RouteKind::Query),
        ("game_detect.game_open".to_string(), RouteKind::Subscription),
        ("obs.preview.create".to_string(), RouteKind::Mutation),
        ("obs.preview.set_pos".to_string(), RouteKind::Mutation),
        ("obs.preview.set_size".to_string(), RouteKind::Mutation),
        ("obs.preview.destroy".to_string(), RouteKind::Mutation),
    ];
    assert_eq!(got, want);
}
