use aggregator::http::{not_found_body, route, status_of, Route, JSON_CONTENT_TYPE};

#[test]
fn http_routes() {
    assert!(matches!(route("/holdings/aaaaa-aa"), Route::Holdings(p) if p == "aaaaa-aa"));
    assert!(matches!(route("/summary/aaaaa-aa?x=1"), Route::Summary(p) if p == "aaaaa-aa"));
    assert!(matches!(route("/metrics"), Route::Metrics));
    assert!(matches!(route("//metrics?format=json"), Route::Metrics));
    assert!(matches!(route("/graphql"), Route::Graphql));
}

#[test]
fn http_dispatch_not_found() {
    let bad = route("/holdings/not-a-principal");
    assert!(matches!(bad, Route::NotFound));
    assert_eq!(status_of(&bad), 404);
    let unknown = route("/unknown");
    assert!(matches!(unknown, Route::NotFound));
    assert_eq!(status_of(&unknown), 404);
    assert_eq!(not_found_body(), "{\"error\":\"not found\"}");
    assert_eq!(JSON_CONTENT_TYPE, "application/json");
    assert!(matches!(route("/holdings/aaaaa-aa/extra"), Route::NotFound));
    assert!(matches!(route("/summary/"), Route::NotFound));
    assert_eq!(status_of(&route("/metrics")), 200);
}
