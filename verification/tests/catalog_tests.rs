use ostrail::catalog::{
    auth_tokens_url, find_endpoint, parse_catalog, service_url, CatalogEndpoint, CatalogService,
};

fn endpoint(interface: &str, region: &str, url: &str) -> CatalogEndpoint {
    CatalogEndpoint {
        url: Some(url.to_string()),
        interface: Some(interface.to_string()),
        region: Some(region.to_string()),
    }
}

fn sample_catalog() -> Option<Vec<CatalogService>> {
    Some(vec![CatalogService {
        service_type: Some("compute".to_string()),
        endpoints: Some(vec![
            endpoint("admin", "RegionOne", "http://admin:8774/v2.1"),
            endpoint("public", "RegionOne", "http://public:8774/v2.1"),
        ]),
    }])
}

#[test]
fn parse_catalog_prefers_public_interface() {
    let endpoints = parse_catalog(&sample_catalog(), None);
    assert!(find_endpoint(&endpoints, "compute").unwrap().contains("public"));
}

#[test]
fn parse_catalog_filters_by_region() {
    let endpoints = parse_catalog(&sample_catalog(), Some("RegionOne"));
    assert_eq!(find_endpoint(&endpoints, "compute").unwrap(), "http://public:8774/v2.1");
}

#[test]
fn parse_catalog_skips_other_regions_and_incomplete_entries() {
    let catalog = Some(vec![
        CatalogService {
            service_type: Some("network".to_string()),
            endpoints: Some(vec![
                endpoint("public", "RegionTwo", "http://two:9696"),
                endpoint("internal", "RegionOne", "http://one-internal:9696"),
                CatalogEndpoint { url: None, interface: Some("public".to_string()), region: None },
                CatalogEndpoint {
                    url: Some("http://any-region:9696".to_string()),
                    interface: Some("public".to_string()),
                    region: None,
                },
            ]),
        },
        CatalogService { service_type: None, endpoints: Some(vec![endpoint("public", "RegionOne", "http://x")]) },
        CatalogService { service_type: Some("image".to_string()), endpoints: None },
        CatalogService {
            service_type: Some("volume".to_string()),
            endpoints: Some(vec![endpoint("public", "RegionTwo", "http://vol")]),
        },
    ]);
    let endpoints = parse_catalog(&catalog, Some("RegionOne"));
    assert_eq!(endpoints.len(), 1);
    assert_eq!(find_endpoint(&endpoints, "network").unwrap(), "http://any-region:9696");
    assert!(find_endpoint(&endpoints, "image").is_none());
    assert!(find_endpoint(&endpoints, "volume").is_none());
    let anywhere = parse_catalog(&catalog, None);
    assert_eq!(find_endpoint(&anywhere, "network").unwrap(), "http://two:9696");
    assert_eq!(find_endpoint(&anywhere, "volume").unwrap(), "http://vol");
}

#[test]
fn parse_catalog_later_service_of_same_type_wins_and_no_catalog_is_empty() {
    let catalog = Some(vec![
        CatalogService {
            service_type: Some("compute".to_string()),
            endpoints: Some(vec![endpoint("internal", "R", "http://first")]),
        },
        CatalogService {
            service_type: Some("compute".to_string()),
            endpoints: Some(vec![endpoint("internal", "R", "http://second")]),
        },
    ]);
    let endpoints = parse_catalog(&catalog, None);
    assert_eq!(endpoints, vec![("compute".to_string(), "http://second".to_string())]);
    assert!(parse_catalog(&None, None).is_empty());
}

#[test]
fn urls_drop_trailing_slashes() {
    assert_eq!(auth_tokens_url("http://ks:5000/v3//"), "http://ks:5000/v3/auth/tokens");
    assert_eq!(auth_tokens_url("http://ks:5000/v3"), "http://ks:5000/v3/auth/tokens");
    let endpoints = vec![("compute".to_string(), "http://nova/v2.1/".to_string())];
    assert_eq!(service_url(&endpoints, "compute", "/os-services").unwrap(), "http://nova/v2.1/os-services");
    assert_eq!(
        service_url(&endpoints, "network", "/v2.0/agents").unwrap_err(),
        "no 'network' endpoint in this cloud's service catalog"
    );
}

#[test]
fn login_body_is_the_keystone_password_request() {
    let auth = ostrail::auth::CloudAuth {
        auth_url: "http://ks/v3".to_string(),
        username: "ad\"min".to_string(),
        password: "pa\\ss\n".to_string(),
        project_name: "demo".to_string(),
        user_domain_name: "Default".to_string(),
        project_domain_name: "pd".to_string(),
        region_name: None,
    };
    let body = ostrail::catalog::login_request_body(&auth);
    assert_eq!(
        body,
        r#"{"auth":{"identity":{"methods":["password"],"password":{"user":{"domain":{"name":"Default"},"name":"ad\"min","password":"pa\\ss\n"}}},"scope":{"project":{"domain":{"name":"pd"},"name":"demo"}}}}"#
    );
    let parsed: serde_json::Value = serde_json::from_str(&body).unwrap();
    assert_eq!(parsed["auth"]["identity"]["password"]["user"]["password"], "pa\\ss\n");
    assert_eq!(parsed["auth"]["scope"]["project"]["name"], "demo");
}
