use ostrail::auth::{
    default_domain, discover, CloudEntry, CloudEntryAuth, CloudEnv, CloudsFile,
};

fn env(complete: bool, cloud: Option<&str>) -> CloudEnv {
    let s = |v: &str| if complete { Some(v.to_string()) } else { None };
    CloudEnv {
        auth_url: s("http://env:5000/v3"),
        username: s("admin"),
        password: s("secret"),
        project_name: s("demo"),
        user_domain_name: None,
        project_domain_name: Some("projdom".to_string()),
        region_name: None,
        cloud: cloud.map(|c| c.to_string()),
    }
}

fn entry(url: &str) -> CloudEntry {
    CloudEntry {
        auth: CloudEntryAuth {
            auth_url: url.to_string(),
            username: "u".to_string(),
            password: "p".to_string(),
            project_name: "pr".to_string(),
            user_domain_name: default_domain(),
            project_domain_name: "Other".to_string(),
        },
        region_name: Some("RegionOne".to_string()),
    }
}

fn file(names: &[&str]) -> CloudsFile {
    CloudsFile { clouds: names.iter().map(|n| (n.to_string(), entry(&format!("http://{n}")))).collect() }
}

#[test]
fn environment_wins_and_domains_default() {
    let files = vec![Some(file(&["a"]))];
    let auth = discover(&env(true, None), &files).unwrap();
    assert_eq!(auth.auth_url, "http://env:5000/v3");
    assert_eq!(auth.username, "admin");
    assert_eq!(auth.user_domain_name, "Default");
    assert_eq!(auth.project_domain_name, "projdom");
    assert_eq!(auth.region_name, None);
}

#[test]
fn incomplete_environment_falls_back_to_clouds_yaml() {
    let mut partial = env(true, None);
    partial.password = None;
    let files = vec![None, Some(file(&["first", "second"])), Some(file(&["third"]))];
    let auth = discover(&partial, &files).unwrap();
    assert_eq!(auth.auth_url, "http://first");
    assert_eq!(auth.project_domain_name, "Other");
    assert_eq!(auth.region_name.as_deref(), Some("RegionOne"));
}

#[test]
fn os_cloud_selects_by_name_and_the_first_parsed_file_decides() {
    let files = vec![Some(file(&["first", "second"])), Some(file(&["third"]))];
    let auth = discover(&env(false, Some("second")), &files).unwrap();
    assert_eq!(auth.auth_url, "http://second");
    // "third" lives only in a later file: the search stops at the first one
    assert!(discover(&env(false, Some("third")), &files).is_none());
    assert!(discover(&env(false, None), &vec![None, None]).is_none());
    assert!(discover(&env(false, None), &vec![Some(file(&[]))]).is_none());
}

#[test]
fn default_domain_is_default() {
    assert_eq!(default_domain(), "Default");
}

#[test]
fn the_search_stops_at_the_first_parsed_file() {
    assert!(ostrail::auth::needs_more_files(&vec![]));
    assert!(ostrail::auth::needs_more_files(&vec![None, None]));
    assert!(!ostrail::auth::needs_more_files(&vec![None, Some(file(&[]))]));
    assert!(ostrail::auth::discover_from_env(&env(false, None)).is_none());
    assert!(ostrail::auth::discover_from_env(&env(true, None)).is_some());
}
