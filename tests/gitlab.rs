use gitlab_tokens_exporter::gitlab::{access_tokens_url, projects_url, AccessLevel, Project};

#[test]
fn access_level_ordinals_match_the_api() {
    assert_eq!(AccessLevel::Guest.ordinal(), 10);
    assert_eq!(AccessLevel::Reporter.ordinal(), 20);
    assert_eq!(AccessLevel::Developer.ordinal(), 30);
    assert_eq!(AccessLevel::Maintainer.ordinal(), 40);
    assert_eq!(AccessLevel::Owner.ordinal(), 50);
}

#[test]
fn access_level_round_trips_from_ordinal() {
    for level in [
        AccessLevel::Guest,
        AccessLevel::Reporter,
        AccessLevel::Developer,
        AccessLevel::Maintainer,
        AccessLevel::Owner,
    ] {
        assert_eq!(AccessLevel::from_ordinal(level.ordinal()), Some(level));
    }
}

#[test]
fn unknown_ordinals_have_no_level() {
    for n in [0u8, 5, 15, 25, 45, 60, 255] {
        assert_eq!(AccessLevel::from_ordinal(n), None);
    }
}

#[test]
fn access_level_labels_are_lowercase_names() {
    assert_eq!(AccessLevel::Guest.label(), "guest");
    assert_eq!(AccessLevel::Reporter.label(), "reporter");
    assert_eq!(AccessLevel::Developer.label(), "developer");
    assert_eq!(AccessLevel::Maintainer.label(), "maintainer");
    assert_eq!(AccessLevel::Owner.label(), "owner");
}

#[test]
fn projects_url_is_below_the_base() {
    assert_eq!(
        projects_url("https://git.example.com"),
        "https://git.example.com/api/v4/projects?per_page=100"
    );
}

#[test]
fn access_tokens_url_names_the_project_id() {
    let project = Project { id: 1, path_with_namespace: String::from("grp/app") };
    assert_eq!(
        access_tokens_url("https://git.example.com", &project),
        "https://git.example.com/api/v4/projects/1/access_tokens"
    );
    let project = Project { id: 4072, path_with_namespace: String::from("grp/lib") };
    assert_eq!(
        access_tokens_url("https://git.example.com", &project),
        "https://git.example.com/api/v4/projects/4072/access_tokens"
    );
    let project = Project { id: 0, path_with_namespace: String::from("grp/zero") };
    assert_eq!(
        access_tokens_url("https://git.example.com", &project),
        "https://git.example.com/api/v4/projects/0/access_tokens"
    );
    let project = Project { id: usize::MAX, path_with_namespace: String::from("grp/max") };
    assert_eq!(
        access_tokens_url("", &project),
        format!("/api/v4/projects/{}/access_tokens", usize::MAX)
    );
}
