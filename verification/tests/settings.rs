use work_logr::config::{profile_variable_name, Config, ConfigError};

fn vars(pairs: &[(&str, &str)]) -> Vec<(String, String)> {
    pairs.iter().map(|(k, v)| (k.to_string(), v.to_string())).collect()
}

#[test]
fn loads_bare_environment_variables_without_a_profile() {
    let env = vars(&[
        ("GITHUB_TOKEN", "bare-token"),
        ("GITHUB_OWNER", "bare-owner"),
        ("GITHUB_REPO", "bare-repo"),
        ("GITHUB_USER", "bare-user"),
    ]);

    let config = Config::from_env(None, &env).expect("bare configuration should load");

    assert_eq!(config.github_token, "bare-token");
    assert_eq!(config.github_owner, "bare-owner");
    assert_eq!(config.github_repo, "bare-repo");
    assert_eq!(config.github_user, "bare-user");
}

#[test]
fn loads_profile_scoped_environment_variables() {
    let env = vars(&[
        ("WORKLOGR_ESTATE_GRID_GITHUB_TOKEN", "profile-token"),
        ("WORKLOGR_ESTATE_GRID_GITHUB_OWNER", "profile-owner"),
        ("WORKLOGR_ESTATE_GRID_GITHUB_REPO", "profile-repo"),
        ("WORKLOGR_ESTATE_GRID_GITHUB_USER", "profile-user"),
    ]);

    let config = Config::from_env(Some("estate-grid"), &env).expect("profile configuration should load");

    assert_eq!(config.github_token, "profile-token");
    assert_eq!(config.github_owner, "profile-owner");
    assert_eq!(config.github_repo, "profile-repo");
    assert_eq!(config.github_user, "profile-user");
}

#[test]
fn profile_missing_variable_error_names_variable_and_profile() {
    let env = vars(&[
        ("WORKLOGR_NSFAS_GITHUB_TOKEN", "profile-token"),
        ("WORKLOGR_NSFAS_GITHUB_OWNER", "profile-owner"),
        ("WORKLOGR_NSFAS_GITHUB_USER", "profile-user"),
    ]);

    let error = Config::from_env(Some("nsfas"), &env).expect_err("missing repo should fail");

    assert_eq!(
        error.message(),
        "Missing environment variable WORKLOGR_NSFAS_GITHUB_REPO for profile 'nsfas'"
    );
}

#[test]
fn bare_missing_variable_names_the_variable() {
    let env = vars(&[("GITHUB_TOKEN", "t")]);

    let error = Config::from_env(None, &env).expect_err("missing owner should fail");

    assert!(matches!(error, ConfigError::MissingVar(ref v) if v == "GITHUB_OWNER"));
    assert_eq!(error.message(), "Missing environment variable: GITHUB_OWNER");
}

#[test]
fn profile_names_are_upper_cased_with_other_characters_as_underscores() {
    assert_eq!(profile_variable_name("GITHUB_USER", Some("a.b-c9")), "WORKLOGR_A_B_C9_GITHUB_USER");
    assert_eq!(profile_variable_name("GITHUB_USER", None), "GITHUB_USER");
}
