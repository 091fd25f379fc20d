use server_game::server::format_app_version;

#[test]
fn tests_no_build_id_is_three_numbers_only() {
    assert_eq!(format_app_version("0.1.0", None), "0.1.0");
}

#[test]
fn tests_empty_build_id_is_treated_as_absent() {
    assert_eq!(format_app_version("0.1.0", Some("")), "0.1.0");
}

#[test]
fn tests_build_id_appends_as_semver_build_metadata() {
    assert_eq!(format_app_version("0.1.0", Some("a1c9f02")), "0.1.0+a1c9f02");
}

#[test]
fn main_no_build_id_is_three_numbers_only() {
    assert_eq!(format_app_version("0.1.0", None), "0.1.0");
}

#[test]
fn main_empty_build_id_is_treated_as_absent() {
    assert_eq!(format_app_version("0.1.0", Some("")), "0.1.0");
}

#[test]
fn main_build_id_appends_as_semver_build_metadata() {
    assert_eq!(format_app_version("0.1.0", Some("a1c9f02")), "0.1.0+a1c9f02");
}
