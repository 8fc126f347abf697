use garfutils::location::{DirProbe, Location, LocationError, Subpath};

fn all_good() -> DirProbe {
    DirProbe {
        base_is_dir: true,
        source_is_dir: true,
        generated_is_dir: true,
        posts_is_dir: true,
        old_is_dir: true,
        watermarks_is_file: true,
        icon_is_file: true,
    }
}

#[test]
fn resolve_succeeds_when_all_paths_present() {
    let loc = Location::from(String::from("/data/garfutils"), &all_good())
        .expect("resolution should succeed");
    assert_eq!(loc.source_dir(), "/data/garfutils/source");
    assert_eq!(loc.generated_dir(), "/data/garfutils/generated");
    assert_eq!(loc.posts_dir(), "/data/garfutils/posts");
    assert_eq!(loc.old_dir(), "/data/garfutils/old");
    assert_eq!(loc.temp_dir(), "/data/garfutils/tmp");
    assert_eq!(loc.recent_file(), "/data/garfutils/recent");
    assert_eq!(loc.watermarks_file(), "/data/garfutils/watermarks");
    assert_eq!(loc.icon_file(), "/data/garfutils/icon.png");
}

#[test]
fn resolve_fails_when_base_missing() {
    let mut probe = all_good();
    probe.base_is_dir = false;
    let r = Location::from(String::from("/nowhere"), &probe);
    assert!(matches!(r, Err(LocationError::InvalidLocation)));
}

#[test]
fn resolve_fails_when_subdirectory_missing() {
    let mut probe = all_good();
    probe.generated_is_dir = false;
    let r = Location::from(String::from("/data/garfutils"), &probe);
    assert!(matches!(
        r,
        Err(LocationError::MissingSubpath(Subpath::Generated))
    ));
}

#[test]
fn resolve_fails_when_watermarks_missing() {
    let mut probe = all_good();
    probe.watermarks_is_file = false;
    let r = Location::from(String::from("/data/garfutils"), &probe);
    assert!(matches!(
        r,
        Err(LocationError::MissingSubpath(Subpath::Watermarks))
    ));
}

#[test]
fn resolve_reports_first_violation_only() {
    let mut probe = all_good();
    probe.source_is_dir = false;
    probe.watermarks_is_file = false;
    let r = Location::from(String::from("/data/garfutils"), &probe);
    assert!(matches!(r, Err(LocationError::MissingSubpath(Subpath::Source))));
}

#[test]
fn base_dir_prefers_explicit_override() {
    let r = Location::get_base_dir(
        Some(String::from("/custom")),
        Some(String::from("/home/u/.local/share")),
    );
    assert_eq!(r, Ok(String::from("/custom")));
}

#[test]
fn base_dir_falls_back_to_data_directory() {
    let r = Location::get_base_dir(None, Some(String::from("/home/u/.local/share")));
    assert_eq!(r, Ok(String::from("/home/u/.local/share/garfutils")));
}

#[test]
fn base_dir_fails_without_any_location() {
    let r = Location::get_base_dir(None, None);
    assert_eq!(r, Err(LocationError::NoStandardLocation));
}

#[test]
fn structure_diagram_names_the_base() {
    let loc = Location::from(String::from("/data/garfutils"), &all_good()).unwrap();
    let diagram = loc.format_dir_structure();
    assert!(diagram.contains("/data/garfutils"));
    assert!(diagram.contains("source"));
    assert!(diagram.contains("watermarks"));
    assert!(diagram.contains("icon.png"));
}

#[test]
fn subpath_names_match_layout() {
    assert_eq!(Subpath::Source.name(), "source");
    assert_eq!(Subpath::Generated.name(), "generated");
    assert_eq!(Subpath::Posts.name(), "posts");
    assert_eq!(Subpath::Old.name(), "old");
    assert_eq!(Subpath::Watermarks.name(), "watermarks");
    assert_eq!(Subpath::Icon.name(), "icon.png");
}
