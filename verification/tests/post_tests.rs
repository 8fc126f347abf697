use garfutils::date::Date;
use garfutils::location::{DirProbe, Location};
use garfutils::post::{
    exists_post_with_date, generate_name, get_make_date, get_random_watermark,
    get_recent_date, get_revise_id, get_transcribe_id, is_id_sunday, make_checks,
    make_plan, read_last_line_as_date, revise_archive_check, revise_copy_files,
    should_save_transcript, source_file_name, transcribe_plan, transcript_template,
    IdError, MakeError, PostFiles, RecentError, ReviseError, SelectIdError,
};
use garfutils::select::PostInfo;
use rand::rngs::StdRng;
use rand::SeedableRng;

fn location() -> Location {
    let probe = DirProbe {
        base_is_dir: true,
        source_is_dir: true,
        generated_is_dir: true,
        posts_is_dir: true,
        old_is_dir: true,
        watermarks_is_file: true,
        icon_is_file: true,
    };
    Location::from(String::from("/data/garfutils"), &probe).unwrap()
}

fn date(y: u32, m: u32, d: u32) -> Date {
    Date::new(y, m, d).unwrap()
}

#[test]
fn id_sunday_rule() {
    assert_eq!(is_id_sunday("6"), Ok(true));
    assert_eq!(is_id_sunday("0"), Ok(false));
    assert_eq!(is_id_sunday("5"), Ok(false));
    assert_eq!(is_id_sunday("13"), Ok(true));
    assert_eq!(is_id_sunday("abc"), Err(IdError::NotAnInteger));
    assert_eq!(is_id_sunday(""), Err(IdError::NotAnInteger));
    assert_eq!(is_id_sunday("6a"), Err(IdError::NotAnInteger));
    assert_eq!(is_id_sunday("-6"), Err(IdError::NotAnInteger));
}

#[test]
fn make_checks_pass_on_a_fresh_date() {
    let d = date(2024, 1, 7);
    let generated: Vec<Option<String>> = Vec::new();
    let posts: Vec<Option<String>> = Vec::new();
    assert_eq!(make_checks(true, &generated, &posts, &d, false), Ok(()));
}

#[test]
fn make_checks_require_a_source_comic() {
    let d = date(2024, 1, 7);
    let generated: Vec<Option<String>> = Vec::new();
    let posts: Vec<Option<String>> = Vec::new();
    assert_eq!(
        make_checks(false, &generated, &posts, &d, false),
        Err(MakeError::NotARealComic)
    );
}

#[test]
fn make_checks_refuse_duplicate_generated_post() {
    let d = date(2024, 1, 7);
    let generated = vec![Some(String::from("2024-01-07"))];
    let posts: Vec<Option<String>> = Vec::new();
    assert_eq!(
        make_checks(true, &generated, &posts, &d, false),
        Err(MakeError::DuplicateGenerated)
    );
    // The duplicate check reads the date file with surrounding blanks.
    let generated = vec![Some(String::from("2024-01-07\n"))];
    assert_eq!(
        make_checks(true, &generated, &posts, &d, false),
        Err(MakeError::DuplicateGenerated)
    );
}

#[test]
fn make_checks_refuse_duplicate_completed_post_unless_overridden() {
    let d = date(2024, 1, 7);
    let generated: Vec<Option<String>> = Vec::new();
    let posts = vec![Some(String::from("2024-01-07"))];
    assert_eq!(
        make_checks(true, &generated, &posts, &d, false),
        Err(MakeError::DuplicateCompleted)
    );
    assert_eq!(make_checks(true, &generated, &posts, &d, true), Ok(()));
}

#[test]
fn duplicate_scan_skips_missing_and_malformed_date_files() {
    let d = date(2024, 1, 7);
    let files = vec![
        None,
        Some(String::from("not a date")),
        Some(String::from("2024-01-08")),
    ];
    assert!(!exists_post_with_date(&files, &d));
    let files = vec![None, Some(String::from("2024-01-07"))];
    assert!(exists_post_with_date(&files, &d));
}

#[test]
fn make_plan_lays_out_the_new_post() {
    let loc = location();
    let d = date(2024, 1, 7);
    let plan = make_plan(&loc, &d, "abcd:2024-01-07");
    assert_eq!(plan.source_image, "/data/garfutils/source/2024-01-07.png");
    assert_eq!(plan.output_dir, "/data/garfutils/generated/abcd:2024-01-07");
    assert_eq!(plan.date_file, "/data/garfutils/generated/abcd:2024-01-07/date");
    assert_eq!(plan.title_file, "/data/garfutils/generated/abcd:2024-01-07/title");
    assert_eq!(
        plan.initial_image,
        "/data/garfutils/generated/abcd:2024-01-07/esperanto.png"
    );
    assert_eq!(
        plan.duplicate_image,
        "/data/garfutils/generated/abcd:2024-01-07/english.png"
    );
    assert_eq!(plan.date_content, "2024-01-07");
}

#[test]
fn source_file_name_is_date_and_extension() {
    assert_eq!(source_file_name(&date(2024, 1, 7)), "2024-01-07.png");
}

#[test]
fn transcript_template_depends_on_sunday_rule() {
    // Id 6 is a Sunday comic: six placeholder lines.
    assert_eq!(
        transcript_template("6", None),
        Ok(String::from("---\n---\n---\n---\n---\n---"))
    );
    // Id 5 is a weekday comic: two placeholder lines.
    assert_eq!(transcript_template("5", None), Ok(String::from("---\n---")));
    assert_eq!(
        transcript_template("not-a-number", None),
        Err(IdError::NotAnInteger)
    );
    // An existing transcript is shown as it is, whatever the id.
    assert_eq!(
        transcript_template("not-a-number", Some("existing text")),
        Ok(String::from("existing text"))
    );
}

#[test]
fn unchanged_transcript_is_not_saved() {
    let template = "---\n---";
    assert!(!should_save_transcript(template, "---\n---"));
    assert!(should_save_transcript(template, "line one\nline two"));
    assert!(should_save_transcript(template, "---\n--- "));
}

#[test]
fn transcribe_plan_lays_out_the_paths() {
    let loc = location();
    let plan = transcribe_plan(&loc, "17");
    assert_eq!(plan.temp_file, "/data/garfutils/tmp/transcript.17");
    assert_eq!(plan.post_dir, "/data/garfutils/posts/17");
    assert_eq!(plan.transcript_file, "/data/garfutils/posts/17/transcript");
    assert_eq!(plan.initial_image, "/data/garfutils/posts/17/esperanto.png");
    assert_eq!(plan.duplicate_image, "/data/garfutils/posts/17/english.png");
}

#[test]
fn revision_copies_title_and_present_optionals() {
    let all = PostFiles {
        has_title: true,
        has_transcript: true,
        has_props: true,
        has_special: true,
        has_svg: true,
    };
    let files = revise_copy_files(&all).unwrap();
    assert_eq!(
        files,
        vec!["title", "transcript", "props", "special", "esperanto.svg"]
    );
    let minimal = PostFiles {
        has_title: true,
        has_transcript: false,
        has_props: false,
        has_special: false,
        has_svg: false,
    };
    assert_eq!(revise_copy_files(&minimal).unwrap(), vec!["title"]);
    let sparse = PostFiles {
        has_title: true,
        has_transcript: false,
        has_props: true,
        has_special: false,
        has_svg: true,
    };
    assert_eq!(
        revise_copy_files(&sparse).unwrap(),
        vec!["title", "props", "esperanto.svg"]
    );
}

#[test]
fn revision_requires_a_title_file() {
    let untitled = PostFiles {
        has_title: false,
        has_transcript: true,
        has_props: true,
        has_special: true,
        has_svg: true,
    };
    assert_eq!(revise_copy_files(&untitled), Err(ReviseError::MissingTitle));
}

#[test]
fn revision_refuses_an_already_archived_id() {
    assert_eq!(revise_archive_check(false), Ok(()));
    assert_eq!(revise_archive_check(true), Err(ReviseError::AlreadyRevised));
}

#[test]
fn watermark_is_one_of_the_lines() {
    let mut rng = StdRng::seed_from_u64(11);
    let content = "first mark\nsecond mark\nthird mark";
    let mut seen = [false; 3];
    for _ in 0..200 {
        let w = get_random_watermark(content, &mut rng).unwrap();
        let idx = ["first mark", "second mark", "third mark"]
            .iter()
            .position(|m| *m == w.as_str())
            .expect("watermark must be one of the lines");
        seen[idx] = true;
    }
    assert!(seen.iter().all(|s| *s));
    assert_eq!(get_random_watermark("", &mut rng), None);
    assert_eq!(
        get_random_watermark("only\r\n", &mut rng),
        Some(String::from("only"))
    );
}

#[test]
fn generated_name_encodes_date_and_weekday() {
    let mut rng = StdRng::seed_from_u64(9);
    // A Sunday: upper-case letters.
    let name = generate_name(&date(2024, 1, 7), &mut rng);
    assert_eq!(name.len(), 15);
    assert!(name[0..4].chars().all(|c| c.is_ascii_uppercase()));
    assert_eq!(&name[4..5], ":");
    assert_eq!(&name[5..], "2024-01-07");
    // A Monday: lower-case letters.
    let name = generate_name(&date(2024, 1, 8), &mut rng);
    assert!(name[0..4].chars().all(|c| c.is_ascii_lowercase()));
    assert_eq!(&name[5..], "2024-01-08");
}

#[test]
fn recent_date_is_last_date_line() {
    assert_eq!(
        read_last_line_as_date("2024-01-07\n2024-01-08\n"),
        Some(Date { year: 2024, month: 1, day: 8 })
    );
    assert_eq!(
        read_last_line_as_date("2024-01-07\n\n  \n"),
        Some(Date { year: 2024, month: 1, day: 7 })
    );
    assert_eq!(
        read_last_line_as_date("2024-01-07\nnot a date\n"),
        Some(Date { year: 2024, month: 1, day: 7 })
    );
    assert_eq!(read_last_line_as_date(""), None);
    assert_eq!(read_last_line_as_date("nothing here"), None);
}

#[test]
fn recent_errors_are_distinct() {
    assert_eq!(get_recent_date(None), Err(RecentError::CacheFileMissing));
    assert_eq!(get_recent_date(Some("")), Err(RecentError::NoRecentDate));
    assert_eq!(
        get_recent_date(Some("2024-01-07\n")),
        Ok(Date { year: 2024, month: 1, day: 7 })
    );
}

#[test]
fn make_date_uses_recent_cache_only_on_request() {
    let d = date(2024, 1, 7);
    assert_eq!(get_make_date(Some(d), false, None), Ok(d));
    assert_eq!(
        get_make_date(None, true, Some("2024-01-09\n")),
        Ok(Date { year: 2024, month: 1, day: 9 })
    );
    assert_eq!(
        get_make_date(None, true, None),
        Err(RecentError::CacheFileMissing)
    );
}

fn post(id: &str, has_svg: bool, has_transcript: bool, props: Option<&str>) -> PostInfo {
    PostInfo {
        id: String::from(id),
        has_svg,
        has_transcript,
        props: props.map(String::from),
    }
}

#[test]
fn revise_id_checks_the_given_id() {
    let posts = vec![post("a", false, false, None)];
    assert_eq!(
        get_revise_id(Some(String::from("a")), true, &posts),
        Ok(String::from("a"))
    );
    assert_eq!(
        get_revise_id(Some(String::from("b")), false, &posts),
        Err(SelectIdError::NoPostWithId)
    );
}

#[test]
fn revise_id_falls_back_to_selection() {
    let posts = vec![
        post("z-good", false, false, Some("good")),
        post("a-plain", false, false, None),
    ];
    assert_eq!(get_revise_id(None, false, &posts), Ok(String::from("z-good")));
    let done = vec![post("a", true, true, None)];
    assert_eq!(
        get_revise_id(None, false, &done),
        Err(SelectIdError::NoPostsToRevise)
    );
}

#[test]
fn transcribe_id_falls_back_to_selection() {
    let posts = vec![
        post("b-awaiting", true, false, None),
        post("a-unfinished", false, false, None),
    ];
    assert_eq!(
        get_transcribe_id(None, false, &posts),
        Ok(String::from("b-awaiting"))
    );
    let none = vec![post("a-unfinished", false, false, None)];
    assert_eq!(
        get_transcribe_id(None, false, &none),
        Err(SelectIdError::NoPostsToTranscribe)
    );
}
