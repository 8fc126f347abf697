use garfutils::date::Date;
use garfutils::range::DateRange;
use garfutils::select::{
    entry_matches_date_range_and_weekday, find_child, find_post, find_unrevised_post,
    find_untranscribed_post, get_date_from_path, get_random_date,
    get_random_directory_entry, get_show_date, get_show_input, is_post_good,
    pick_random_source, sort_dir_entries, PostCriterion, PostInfo, ShowInput,
};
use rand::rngs::StdRng;
use rand::SeedableRng;

fn post(id: &str, has_svg: bool, has_transcript: bool, props: Option<&str>) -> PostInfo {
    PostInfo {
        id: String::from(id),
        has_svg,
        has_transcript,
        props: props.map(String::from),
    }
}

fn names(list: &[&str]) -> Vec<String> {
    list.iter().map(|s| String::from(*s)).collect()
}

#[test]
fn date_from_path_reads_the_stem() {
    assert_eq!(
        get_date_from_path("2024-01-07.png"),
        Some(Date { year: 2024, month: 1, day: 7 })
    );
    assert_eq!(
        get_date_from_path("2024-01-07"),
        Some(Date { year: 2024, month: 1, day: 7 })
    );
    assert_eq!(get_date_from_path("cover.png"), None);
    assert_eq!(get_date_from_path(".png"), None);
    assert_eq!(get_date_from_path("2024-01-07.backup.png"), None);
    assert_eq!(get_date_from_path(""), None);
}

#[test]
fn entry_matching_honours_range_and_sunday() {
    let march = DateRange::parse("03-01..03-15").unwrap();
    // 2024-03-03 was a Sunday; 2024-03-04 a Monday.
    assert!(entry_matches_date_range_and_weekday("2024-03-03.png", &march, false));
    assert!(entry_matches_date_range_and_weekday("2024-03-03.png", &march, true));
    assert!(entry_matches_date_range_and_weekday("2024-03-04.png", &march, false));
    assert!(!entry_matches_date_range_and_weekday("2024-03-04.png", &march, true));
    assert!(!entry_matches_date_range_and_weekday("2024-04-01.png", &march, false));
    assert!(!entry_matches_date_range_and_weekday("junk.png", &march, false));
}

#[test]
fn pick_random_source_none_iff_no_entry_passes() {
    let mut rng = StdRng::seed_from_u64(7);
    let all = DateRange::all();
    let entries = names(&["junk.txt", "cover.png"]);
    assert_eq!(pick_random_source(&entries, &all, false, &mut rng), None);
    let empty: Vec<String> = Vec::new();
    assert_eq!(pick_random_source(&empty, &all, false, &mut rng), None);
    let entries = names(&["2024-01-08.png"]);
    // The only entry is a Monday: restricting to Sundays leaves nothing.
    assert_eq!(pick_random_source(&entries, &all, true, &mut rng), None);
    assert_eq!(
        pick_random_source(&entries, &all, false, &mut rng),
        Some(String::from("2024-01-08.png"))
    );
}

#[test]
fn pick_random_source_is_uniform_over_passing_entries() {
    // Three of five entries pass; with a fixed seed, each passing entry
    // must come up close to a third of the time and no other entry at all.
    let entries = names(&[
        "2024-01-07.png",
        "junk.txt",
        "2024-01-08.png",
        "cover.png",
        "2024-01-09.png",
    ]);
    let all = DateRange::all();
    let mut rng = StdRng::seed_from_u64(42);
    let mut counts = [0usize; 3];
    let passing = ["2024-01-07.png", "2024-01-08.png", "2024-01-09.png"];
    let trials = 9000;
    for _ in 0..trials {
        let picked = pick_random_source(&entries, &all, false, &mut rng)
            .expect("entries pass, so something is picked");
        let idx = passing
            .iter()
            .position(|p| *p == picked.as_str())
            .expect("only passing entries may be picked");
        counts[idx] += 1;
    }
    for c in counts {
        // Expected 3000 each; allow a generous band for randomness.
        assert!(c > 2500 && c < 3500, "distribution is not uniform: {:?}", counts);
    }
}

#[test]
fn random_date_comes_from_a_passing_entry() {
    let entries = names(&["2024-03-03.png", "2024-03-04.png", "junk.txt"]);
    let march = DateRange::parse("03-01..03-15").unwrap();
    let mut rng = StdRng::seed_from_u64(1);
    for _ in 0..50 {
        let d = get_random_date(&entries, &march, true, &mut rng)
            .expect("a Sunday entry exists");
        assert_eq!(d, Date { year: 2024, month: 3, day: 3 });
    }
    let none = get_random_date(&names(&["junk.txt"]), &march, false, &mut rng);
    assert_eq!(none, None);
}

#[test]
fn show_input_combines_arguments() {
    let d = Date { year: 2024, month: 1, day: 7 };
    assert!(matches!(
        get_show_input(Some(d), None, false),
        ShowInput::Exact { .. }
    ));
    let march = DateRange::parse("03-01..03-15").unwrap();
    assert!(matches!(
        get_show_input(None, Some(march), true),
        ShowInput::Range { sunday: true, .. }
    ));
    assert!(matches!(
        get_show_input(None, None, true),
        ShowInput::Any { sunday: true }
    ));
}

#[test]
fn show_date_returns_exact_date_unchanged() {
    let d = Date { year: 2024, month: 1, day: 7 };
    let mut rng = StdRng::seed_from_u64(3);
    let entries: Vec<String> = Vec::new();
    let r = get_show_date(&entries, ShowInput::Exact { date: d }, &mut rng);
    assert_eq!(r, Some(d));
}

#[test]
fn random_directory_entry_none_only_when_empty() {
    let mut rng = StdRng::seed_from_u64(5);
    let empty: Vec<String> = Vec::new();
    assert_eq!(get_random_directory_entry(&empty, &mut rng), None);
    let entries = names(&["a", "b"]);
    let picked = get_random_directory_entry(&entries, &mut rng).unwrap();
    assert!(picked == "a" || picked == "b");
}

#[test]
fn post_goodness_reads_props_lines() {
    assert!(is_post_good(&post("p", false, false, Some("good"))));
    assert!(is_post_good(&post("p", false, false, Some("other\ngood\n"))));
    assert!(is_post_good(&post("p", false, false, Some("  good  "))));
    assert!(!is_post_good(&post("p", false, false, Some("goodness"))));
    assert!(!is_post_good(&post("p", false, false, Some(""))));
    assert!(!is_post_good(&post("p", false, false, None)));
}

#[test]
fn find_child_returns_alphabetically_first_match() {
    let posts = vec![
        post("zeta", false, false, None),
        post("alpha", false, false, None),
        post("mid", true, false, None),
    ];
    let r = find_child(&posts, &PostCriterion::Unrevised);
    assert_eq!(r, Some(String::from("alpha")));
    let none = find_child(&posts, &PostCriterion::Untranscribed);
    assert_eq!(none, Some(String::from("mid")));
    let all_svg = vec![post("a", true, true, None)];
    assert_eq!(find_child(&all_svg, &PostCriterion::Unrevised), None);
}

#[test]
fn find_post_tries_criteria_in_order() {
    // "early" satisfies only the second criterion and sorts first;
    // "late" satisfies the first criterion. The first criterion wins
    // even though a different entry would sort earlier.
    let posts = vec![
        post("early", false, false, None),
        post("late", false, false, Some("good")),
    ];
    let criteria = vec![PostCriterion::GoodUnrevised, PostCriterion::Unrevised];
    let r = find_post(&posts, &criteria);
    assert_eq!(r, Some(String::from("late")));
    // Only when no entry satisfies the first criterion does the second
    // apply.
    let posts = vec![
        post("early", false, false, None),
        post("late", false, false, None),
    ];
    let r = find_post(&posts, &criteria);
    assert_eq!(r, Some(String::from("early")));
}

#[test]
fn find_unrevised_prefers_good_posts() {
    let posts = vec![
        post("a-plain", false, false, None),
        post("b-good", false, false, Some("good")),
        post("c-done", true, false, Some("good")),
    ];
    assert_eq!(find_unrevised_post(&posts), Some(String::from("b-good")));
    let posts = vec![post("only", true, false, None)];
    assert_eq!(find_unrevised_post(&posts), None);
}

#[test]
fn find_untranscribed_wants_finished_posts() {
    let posts = vec![
        post("a-unfinished", false, false, None),
        post("b-done", true, true, None),
        post("c-awaiting", true, false, None),
    ];
    assert_eq!(find_untranscribed_post(&posts), Some(String::from("c-awaiting")));
    let posts = vec![post("a", false, false, None)];
    assert_eq!(find_untranscribed_post(&posts), None);
}

#[test]
fn sort_dir_entries_orders_names() {
    let sorted = sort_dir_entries(names(&["zeta", "alpha", "mid", "alpha2"]));
    assert_eq!(sorted, vec!["alpha", "alpha2", "mid", "zeta"]);
    let empty: Vec<String> = Vec::new();
    assert_eq!(sort_dir_entries(empty), Vec::<String>::new());
    let dates = sort_dir_entries(names(&["2024-01-08.png", "2024-01-07.png"]));
    assert_eq!(dates, vec!["2024-01-07.png", "2024-01-08.png"]);
}
