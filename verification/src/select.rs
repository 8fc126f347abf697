//! The selection engine: which source comic a random pick may choose, and
//! which post the ordered criteria pick next for revision or transcription.

use vstd::prelude::*;

use crate::date::{date_of_str, date_str_valid, spec_is_sunday, Date};
use crate::random::rand_below;
use crate::range::DateRange;
use crate::text::{chars_to_string, sub_chars, to_chars};

verus! {

/// Index of the last `.` in `s`, or `-1` when there is none.
pub open spec fn last_dot(s: Seq<char>) -> int
    decreases s.len(),
{
    if s.len() == 0 {
        -1
    } else if s.last() == '.' {
        s.len() - 1
    } else {
        last_dot(s.drop_last())
    }
}

/// The stem of a file name: what stands before the last `.`, except that a
/// name whose only `.` leads it (a hidden file) is its own stem.
pub open spec fn stem(s: Seq<char>) -> Seq<char> {
    if last_dot(s) > 0 {
        s.take(last_dot(s))
    } else {
        s
    }
}

proof fn lemma_last_dot_unique(s: Seq<char>, j: int)
    requires
        -1 <= j < s.len(),
        j >= 0 ==> s[j] == '.',
        forall|k: int| j < k < s.len() ==> s[k] != '.',
        j == -1 ==> forall|k: int| 0 <= k < s.len() ==> s[k] != '.',
    ensures
        last_dot(s) == j,
    decreases s.len(),
{
    if s.len() > 0 && s.last() != '.' {
        let t = s.drop_last();
        assert(forall|k: int| 0 <= k < t.len() ==> t[k] == s[k]);
        lemma_last_dot_unique(t, j);
    }
}

/// End of the stem of the name held in `chars`: the characters before this
/// index are exactly `stem(chars@)`.
fn stem_end(chars: &Vec<char>) -> (r: usize)
    ensures
        r <= chars@.len(),
        chars@.take(r as int) == stem(chars@),
{
    let n = chars.len();
    let mut i: usize = n;
    while i > 0 && chars[i - 1] != '.'
        invariant
            i <= n,
            n == chars@.len(),
            forall|k: int| i <= k < n ==> chars@[k] != '.',
        decreases i,
    {
        i = i - 1;
    }
    proof {
        if i > 0 {
            lemma_last_dot_unique(chars@, i - 1);
        } else {
            lemma_last_dot_unique(chars@, -1);
        }
    }
    if i >= 2 {
        i - 1
    } else {
        proof {
            assert(chars@.take(chars@.len() as int) =~= chars@);
        }
        n
    }
}

/// The date named by the stem of a file name, if the stem is a valid
/// `YYYY-MM-DD` date; a name with any other shape yields nothing.
pub fn get_date_from_path(name: &str) -> (r: Option<Date>)
    ensures
        r is Some <==> date_str_valid(stem(name@)),
        r matches Some(d) ==> d == date_of_str(stem(name@)) && d.wf(),
{
    let chars = to_chars(name);
    let e = stem_end(&chars);
    let sub = sub_chars(&chars, 0, e);
    proof {
        assert(chars@.subrange(0, e as int) =~= chars@.take(e as int));
    }
    let stem_str = chars_to_string(&sub);
    crate::date::parse_date(stem_str.as_str())
}

/// True when the file name's stem is a date inside `range`, on a Sunday if
/// `require_sunday` asks for one.
pub open spec fn entry_matches(name: Seq<char>, range: DateRange, require_sunday: bool) -> bool {
    &&& date_str_valid(stem(name))
    &&& range.spec_contains(date_of_str(stem(name)))
    &&& (require_sunday ==> spec_is_sunday(date_of_str(stem(name))))
}

/// Whether a source entry passes the date-range and weekday restrictions.
pub fn entry_matches_date_range_and_weekday(
    name: &str,
    range: &DateRange,
    require_sunday: bool,
) -> (r: bool)
    ensures
        r == entry_matches(name@, *range, require_sunday),
{
    match get_date_from_path(name) {
        None => false,
        Some(d) => range.contains(&d) && (!require_sunday || d.is_sunday()),
    }
}

proof fn lemma_filter_subset<A>(s: Seq<A>, pred: spec_fn(A) -> bool, i: int)
    requires
        0 <= i < s.filter(pred).len(),
    ensures
        s.contains(s.filter(pred)[i]),
    decreases s.len(),
{
    reveal(Seq::filter);
    if s.len() > 0 {
        let sub = s.drop_last().filter(pred);
        if i < sub.len() {
            lemma_filter_subset(s.drop_last(), pred, i);
            let k = choose|k: int|
                0 <= k < s.drop_last().len() && s.drop_last()[k] == sub[i];
            assert(s[k] == sub[i]);
        } else {
            assert(s.filter(pred)[i] == s.last());
            assert(s[s.len() - 1] == s.last());
        }
    }
}

/// The source entries that pass the restrictions, in their given order.
pub fn filter_source_entries(
    entries: &Vec<String>,
    range: &DateRange,
    require_sunday: bool,
) -> (r: Vec<String>)
    ensures
        r@ == entries@.filter(
            |n: String| entry_matches(n@, *range, require_sunday),
        ),
{
    let ghost pred = |n: String| entry_matches(n@, *range, require_sunday);
    let mut r: Vec<String> = Vec::new();
    let mut i: usize = 0;
    proof {
        reveal(Seq::filter);
        assert(entries@.take(0int) =~= Seq::<String>::empty());
    }
    while i < entries.len()
        invariant
            i <= entries@.len(),
            pred == (|n: String| entry_matches(n@, *range, require_sunday)),
            r@ == entries@.take(i as int).filter(pred),
        decreases entries@.len() - i,
    {
        let keep = entry_matches_date_range_and_weekday(
            entries[i].as_str(),
            range,
            require_sunday,
        );
        proof {
            reveal(Seq::filter);
            assert(entries@.take(i + 1).drop_last() =~= entries@.take(i as int));
            assert(entries@.take(i + 1).last() == entries@[i as int]);
        }
        if keep {
            r.push(entries[i].clone());
            proof {
                assert(r@ =~= entries@.take(i + 1).filter(pred));
            }
        }
        i = i + 1;
    }
    proof {
        assert(entries@.take(entries@.len() as int) =~= entries@);
    }
    r
}

/// What a random pick among the matching source entries guarantees: a result
/// comes exactly when some entry passes, and whatever entry chance picked, it
/// passes the restrictions and names a date of the listing.
pub open spec fn random_date_ok(
    entries: Seq<String>,
    range: DateRange,
    require_sunday: bool,
    r: Option<Date>,
) -> bool {
    &&& (r is Some <==> exists|k: int|
        0 <= k < entries.len() && entry_matches(#[trigger] entries[k]@, range, require_sunday))
    &&& (r matches Some(d) ==> d.wf() && range.spec_contains(d) && (require_sunday
        ==> spec_is_sunday(d)) && exists|k: int|
        0 <= k < entries.len() && entry_matches(#[trigger] entries[k]@, range, require_sunday)
            && d == date_of_str(stem(entries[k]@)))
}

/// Picks uniformly at random among the source entries that pass the
/// restrictions; nothing is picked exactly when no entry passes.
pub fn pick_random_source(
    entries: &Vec<String>,
    range: &DateRange,
    require_sunday: bool,
    rng: &mut rand::rngs::StdRng,
) -> (r: Option<String>)
    ensures
        r is Some <==> exists|k: int|
            0 <= k < entries@.len() && entry_matches(
                (#[trigger] entries@[k])@,
                *range,
                require_sunday,
            ),
        r matches Some(name) ==> entry_matches(name@, *range, require_sunday)
            && exists|k: int| 0 <= k < entries@.len() && (#[trigger] entries@[k])@
            == name@,
{
    let ghost pred = |n: String| entry_matches(n@, *range, require_sunday);
    let candidates = filter_source_entries(entries, range, require_sunday);
    if candidates.len() == 0 {
        proof {
            assert forall|k: int|
                0 <= k < entries@.len() implies !entry_matches(
                (#[trigger] entries@[k])@,
                *range,
                require_sunday,
            ) by {
                if entry_matches(entries@[k]@, *range, require_sunday) {
                    Seq::lemma_filter_contains(entries@, pred, k);
                }
            }
        }
        None
    } else {
        let idx = rand_below(rng, candidates.len());
        let name = candidates[idx].clone();
        proof {
            Seq::lemma_filter_pred(entries@, pred, idx as int);
            lemma_filter_subset(entries@, pred, idx as int);
        }
        Some(name)
    }
}

/// Picks the date of a random matching source entry: the date lies in the
/// range (on a Sunday when required), and belongs to one of the entries;
/// nothing comes back exactly when no entry passes.
pub fn get_random_date(
    entries: &Vec<String>,
    range: &DateRange,
    require_sunday: bool,
    rng: &mut rand::rngs::StdRng,
) -> (r: Option<Date>)
    ensures
        random_date_ok(entries@, *range, require_sunday, r),
{
    match pick_random_source(entries, range, require_sunday, rng) {
        None => None,
        Some(name) => get_date_from_path(name.as_str()),
    }
}

/// Sorts directory entry names into ascending lexicographic order: the
/// result is sorted and holds exactly the given names.
pub fn sort_dir_entries(entries: Vec<String>) -> (r: Vec<String>)
    ensures
        r@.len() == entries@.len(),
        forall|i: int, j: int|
            0 <= i < j < r@.len() ==> crate::text::lex_le((#[trigger] r@[i])@, (#[trigger] r@[j])@),
        r@.map_values(|s: String| s@).to_multiset() == entries@.map_values(
            |s: String| s@,
        ).to_multiset(),
{
    let ghost orig = entries@.map_values(|s: String| s@).to_multiset();
    let ghost n0 = entries@.len();
    let mut src = entries;
    let mut r: Vec<String> = Vec::new();
    proof {
        broadcast use vstd::seq_lib::group_to_multiset_ensures;

        assert(r@.map_values(|s: String| s@) =~= Seq::<Seq<char>>::empty());
        assert(forall|a: Seq<char>|
            Seq::<Seq<char>>::empty().to_multiset().count(a) == 0);
        assert(r@.map_values(|s: String| s@).to_multiset().add(
            src@.map_values(|s: String| s@).to_multiset(),
        ) =~= orig);
    }
    while src.len() > 0
        invariant
            r@.map_values(|s: String| s@).to_multiset().add(
                src@.map_values(|s: String| s@).to_multiset(),
            ) == orig,
            r@.len() + src@.len() == n0,
            forall|i: int, j: int|
                0 <= i < j < r@.len() ==> crate::text::lex_le(
                    (#[trigger] r@[i])@,
                    (#[trigger] r@[j])@,
                ),
            forall|i: int, k: int|
                0 <= i < r@.len() && 0 <= k < src@.len() ==> crate::text::lex_le(
                    (#[trigger] r@[i])@,
                    (#[trigger] src@[k])@,
                ),
        decreases src@.len(),
    {
        let mut mi: usize = 0;
        let mut mc = to_chars(src[0].as_str());
        proof {
            crate::text::lemma_lex_le_total(mc@, mc@);
        }
        let mut k: usize = 1;
        while k < src.len()
            invariant
                mi < k <= src@.len(),
                mc@ == src@[mi as int]@,
                forall|k2: int|
                    0 <= k2 < k ==> crate::text::lex_le(mc@, (#[trigger] src@[k2])@),
            decreases src@.len() - k,
        {
            let kc = to_chars(src[k].as_str());
            if crate::text::chars_le(&kc, &mc) {
                let ghost old_mc = mc@;
                mi = k;
                mc = kc;
                proof {
                    assert forall|k2: int|
                        0 <= k2 < k + 1 implies crate::text::lex_le(
                        mc@,
                        (#[trigger] src@[k2])@,
                    ) by {
                        if k2 < k {
                            crate::text::lemma_lex_le_trans(mc@, old_mc, src@[k2]@);
                        } else {
                            crate::text::lemma_lex_le_total(mc@, mc@);
                        }
                    }
                }
            } else {
                proof {
                    crate::text::lemma_lex_le_total(kc@, mc@);
                }
            }
            k = k + 1;
        }
        proof {
            crate::text::lemma_lex_le_total(mc@, mc@);
        }
        let ghost old_src = src@;
        let ghost old_r = r@;
        let x = src.remove(mi);
        r.push(x);
        proof {
            broadcast use vstd::seq_lib::group_to_multiset_ensures;

            assert(old_src.remove(mi as int).map_values(|s: String| s@) =~= old_src
                .map_values(|s: String| s@).remove(mi as int));
            assert(old_r.push(old_src[mi as int]).map_values(|s: String| s@) =~= old_r
                .map_values(|s: String| s@).push(old_src[mi as int]@));
            assert(r@.map_values(|s: String| s@).to_multiset().add(
                src@.map_values(|s: String| s@).to_multiset(),
            ) =~= orig);
            assert forall|i: int, k2: int|
                0 <= i < r@.len() && 0 <= k2 < src@.len() implies crate::text::lex_le(
                (#[trigger] r@[i])@,
                (#[trigger] src@[k2])@,
            ) by {
                if i < r@.len() - 1 {
                    if k2 < mi {
                        assert(src@[k2] == old_src[k2]);
                    } else {
                        assert(src@[k2] == old_src[k2 + 1]);
                    }
                } else {
                    assert(r@[i]@ == mc@);
                    if k2 < mi {
                        assert(src@[k2] == old_src[k2]);
                    } else {
                        assert(src@[k2] == old_src[k2 + 1]);
                    }
                }
            }
        }
    }
    proof {
        assert(src@.map_values(|s: String| s@) =~= Seq::<Seq<char>>::empty());
        broadcast use vstd::seq_lib::group_to_multiset_ensures;

        assert(forall|a: Seq<char>|
            Seq::<Seq<char>>::empty().to_multiset().count(a) == 0);
        assert(r@.map_values(|s: String| s@).to_multiset().add(
            Seq::<Seq<char>>::empty().to_multiset(),
        ) =~= r@.map_values(|s: String| s@).to_multiset());
    }
    r
}

/// Picks uniformly at random among all the directory entries; nothing is
/// picked exactly when the listing is empty.
pub fn get_random_directory_entry(
    entries: &Vec<String>,
    rng: &mut rand::rngs::StdRng,
) -> (r: Option<String>)
    ensures
        r is Some <==> entries@.len() > 0,
        r matches Some(name) ==> exists|k: int|
            0 <= k < entries@.len() && (#[trigger] entries@[k])@ == name@,
{
    if entries.len() == 0 {
        return None;
    }
    let idx = rand_below(rng, entries.len());
    let name = entries[idx].clone();
    Some(name)
}

/// What the selection logic reads of one post directory: its id (the
/// directory name) and which of its optional files are present.
pub struct PostInfo {
    /// The directory name of the post.
    pub id: String,
    /// The vector-graphic artifact is present: the post has progressed past
    /// revision.
    pub has_svg: bool,
    /// The `transcript` file is present.
    pub has_transcript: bool,
    /// The content of the `props` file, when one is present.
    pub props: Option<String>,
}

/// A post is approved when its `props` file holds the line `good`.
pub open spec fn post_is_good_spec(p: PostInfo) -> bool {
    p.props is Some && crate::text::contains_line((p.props->0)@, "good"@)
}

/// Whether the post directory has the vector-graphic artifact.
pub fn has_svg_file(p: &PostInfo) -> (r: bool)
    ensures
        r == p.has_svg,
{
    p.has_svg
}

/// Whether the post directory has a `transcript` file.
pub fn has_transcript_file(p: &PostInfo) -> (r: bool)
    ensures
        r == p.has_transcript,
{
    p.has_transcript
}

/// Whether the post is approved: it has a `props` file with the line `good`.
pub fn is_post_good(p: &PostInfo) -> (r: bool)
    ensures
        r == post_is_good_spec(*p),
{
    match &p.props {
        Some(content) => crate::text::file_contains_line(content.as_str(), "good"),
        None => false,
    }
}

/// One rule for choosing the next post to work on.
#[derive(Clone, Copy, Debug, PartialEq, Eq, Structural)]
pub enum PostCriterion {
    /// Approved and not yet revised: no vector artifact, and `props` holds
    /// the line `good`.
    GoodUnrevised,
    /// Not yet revised: no vector artifact.
    Unrevised,
    /// Finished but untranscribed: the vector artifact is present and the
    /// `transcript` file is not.
    Untranscribed,
}

/// Whether a post satisfies a criterion.
pub open spec fn criterion_holds(c: PostCriterion, p: PostInfo) -> bool {
    match c {
        PostCriterion::GoodUnrevised => !p.has_svg && post_is_good_spec(p),
        PostCriterion::Unrevised => !p.has_svg,
        PostCriterion::Untranscribed => p.has_svg && !p.has_transcript,
    }
}

/// Evaluates one selection criterion against one post.
pub fn criterion_matches(c: &PostCriterion, p: &PostInfo) -> (r: bool)
    ensures
        r == criterion_holds(*c, *p),
{
    match c {
        PostCriterion::GoodUnrevised => !has_svg_file(p) && is_post_good(p),
        PostCriterion::Unrevised => !has_svg_file(p),
        PostCriterion::Untranscribed => has_svg_file(p) && !has_transcript_file(p),
    }
}

/// Some post of the listing satisfies the criterion.
pub open spec fn any_match(entries: Seq<PostInfo>, c: PostCriterion) -> bool {
    exists|k: int| 0 <= k < entries.len() && criterion_holds(c, #[trigger] entries[k])
}

/// `id` is the id of a post satisfying the criterion, and no satisfying post
/// has an id that sorts before it.
pub open spec fn is_first_match(entries: Seq<PostInfo>, c: PostCriterion, id: Seq<char>) -> bool {
    &&& exists|k: int|
        0 <= k < entries.len() && criterion_holds(c, #[trigger] entries[k]) && entries[k].id@
            == id
    &&& forall|k: int|
        0 <= k < entries.len() && criterion_holds(c, #[trigger] entries[k])
            ==> crate::text::lex_le(id, entries[k].id@)
}

/// The first child satisfying the criterion, in ascending order of the
/// directory names; nothing when no child satisfies it.
pub fn find_child(entries: &Vec<PostInfo>, criterion: &PostCriterion) -> (r: Option<String>)
    ensures
        r is Some <==> any_match(entries@, *criterion),
        r matches Some(id) ==> is_first_match(entries@, *criterion, id@),
{
    let mut found = false;
    let mut best_idx: usize = 0;
    let mut best_chars: Vec<char> = Vec::new();
    let mut k: usize = 0;
    while k < entries.len()
        invariant
            k <= entries@.len(),
            found ==> best_idx < k && criterion_holds(*criterion, entries@[best_idx as int])
                && best_chars@ == entries@[best_idx as int].id@,
            found ==> forall|k2: int|
                0 <= k2 < k && criterion_holds(*criterion, #[trigger] entries@[k2])
                    ==> crate::text::lex_le(best_chars@, entries@[k2].id@),
            !found ==> forall|k2: int|
                0 <= k2 < k ==> !criterion_holds(*criterion, #[trigger] entries@[k2]),
        decreases entries@.len() - k,
    {
        if criterion_matches(criterion, &entries[k]) {
            let kc = to_chars(entries[k].id.as_str());
            if !found {
                found = true;
                best_idx = k;
                best_chars = kc;
                proof {
                    crate::text::lemma_lex_le_total(best_chars@, best_chars@);
                }
            } else if crate::text::chars_le(&kc, &best_chars) {
                let ghost old_best = best_chars@;
                best_idx = k;
                best_chars = kc;
                proof {
                    assert forall|k2: int|
                        0 <= k2 < k + 1 && criterion_holds(
                            *criterion,
                            #[trigger] entries@[k2],
                        ) implies crate::text::lex_le(best_chars@, entries@[k2].id@) by {
                        if k2 < k {
                            crate::text::lemma_lex_le_trans(
                                best_chars@,
                                old_best,
                                entries@[k2].id@,
                            );
                        } else {
                            crate::text::lemma_lex_le_total(best_chars@, best_chars@);
                        }
                    }
                }
            } else {
                proof {
                    crate::text::lemma_lex_le_total(kc@, best_chars@);
                }
            }
        }
        k = k + 1;
    }
    if found {
        Some(entries[best_idx].id.clone())
    } else {
        None
    }
}

/// Tries each criterion in turn, scanning the whole listing for one before
/// moving to the next: the id of the first post (in ascending name order)
/// satisfying the earliest criterion that any post satisfies.
pub fn find_post(entries: &Vec<PostInfo>, criteria: &Vec<PostCriterion>) -> (r: Option<
    String,
>)
    ensures
        r is None <==> (forall|ci: int|
            0 <= ci < criteria@.len() ==> !any_match(entries@, #[trigger] criteria@[ci])),
        r matches Some(id) ==> exists|ci: int|
            0 <= ci < criteria@.len() && is_first_match(entries@, #[trigger] criteria@[ci], id@)
                && (forall|cj: int| 0 <= cj < ci ==> !any_match(entries@, #[trigger] criteria@[cj])),
{
    let mut ci: usize = 0;
    while ci < criteria.len()
        invariant
            ci <= criteria@.len(),
            forall|cj: int| 0 <= cj < ci ==> !any_match(entries@, #[trigger] criteria@[cj]),
        decreases criteria@.len() - ci,
    {
        if let Some(id) = find_child(entries, &criteria[ci]) {
            return Some(id);
        }
        ci = ci + 1;
    }
    None
}

/// The next post to revise: the first approved post without a vector
/// artifact, or failing that the first post without one at all.
pub fn find_unrevised_post(entries: &Vec<PostInfo>) -> (r: Option<String>)
    ensures
        r is None <==> (forall|k: int|
            0 <= k < entries@.len() ==> (#[trigger] entries@[k]).has_svg),
        r matches Some(id) ==> (if any_match(entries@, PostCriterion::GoodUnrevised) {
            is_first_match(entries@, PostCriterion::GoodUnrevised, id@)
        } else {
            is_first_match(entries@, PostCriterion::Unrevised, id@)
        }),
{
    let mut criteria: Vec<PostCriterion> = Vec::new();
    criteria.push(PostCriterion::GoodUnrevised);
    criteria.push(PostCriterion::Unrevised);
    let r = find_post(entries, &criteria);
    proof {
        assert(criteria@[0] == PostCriterion::GoodUnrevised);
        assert(criteria@[1] == PostCriterion::Unrevised);
        if r is None {
            assert(!any_match(entries@, PostCriterion::Unrevised));
        }
        if forall|k: int| 0 <= k < entries@.len() ==> (#[trigger] entries@[k]).has_svg {
            assert(!any_match(entries@, PostCriterion::GoodUnrevised));
            assert(!any_match(entries@, PostCriterion::Unrevised));
        }
    }
    r
}

/// The next post to transcribe: the first post with a vector artifact but no
/// transcript.
pub fn find_untranscribed_post(entries: &Vec<PostInfo>) -> (r: Option<String>)
    ensures
        r is Some <==> any_match(entries@, PostCriterion::Untranscribed),
        r matches Some(id) ==> is_first_match(entries@, PostCriterion::Untranscribed, id@),
{
    let mut criteria: Vec<PostCriterion> = Vec::new();
    criteria.push(PostCriterion::Untranscribed);
    let r = find_post(entries, &criteria);
    proof {
        assert(criteria@[0] == PostCriterion::Untranscribed);
    }
    r
}

/// How a date to show is chosen: exactly, among a month-day range, or among
/// all source comics, the latter two optionally restricted to Sundays.
#[derive(Clone, Copy, Debug)]
pub enum ShowInput {
    /// Show the comic of this very date.
    Exact {
        /// The date to show.
        date: Date,
    },
    /// Show a random comic whose month and day lie in the range.
    Range {
        /// The month-day range to stay within.
        range: DateRange,
        /// Only Sundays qualify.
        sunday: bool,
    },
    /// Show any random comic.
    Any {
        /// Only Sundays qualify.
        sunday: bool,
    },
}

/// Combines the show arguments into one input; the argument parser never
/// passes an exact date together with a range or the Sunday restriction.
pub fn get_show_input(date: Option<Date>, range: Option<DateRange>, sunday: bool) -> (r:
    ShowInput)
    requires
        date is Some ==> range is None && !sunday,
    ensures
        date matches Some(d) ==> r == (ShowInput::Exact { date: d }),
        (date is None && range is Some) ==> r == (ShowInput::Range {
            range: range->0,
            sunday,
        }),
        (date is None && range is None) ==> r == (ShowInput::Any { sunday }),
{
    match date {
        Some(date) => ShowInput::Exact { date },
        None => match range {
            Some(range) => ShowInput::Range { range, sunday },
            None => ShowInput::Any { sunday },
        },
    }
}

/// The date to show: the exact date when one was given, else the date of a
/// random source entry that passes the restrictions.
pub fn get_show_date(
    entries: &Vec<String>,
    input: ShowInput,
    rng: &mut rand::rngs::StdRng,
) -> (r: Option<Date>)
    ensures
        input matches ShowInput::Exact { date } ==> r == Some(date),
        input matches ShowInput::Range { range, sunday } ==> random_date_ok(
            entries@,
            range,
            sunday,
            r,
        ),
        input matches ShowInput::Any { sunday } ==> random_date_ok(
            entries@,
            DateRange {
                from: crate::range::MonthDay { month: 1u32, day: 1u32 },
                to: crate::range::MonthDay { month: 12u32, day: 31u32 },
            },
            sunday,
            r,
        ),
{
    match input {
        ShowInput::Exact { date } => Some(date),
        ShowInput::Range { range, sunday } => get_random_date(entries, &range, sunday, rng),
        ShowInput::Any { sunday } => {
            let all = DateRange::all();
            get_random_date(entries, &all, sunday, rng)
        },
    }
}

} // verus!
