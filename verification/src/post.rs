//! The post lifecycle: the checks and file plans behind making a post from
//! a source comic, transcribing it, and revising it, together with the
//! recent-date cache and watermark and name drawing.

use vstd::prelude::*;

use crate::date::{date_chars, date_of_str, date_str_valid, spec_is_sunday, Date};
use crate::location::Location;
use crate::random::{rand_below, rand_char_between};
use crate::select::PostInfo;
use crate::text::{
    chars_to_string, is_text_line, line_spans, strip_cr, sub_chars, to_chars, trim_spec,
};

verus! {

/// Why making a post for a date is refused.
#[derive(Clone, Copy, Debug, PartialEq, Eq, Structural)]
pub enum MakeError {
    /// No source comic exists for the date.
    NotARealComic,
    /// A post in the generated directory already has the date.
    DuplicateGenerated,
    /// A completed post already has the date and no override was given.
    DuplicateCompleted,
}

/// A post listing (each entry the content of a post's date file, when that
/// file exists) already claims `date`: some content, trimmed of blanks, is a
/// valid date equal to it. Malformed or missing date files never match.
pub open spec fn has_post_with_date(date_files: Seq<Option<String>>, date: Date) -> bool {
    exists|k: int|
        0 <= k < date_files.len() && (#[trigger] date_files[k]) is Some && date_str_valid(
            trim_spec((date_files[k]->0)@),
        ) && date_of_str(trim_spec((date_files[k]->0)@)) == date
}

/// Whether any entry of a directory of posts claims `date` in its date
/// file. Entries without a date file, and date files that do not parse, are
/// skipped, never an error.
pub fn exists_post_with_date(date_files: &Vec<Option<String>>, date: &Date) -> (r: bool)
    ensures
        r == has_post_with_date(date_files@, *date),
{
    let mut k: usize = 0;
    while k < date_files.len()
        invariant
            k <= date_files@.len(),
            forall|k2: int|
                0 <= k2 < k ==> !((#[trigger] date_files@[k2]) is Some && date_str_valid(
                    trim_spec((date_files@[k2]->0)@),
                ) && date_of_str(trim_spec((date_files@[k2]->0)@)) == *date),
        decreases date_files@.len() - k,
    {
        match &date_files[k] {
            Some(content) => {
                match crate::date::parse_date_trimmed(content.as_str()) {
                    Some(d) => {
                        if d.year == date.year && d.month == date.month && d.day
                            == date.day {
                            return true;
                        }
                    },
                    None => {},
                }
            },
            None => {},
        }
        k = k + 1;
    }
    false
}

/// Law: a post whose date file holds the text this library writes for
/// `date` claims that date, so once such a post stands in a listing, the
/// checks of a second make for the same date find a duplicate.
pub proof fn lemma_written_date_file_claims_date(
    date_files: Seq<Option<String>>,
    k: int,
    date: Date,
)
    requires
        date.wf(),
        0 <= k < date_files.len(),
        date_files[k] is Some,
        (date_files[k]->0)@ == date_chars(
            date.year as int,
            date.month as int,
            date.day as int,
        ),
    ensures
        has_post_with_date(date_files, date),
{
    crate::date::lemma_format_parse_roundtrip(date);
    assert(date_files[k] is Some && date_str_valid(trim_spec((date_files[k]->0)@))
        && date_of_str(trim_spec((date_files[k]->0)@)) == date);
}

/// The preconditions of making a post for `date`: the source comic must
/// exist, no generated post may already claim the date, and no completed
/// post may claim it unless the completed check is bypassed. The first
/// violated condition, in that order, decides the failure.
pub fn make_checks(
    source_exists: bool,
    generated_date_files: &Vec<Option<String>>,
    posts_date_files: &Vec<Option<String>>,
    date: &Date,
    skip_post_check: bool,
) -> (r: Result<(), MakeError>)
    ensures
        r is Ok <==> (source_exists && !has_post_with_date(generated_date_files@, *date)
            && (skip_post_check || !has_post_with_date(posts_date_files@, *date))),
        !source_exists ==> r == Err::<(), MakeError>(MakeError::NotARealComic),
        (source_exists && has_post_with_date(generated_date_files@, *date)) ==> r
            == Err::<(), MakeError>(MakeError::DuplicateGenerated),
        (source_exists && !has_post_with_date(generated_date_files@, *date)
            && !skip_post_check && has_post_with_date(posts_date_files@, *date)) ==> r
            == Err::<(), MakeError>(MakeError::DuplicateCompleted),
{
    if !source_exists {
        return Err(MakeError::NotARealComic);
    }
    if exists_post_with_date(generated_date_files, date) {
        return Err(MakeError::DuplicateGenerated);
    }
    if !skip_post_check && exists_post_with_date(posts_date_files, date) {
        return Err(MakeError::DuplicateCompleted);
    }
    Ok(())
}

/// The file name of the source comic of `date`: the date and the fixed
/// source image extension.
pub fn source_file_name(date: &Date) -> (r: String)
    requires
        date.wf(),
    ensures
        r@ == date_chars(date.year as int, date.month as int, date.day as int)
            + ".png"@,
{
    let mut s = date.format();
    s.append(".png");
    s
}

/// Every path that making a post writes or reads, and the content of the
/// new date file; all joins of the location's directories.
pub struct MakePlan {
    /// Path of the source comic image.
    pub source_image: String,
    /// Path of the new post directory under the generated directory.
    pub output_dir: String,
    /// Path of the new date file.
    pub date_file: String,
    /// Path of the new, empty title file.
    pub title_file: String,
    /// Path of the primary derivative image.
    pub initial_image: String,
    /// Path of the byte-identical duplicate image.
    pub duplicate_image: String,
    /// Content of the new date file: the date as `YYYY-MM-DD`.
    pub date_content: String,
}

impl MakePlan {
    /// The plan's paths are the fixed joins for `base`, `date` and `name`.
    pub open spec fn wf_for(self, base: Seq<char>, date: Date, name: Seq<char>) -> bool {
        let dc = date_chars(date.year as int, date.month as int, date.day as int);
        let out = base + "/"@ + "generated"@ + "/"@ + name;
        &&& self.source_image@ == base + "/"@ + "source"@ + "/"@ + dc + ".png"@
        &&& self.output_dir@ == out
        &&& self.date_file@ == out + "/"@ + "date"@
        &&& self.title_file@ == out + "/"@ + "title"@
        &&& self.initial_image@ == out + "/"@ + "esperanto.png"@
        &&& self.duplicate_image@ == out + "/"@ + "english.png"@
        &&& self.date_content@ == dc
    }
}

fn join_path(dir: String, name: &str) -> (r: String)
    ensures
        r@ == dir@ + "/"@ + name@,
{
    let mut s = dir;
    s.append("/");
    s.append(name);
    s
}

/// Computes every path that making the post `name` for `date` touches.
pub fn make_plan(location: &Location, date: &Date, name: &str) -> (r: MakePlan)
    requires
        date.wf(),
    ensures
        r.wf_for(location.base(), *date, name@),
{
    let source_image = join_path(location.source_dir(), source_file_name(date).as_str());
    let output_dir = join_path(location.generated_dir(), name);
    let date_file = join_path(output_dir.clone(), "date");
    let title_file = join_path(output_dir.clone(), "title");
    let initial_image = join_path(output_dir.clone(), "esperanto.png");
    let duplicate_image = join_path(output_dir.clone(), "english.png");
    let date_content = date.format();
    proof {
        let base = location.base();
        let dc = date_chars(date.year as int, date.month as int, date.day as int);
        let out = base + "/"@ + "generated"@ + "/"@ + name@;
        assert(source_image@ =~= base + "/"@ + "source"@ + "/"@ + dc + ".png"@);
        assert(output_dir@ =~= out);
        assert(date_file@ =~= out + "/"@ + "date"@);
        assert(title_file@ =~= out + "/"@ + "title"@);
        assert(initial_image@ =~= out + "/"@ + "esperanto.png"@);
        assert(duplicate_image@ =~= out + "/"@ + "english.png"@);
    }
    MakePlan {
        source_image,
        output_dir,
        date_file,
        title_file,
        initial_image,
        duplicate_image,
        date_content,
    }
}

/// Picks a random line of the watermarks file content; nothing comes back
/// exactly when the content is empty, and whatever line chance picked, it is
/// a line of the content (with a trailing carriage return stripped).
pub fn get_random_watermark(content: &str, rng: &mut rand::rngs::StdRng) -> (r: Option<
    String,
>)
    ensures
        r is Some <==> content@.len() > 0,
        r matches Some(w) ==> exists|i: int, j: int|
            is_text_line(content@, i, j) && w@ == strip_cr(
                #[trigger] content@.subrange(i, j),
            ),
{
    let chars = to_chars(content);
    let spans = line_spans(&chars);
    if spans.len() == 0 {
        return None;
    }
    let k = rand_below(rng, spans.len());
    let (i, j) = (spans[k].0, spans[k].1);
    let j2 = if j > i && chars[j - 1] == '\r' {
        j - 1
    } else {
        j
    };
    let sub = sub_chars(&chars, i, j2);
    proof {
        assert(is_text_line(content@, i as int, j as int));
        if j > i && chars@[j - 1] == '\r' {
            assert(chars@.subrange(i as int, j as int - 1) =~= chars@.subrange(
                i as int,
                j as int,
            ).drop_last());
            assert(chars@.subrange(i as int, j as int).last() == '\r');
        }
        assert(sub@ == strip_cr(content@.subrange(i as int, j as int)));
    }
    Some(chars_to_string(&sub))
}

/// The generated name of a post for `date`: four random letters, upper case
/// exactly when the date is a Sunday, then a colon and the date itself.
pub fn generate_name(date: &Date, rng: &mut rand::rngs::StdRng) -> (r: String)
    requires
        date.wf(),
    ensures
        r@.len() == 15,
        forall|i: int|
            0 <= i < 4 ==> (spec_is_sunday(*date) ==> 'A' <= #[trigger] r@[i] <= 'Z')
                && (!spec_is_sunday(*date) ==> 'a' <= r@[i] <= 'z'),
        r@[4] == ':',
        r@.subrange(5, 15) == date_chars(
            date.year as int,
            date.month as int,
            date.day as int,
        ),
{
    let sunday = date.is_sunday();
    let (lo, hi) = if sunday {
        ('A', 'Z')
    } else {
        ('a', 'z')
    };
    let mut v: Vec<char> = Vec::new();
    v.push(rand_char_between(rng, lo, hi));
    v.push(rand_char_between(rng, lo, hi));
    v.push(rand_char_between(rng, lo, hi));
    v.push(rand_char_between(rng, lo, hi));
    v.push(':');
    let dchars = to_chars(date.format().as_str());
    let mut i: usize = 0;
    while i < dchars.len()
        invariant
            i <= dchars@.len(),
            dchars@.len() == 10,
            dchars@ == date_chars(date.year as int, date.month as int, date.day as int),
            v@.len() == 5 + i,
            forall|k: int|
                0 <= k < 4 ==> (spec_is_sunday(*date) ==> 'A' <= #[trigger] v@[k] <= 'Z')
                    && (!spec_is_sunday(*date) ==> 'a' <= v@[k] <= 'z'),
            v@[4] == ':',
            v@.subrange(5, v@.len() as int) == dchars@.take(i as int),
        decreases dchars@.len() - i,
    {
        v.push(dchars[i]);
        i = i + 1;
        proof {
            assert(v@.subrange(5, v@.len() as int) =~= dchars@.take(i as int));
        }
    }
    proof {
        assert(dchars@.take(dchars@.len() as int) =~= dchars@);
        assert(v@.subrange(5, 15) == dchars@);
    }
    chars_to_string(&v)
}

/// A post id that the numbering convention covers: a non-empty run of
/// digits whose value fits the id counter.
pub open spec fn is_numeric_id(s: Seq<char>) -> bool {
    s.len() > 0 && crate::text::all_digits(s) && crate::text::dec_val(s) <= u32::MAX
}

/// The numbering convention: ids run in step with weekdays at a fixed
/// phase, so id `n` is a Sunday comic exactly when `n + 1` is divisible
/// by seven.
pub open spec fn id_is_sunday(s: Seq<char>) -> bool {
    (crate::text::dec_val(s) + 1) % 7 == 0
}

/// A post id that the Sunday numbering convention cannot judge.
#[derive(Clone, Copy, Debug, PartialEq, Eq, Structural)]
pub enum IdError {
    /// The id is not a base-10 integer.
    NotAnInteger,
}

/// Whether the post id names a Sunday comic by the numbering convention;
/// an id that is not a base-10 integer cannot be judged and is an error.
pub fn is_id_sunday(id: &str) -> (r: Result<bool, IdError>)
    ensures
        r is Ok <==> is_numeric_id(id@),
        r matches Ok(b) ==> b == id_is_sunday(id@),
        r is Err ==> r == Err::<bool, IdError>(IdError::NotAnInteger),
{
    let chars = to_chars(id);
    let n = chars.len();
    proof {
        assert(chars@.subrange(0, n as int) =~= id@);
    }
    match crate::text::parse_number(&chars, 0, n, u32::MAX) {
        Some(v) => Ok((v as u64 + 1) % 7 == 0),
        None => Err(IdError::NotAnInteger),
    }
}

/// The placeholder transcript for a Sunday comic: one line per panel of the
/// six-panel Sunday layout.
pub open spec fn sunday_template() -> Seq<char> {
    "---\n---\n---\n---\n---\n---"@
}

/// The placeholder transcript for a weekday comic: two panel lines.
pub open spec fn weekday_template() -> Seq<char> {
    "---\n---"@
}

/// The text shown in the editor when transcribing: the existing transcript
/// when there is one, else the placeholder whose panel count the id's
/// Sunday rule decides; with no existing transcript a non-numeric id is an
/// error.
pub fn transcript_template(id: &str, existing: Option<&str>) -> (r: Result<String, IdError>)
    ensures
        existing matches Some(c) ==> (r matches Ok(t) && t@ == c@),
        (existing is None && is_numeric_id(id@) && id_is_sunday(id@)) ==> (r matches Ok(t)
            && t@ == sunday_template()),
        (existing is None && is_numeric_id(id@) && !id_is_sunday(id@)) ==> (r matches Ok(t)
            && t@ == weekday_template()),
        r is Err <==> (existing is None && !is_numeric_id(id@)),
        r is Err ==> r == Err::<String, IdError>(IdError::NotAnInteger),
{
    match existing {
        Some(c) => Ok(String::from_str(c)),
        None => match is_id_sunday(id) {
            Ok(true) => Ok(String::from_str("---\n---\n---\n---\n---\n---")),
            Ok(false) => Ok(String::from_str("---\n---")),
            Err(e) => Err(e),
        },
    }
}

/// Whether an edited transcript is persisted: only when the edited text
/// differs byte for byte from what was shown; an unchanged text is
/// discarded with no file written.
pub fn should_save_transcript(shown: &str, edited: &str) -> (r: bool)
    ensures
        r == (shown@ != edited@),
{
    !crate::text::file_matches_string(edited, shown)
}

/// Every path that transcribing a post reads or writes: all joins of the
/// location's directories with the post id.
pub struct TranscribePlan {
    /// The working file the editor opens: `transcript.<id>` in the
    /// temporary directory.
    pub temp_file: String,
    /// The completed post's directory.
    pub post_dir: String,
    /// The post's transcript file, written only on a confirmed change.
    pub transcript_file: String,
    /// The primary derivative image, shown while transcribing.
    pub initial_image: String,
    /// The duplicate derivative image, shown beside it.
    pub duplicate_image: String,
}

impl TranscribePlan {
    /// The plan's paths are the fixed joins for `base` and `id`.
    pub open spec fn wf_for(self, base: Seq<char>, id: Seq<char>) -> bool {
        let post = base + "/"@ + "posts"@ + "/"@ + id;
        &&& self.temp_file@ == base + "/"@ + "tmp"@ + "/"@ + "transcript."@ + id
        &&& self.post_dir@ == post
        &&& self.transcript_file@ == post + "/"@ + "transcript"@
        &&& self.initial_image@ == post + "/"@ + "esperanto.png"@
        &&& self.duplicate_image@ == post + "/"@ + "english.png"@
    }
}

/// Computes every path that transcribing the post `id` touches.
pub fn transcribe_plan(location: &Location, id: &str) -> (r: TranscribePlan)
    ensures
        r.wf_for(location.base(), id@),
{
    let mut temp_file = location.temp_dir();
    temp_file.append("/");
    temp_file.append("transcript.");
    temp_file.append(id);
    let post_dir = join_path(location.posts_dir(), id);
    let transcript_file = join_path(post_dir.clone(), "transcript");
    let initial_image = join_path(post_dir.clone(), "esperanto.png");
    let duplicate_image = join_path(post_dir.clone(), "english.png");
    proof {
        let base = location.base();
        let post = base + "/"@ + "posts"@ + "/"@ + id@;
        assert(temp_file@ =~= base + "/"@ + "tmp"@ + "/"@ + "transcript."@ + id@);
        assert(post_dir@ =~= post);
        assert(transcript_file@ =~= post + "/"@ + "transcript"@);
        assert(initial_image@ =~= post + "/"@ + "esperanto.png"@);
        assert(duplicate_image@ =~= post + "/"@ + "english.png"@);
    }
    TranscribePlan { temp_file, post_dir, transcript_file, initial_image, duplicate_image }
}

/// Which auxiliary files a completed post has, as observed by the caller.
#[derive(Clone, Copy, Debug, PartialEq, Eq, Structural)]
pub struct PostFiles {
    /// The `title` file is present.
    pub has_title: bool,
    /// The `transcript` file is present.
    pub has_transcript: bool,
    /// The `props` file is present.
    pub has_props: bool,
    /// The `special` marker file is present.
    pub has_special: bool,
    /// The vector-graphic artifact is present.
    pub has_svg: bool,
}

/// Why revising a post is refused.
#[derive(Clone, Copy, Debug, PartialEq, Eq, Structural)]
pub enum ReviseError {
    /// The post has no `title` file, which a revision must carry forward.
    MissingTitle,
    /// The archive already holds a post with this id; revising again is not
    /// supported.
    AlreadyRevised,
}

/// The names of the files a revision copies forward, in order: `title`
/// always, then each optional file the post has.
pub open spec fn revise_copy_list(p: PostFiles) -> Seq<Seq<char>> {
    seq!["title"@] + (if p.has_transcript {
        seq!["transcript"@]
    } else {
        Seq::empty()
    }) + (if p.has_props {
        seq!["props"@]
    } else {
        Seq::empty()
    }) + (if p.has_special {
        seq!["special"@]
    } else {
        Seq::empty()
    }) + (if p.has_svg {
        seq!["esperanto.svg"@]
    } else {
        Seq::empty()
    })
}

/// The files a revision copies from the completed post into the fresh one:
/// the required `title` and whichever optional files are present. A post
/// without a `title` file cannot be revised.
pub fn revise_copy_files(p: &PostFiles) -> (r: Result<Vec<String>, ReviseError>)
    ensures
        r is Ok <==> p.has_title,
        !p.has_title ==> r == Err::<Vec<String>, ReviseError>(ReviseError::MissingTitle),
        r matches Ok(v) ==> v@.map_values(|s: String| s@) == revise_copy_list(*p),
{
    if !p.has_title {
        return Err(ReviseError::MissingTitle);
    }
    let mut v: Vec<String> = Vec::new();
    v.push(String::from_str("title"));
    if p.has_transcript {
        v.push(String::from_str("transcript"));
    }
    if p.has_props {
        v.push(String::from_str("props"));
    }
    if p.has_special {
        v.push(String::from_str("special"));
    }
    if p.has_svg {
        v.push(String::from_str("esperanto.svg"));
    }
    proof {
        assert(v@.map_values(|s: String| s@) =~= revise_copy_list(*p));
    }
    Ok(v)
}

/// Guards moving the superseded post into the archive: an archive entry
/// with the same id means the post was already revised once, which is not
/// supported.
pub fn revise_archive_check(old_post_exists: bool) -> (r: Result<(), ReviseError>)
    ensures
        r is Ok <==> !old_post_exists,
        old_post_exists ==> r == Err::<(), ReviseError>(ReviseError::AlreadyRevised),
{
    if old_post_exists {
        Err(ReviseError::AlreadyRevised)
    } else {
        Ok(())
    }
}

/// The line `s[i..j]` holds a date: trimmed of blanks it is `YYYY-MM-DD`.
pub open spec fn line_is_date(s: Seq<char>, i: int, j: int) -> bool {
    is_text_line(s, i, j) && date_str_valid(trim_spec(s.subrange(i, j)))
}

/// The date of the last line of `content` that holds one; lines that hold
/// no date (blank or malformed) are passed over, and nothing comes back
/// when no line holds a date.
pub fn read_last_line_as_date(content: &str) -> (r: Option<Date>)
    ensures
        r is Some <==> exists|i: int, j: int| line_is_date(content@, i, j),
        r matches Some(d) ==> exists|i: int, j: int|
            #[trigger] line_is_date(content@, i, j) && d == date_of_str(
                trim_spec(content@.subrange(i, j)),
            ) && (forall|i2: int, j2: int|
                is_text_line(content@, i2, j2) && i2 > i ==> !date_str_valid(
                    trim_spec(content@.subrange(i2, j2)),
                )),
{
    let chars = to_chars(content);
    let spans = line_spans(&chars);
    let mut found = false;
    let mut best_k: usize = 0;
    let mut best_date = Date { year: 1, month: 1, day: 1 };
    let mut k: usize = 0;
    while k < spans.len()
        invariant
            k <= spans@.len(),
            chars@ == content@,
            forall|k2: int|
                0 <= k2 < spans@.len() ==> is_text_line(
                    chars@,
                    (#[trigger] spans@[k2]).0 as int,
                    spans@[k2].1 as int,
                ),
            forall|i: int, j: int|
                is_text_line(chars@, i, j) ==> exists|k2: int|
                    0 <= k2 < spans@.len() && (#[trigger] spans@[k2]).0 == i
                        && spans@[k2].1 == j,
            forall|k1: int, k2: int|
                0 <= k1 < k2 < spans@.len() ==> (#[trigger] spans@[k1]).0
                    < (#[trigger] spans@[k2]).0,
            found ==> best_k < k && line_is_date(
                content@,
                spans@[best_k as int].0 as int,
                spans@[best_k as int].1 as int,
            ) && best_date == date_of_str(
                trim_spec(
                    content@.subrange(
                        spans@[best_k as int].0 as int,
                        spans@[best_k as int].1 as int,
                    ),
                ),
            ),
            forall|k2: int|
                (if found {
                    best_k < k2
                } else {
                    0 <= k2
                }) && k2 < k ==> !date_str_valid(
                    trim_spec(
                        content@.subrange(
                            (#[trigger] spans@[k2]).0 as int,
                            spans@[k2].1 as int,
                        ),
                    ),
                ),
        decreases spans@.len() - k,
    {
        let (i, j) = (spans[k].0, spans[k].1);
        let sub = sub_chars(&chars, i, j);
        let line = chars_to_string(&sub);
        match crate::date::parse_date_trimmed(line.as_str()) {
            Some(d) => {
                found = true;
                best_k = k;
                best_date = d;
            },
            None => {},
        }
        k = k + 1;
    }
    if found {
        proof {
            let bi = spans@[best_k as int].0 as int;
            let bj = spans@[best_k as int].1 as int;
            assert forall|i2: int, j2: int|
                is_text_line(content@, i2, j2) && i2 > bi implies !date_str_valid(
                trim_spec(content@.subrange(i2, j2)),
            ) by {
                let k2 = choose|k2: int|
                    0 <= k2 < spans@.len() && (#[trigger] spans@[k2]).0 == i2
                        && spans@[k2].1 == j2;
                if k2 < best_k {
                    assert(spans@[k2].0 < spans@[best_k as int].0);
                } else if k2 == best_k {
                    assert(i2 == bi);
                }
            }
            assert(line_is_date(content@, bi, bj));
        }
        Some(best_date)
    } else {
        proof {
            if exists|i: int, j: int| line_is_date(content@, i, j) {
                let (i, j) = choose|i: int, j: int| line_is_date(content@, i, j);
                let k2 = choose|k2: int|
                    0 <= k2 < spans@.len() && (#[trigger] spans@[k2]).0 == i
                        && spans@[k2].1 == j;
            }
        }
        None
    }
}

/// Why no recent date can be had.
#[derive(Clone, Copy, Debug, PartialEq, Eq, Structural)]
pub enum RecentError {
    /// The cache file does not exist yet: nothing was ever shown.
    CacheFileMissing,
    /// The cache file holds no line with a valid date.
    NoRecentDate,
}

/// What reading the recent-date cache guarantees, given the cache file's
/// content (or its absence) and the outcome.
pub open spec fn recent_ok(content: Option<&str>, r: Result<Date, RecentError>) -> bool {
    match content {
        None => r == Err::<Date, RecentError>(RecentError::CacheFileMissing),
        Some(c) => {
            &&& (r is Ok <==> exists|i: int, j: int| line_is_date(c@, i, j))
            &&& (r matches Ok(d) ==> exists|i: int, j: int|
                #[trigger] line_is_date(c@, i, j) && d == date_of_str(
                    trim_spec(c@.subrange(i, j)),
                ) && (forall|i2: int, j2: int|
                    is_text_line(c@, i2, j2) && i2 > i ==> !date_str_valid(
                        trim_spec(c@.subrange(i2, j2)),
                    )))
            &&& (r is Err ==> r == Err::<Date, RecentError>(RecentError::NoRecentDate))
        },
    }
}

/// The most recently shown date: the last date line of the cache file. A
/// missing cache file, and a cache with no date line, are distinct errors.
pub fn get_recent_date(content: Option<&str>) -> (r: Result<Date, RecentError>)
    ensures
        recent_ok(content, r),
{
    match content {
        None => Err(RecentError::CacheFileMissing),
        Some(c) => match read_last_line_as_date(c) {
            Some(d) => Ok(d),
            None => Err(RecentError::NoRecentDate),
        },
    }
}

/// The date to make a post for: the date given outright, or with `recent`
/// the most recently shown date from the cache file's content. The argument
/// parser passes exactly one of the two.
pub fn get_make_date(date: Option<Date>, recent: bool, recent_content: Option<&str>) -> (r:
    Result<Date, RecentError>)
    requires
        recent <==> date is None,
    ensures
        !recent ==> r == Ok::<Date, RecentError>(date->0),
        recent ==> recent_ok(recent_content, r),
{
    match date {
        Some(d) => Ok(d),
        None => get_recent_date(recent_content),
    }
}

/// Why no post id could be settled on.
#[derive(Clone, Copy, Debug, PartialEq, Eq, Structural)]
pub enum SelectIdError {
    /// An id was given but no post directory has that name.
    NoPostWithId,
    /// No id was given and no post awaits revision.
    NoPostsToRevise,
    /// No id was given and no post awaits transcription.
    NoPostsToTranscribe,
}

/// The id of the post to revise: the given id if its directory exists, else
/// the first post the revision criteria pick from the completed posts.
pub fn get_revise_id(id: Option<String>, id_is_dir: bool, posts: &Vec<PostInfo>) -> (r:
    Result<String, SelectIdError>)
    ensures
        (id is Some && id_is_dir) ==> (r matches Ok(out) && out@ == (id->0)@),
        (id is Some && !id_is_dir) ==> r == Err::<String, SelectIdError>(
            SelectIdError::NoPostWithId,
        ),
        id is None ==> {
            &&& (r is Ok <==> exists|k: int|
                0 <= k < posts@.len() && !(#[trigger] posts@[k]).has_svg)
            &&& (r matches Ok(out) ==> (if crate::select::any_match(
                posts@,
                crate::select::PostCriterion::GoodUnrevised,
            ) {
                crate::select::is_first_match(
                    posts@,
                    crate::select::PostCriterion::GoodUnrevised,
                    out@,
                )
            } else {
                crate::select::is_first_match(
                    posts@,
                    crate::select::PostCriterion::Unrevised,
                    out@,
                )
            }))
            &&& (r is Err ==> r == Err::<String, SelectIdError>(
                SelectIdError::NoPostsToRevise,
            ))
        },
{
    match id {
        Some(id) => {
            if id_is_dir {
                Ok(id)
            } else {
                Err(SelectIdError::NoPostWithId)
            }
        },
        None => match crate::select::find_unrevised_post(posts) {
            Some(found) => Ok(found),
            None => Err(SelectIdError::NoPostsToRevise),
        },
    }
}

/// The id of the post to transcribe: the given id if its directory exists,
/// else the first completed post that is finished but untranscribed.
pub fn get_transcribe_id(id: Option<String>, id_is_dir: bool, posts: &Vec<PostInfo>) -> (r:
    Result<String, SelectIdError>)
    ensures
        (id is Some && id_is_dir) ==> (r matches Ok(out) && out@ == (id->0)@),
        (id is Some && !id_is_dir) ==> r == Err::<String, SelectIdError>(
            SelectIdError::NoPostWithId,
        ),
        id is None ==> {
            &&& (r is Ok <==> crate::select::any_match(
                posts@,
                crate::select::PostCriterion::Untranscribed,
            ))
            &&& (r matches Ok(out) ==> crate::select::is_first_match(
                posts@,
                crate::select::PostCriterion::Untranscribed,
                out@,
            ))
            &&& (r is Err ==> r == Err::<String, SelectIdError>(
                SelectIdError::NoPostsToTranscribe,
            ))
        },
{
    match id {
        Some(id) => {
            if id_is_dir {
                Ok(id)
            } else {
                Err(SelectIdError::NoPostWithId)
            }
        },
        None => match crate::select::find_untranscribed_post(posts) {
            Some(found) => Ok(found),
            None => Err(SelectIdError::NoPostsToTranscribe),
        },
    }
}

} // verus!
