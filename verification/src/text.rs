//! Character-sequence utilities: decimal digits, line splitting, trimming,
//! and lexicographic ordering, shared by the date, range and selection logic.

use vstd::prelude::*;

verus! {

/// True when `c` is a decimal digit.
pub open spec fn is_digit(c: char) -> bool {
    '0' <= c && c <= '9'
}

/// Numeric value of a digit character.
pub open spec fn digit_val(c: char) -> int {
    c as int - '0' as int
}

/// True when every character of `s` is a decimal digit.
pub open spec fn all_digits(s: Seq<char>) -> bool {
    forall|i: int| 0 <= i < s.len() ==> is_digit(#[trigger] s[i])
}

/// Value of a decimal digit string, most significant digit first.
pub open spec fn dec_val(s: Seq<char>) -> int
    decreases s.len(),
{
    if s.len() == 0 {
        0
    } else {
        dec_val(s.drop_last()) * 10 + digit_val(s.last())
    }
}

proof fn lemma_dec_val_nonneg(s: Seq<char>)
    requires
        all_digits(s),
    ensures
        dec_val(s) >= 0,
    decreases s.len(),
{
    if s.len() > 0 {
        assert(all_digits(s.drop_last())) by {
            assert(forall|i: int|
                0 <= i < s.drop_last().len() ==> #[trigger] s.drop_last()[i] == s[i]);
        }
        lemma_dec_val_nonneg(s.drop_last());
    }
}

proof fn lemma_dec_val_take_step(s: Seq<char>, k: int)
    requires
        0 <= k < s.len(),
    ensures
        dec_val(s.take(k + 1)) == dec_val(s.take(k)) * 10 + digit_val(s[k]),
{
    assert(s.take(k + 1).drop_last() =~= s.take(k));
    assert(s.take(k + 1).last() == s[k]);
}

/// Parses the decimal digit string `s@.subrange(from as int, to as int)`.
/// Returns its value when the segment is a non-empty run of digits whose
/// value is at most `cap`; `None` otherwise.
pub fn parse_number(s: &Vec<char>, from: usize, to: usize, cap: u32) -> (r: Option<u32>)
    requires
        from <= to <= s@.len(),
    ensures
        r is Some <==> (from < to && all_digits(s@.subrange(from as int, to as int))
            && dec_val(s@.subrange(from as int, to as int)) <= cap),
        r matches Some(v) ==> v == dec_val(s@.subrange(from as int, to as int)),
{
    let ghost sub = s@.subrange(from as int, to as int);
    if from == to {
        return None;
    }
    let cap64: u64 = cap as u64;
    let mut acc: u64 = 0;
    let mut i: usize = from;
    while i < to
        invariant
            from <= i <= to <= s@.len(),
            cap64 == cap,
            sub == s@.subrange(from as int, to as int),
            all_digits(sub.take(i - from)),
            dec_val(sub.take(i - from)) > cap ==> acc > cap64,
            dec_val(sub.take(i - from)) <= cap ==> acc == dec_val(sub.take(i - from)),
            acc <= cap64 * 10 + 9,
        decreases to - i,
    {
        let c = s[i];
        if !('0' <= c && c <= '9') {
            assert(!all_digits(sub)) by {
                assert(sub[i - from] == c);
            }
            return None;
        }
        let d: u64 = (c as u32 - '0' as u32) as u64;
        let ghost j = i - from;
        let new_acc: u64 = if acc > cap64 {
            cap64 + 1
        } else {
            acc * 10 + d
        };
        proof {
            lemma_dec_val_take_step(sub, j);
            lemma_dec_val_nonneg(sub.take(j));
            assert(sub[j] == c);
            assert(d == digit_val(c));
            assert(all_digits(sub.take(j + 1))) by {
                assert(forall|k: int|
                    0 <= k < j ==> #[trigger] sub.take(j + 1)[k] == sub.take(j)[k]);
                assert(sub.take(j + 1)[j] == c);
            }
            assert(dec_val(sub.take(j + 1)) == dec_val(sub.take(j)) * 10 + digit_val(c));
            if dec_val(sub.take(j)) > cap {
                assert(dec_val(sub.take(j)) * 10 >= dec_val(sub.take(j)));
                assert(dec_val(sub.take(j + 1)) > cap);
                assert(new_acc > cap64);
            } else {
                assert(acc == dec_val(sub.take(j)));
                assert(acc <= cap64);
                assert(new_acc == dec_val(sub.take(j + 1)));
            }
        }
        acc = new_acc;
        i = i + 1;
    }
    proof {
        assert(sub.take(to - from) =~= sub);
    }
    if acc > cap64 {
        None
    } else {
        Some(acc as u32)
    }
}

/// True when `c` is one of the blank characters stripped from the ends of a
/// line.
pub open spec fn is_space(c: char) -> bool {
    c == ' ' || c == '\t' || c == '\r' || c == '\n'
}

/// `s` without its leading blank characters.
pub open spec fn trim_front(s: Seq<char>) -> Seq<char>
    decreases s.len(),
{
    if s.len() > 0 && is_space(s[0]) {
        trim_front(s.drop_first())
    } else {
        s
    }
}

/// `s` without its trailing blank characters.
pub open spec fn trim_back(s: Seq<char>) -> Seq<char>
    decreases s.len(),
{
    if s.len() > 0 && is_space(s.last()) {
        trim_back(s.drop_last())
    } else {
        s
    }
}

/// `s` without leading and trailing blank characters.
pub open spec fn trim_spec(s: Seq<char>) -> Seq<char> {
    trim_back(trim_front(s))
}

proof fn lemma_trim_front_skip(s: Seq<char>, k: int)
    requires
        0 <= k <= s.len(),
        forall|i: int| 0 <= i < k ==> is_space(#[trigger] s[i]),
    ensures
        trim_front(s) == trim_front(s.skip(k)),
    decreases k,
{
    if k > 0 {
        assert(trim_front(s) == trim_front(s.drop_first()));
        assert(s.drop_first() =~= s.skip(1));
        lemma_trim_front_skip(s.skip(1), k - 1);
        assert(s.skip(1).skip(k - 1) =~= s.skip(k));
    } else {
        assert(s.skip(0) =~= s);
    }
}

proof fn lemma_trim_back_take(s: Seq<char>, k: int)
    requires
        0 <= k <= s.len(),
        forall|i: int| k <= i < s.len() ==> is_space(#[trigger] s[i]),
    ensures
        trim_back(s) == trim_back(s.take(k)),
    decreases s.len() - k,
{
    if k < s.len() {
        assert(is_space(s.last()));
        assert(trim_back(s) == trim_back(s.drop_last()));
        assert(s.drop_last() =~= s.take(s.len() - 1));
        lemma_trim_back_take(s.take(s.len() - 1), k);
        assert(s.take(s.len() - 1).take(k) =~= s.take(k));
    } else {
        assert(s.take(k) =~= s);
    }
}

/// Bounds of `s@.subrange(from as int, to as int)` with blanks stripped from
/// both ends: the trimmed text is `s@.subrange(r.0 as int, r.1 as int)`.
pub fn trim_bounds(s: &Vec<char>, from: usize, to: usize) -> (r: (usize, usize))
    requires
        from <= to <= s@.len(),
    ensures
        from <= r.0 <= r.1 <= to,
        trim_spec(s@.subrange(from as int, to as int)) == s@.subrange(
            r.0 as int,
            r.1 as int,
        ),
{
    let ghost sub = s@.subrange(from as int, to as int);
    let mut a: usize = from;
    while a < to && (s[a] == ' ' || s[a] == '\t' || s[a] == '\r' || s[a] == '\n')
        invariant
            from <= a <= to <= s@.len(),
            sub == s@.subrange(from as int, to as int),
            forall|i: int| 0 <= i < a - from ==> is_space(#[trigger] sub[i]),
        decreases to - a,
    {
        a = a + 1;
    }
    proof {
        lemma_trim_front_skip(sub, a - from);
    }
    if a == to {
        proof {
            assert(sub.skip(a - from) =~= Seq::<char>::empty());
            assert(trim_front(sub) =~= Seq::<char>::empty());
            assert(trim_spec(sub) =~= s@.subrange(a as int, a as int));
        }
        return (a, a);
    }
    proof {
        assert(sub.skip(a - from).len() > 0);
        assert(sub.skip(a - from)[0] == sub[a - from]);
        assert(!is_space(sub[a - from]));
        assert(trim_front(sub) == sub.skip(a - from));
    }
    let mut b: usize = to;
    while b > a && (s[b - 1] == ' ' || s[b - 1] == '\t' || s[b - 1] == '\r' || s[b - 1]
        == '\n')
        invariant
            from <= a < to <= s@.len(),
            a <= b <= to,
            sub == s@.subrange(from as int, to as int),
            forall|i: int| b - from <= i < to - from ==> is_space(#[trigger] sub[i]),
        decreases b - a,
    {
        b = b - 1;
    }
    proof {
        let t = sub.skip(a - from);
        assert(forall|i: int|
            b - a <= i < t.len() ==> is_space(#[trigger] t[i])) by {
            assert(forall|i: int|
                b - a <= i < t.len() ==> t[i] == sub[i + a - from]);
        }
        lemma_trim_back_take(t, b - a);
        if b > a {
            assert(!is_space(s@[b - 1]));
            assert(t.take(b - a).last() == sub[b - 1 - from]);
            assert(sub[b - 1 - from] == s@[b - 1]);
            assert(trim_back(t.take(b - a)) == t.take(b - a));
        } else {
            assert(t.take(0) =~= Seq::<char>::empty());
            assert(trim_back(t.take(0)) =~= t.take(0));
        }
        assert(t.take(b - a) =~= s@.subrange(a as int, b as int));
    }
    (a, b)
}

/// Lexicographic order on character sequences, by code point: true when `a`
/// sorts at or before `b`.
pub open spec fn lex_le(a: Seq<char>, b: Seq<char>) -> bool
    decreases a.len(),
{
    if a.len() == 0 {
        true
    } else if b.len() == 0 {
        false
    } else if a[0] != b[0] {
        a[0] < b[0]
    } else {
        lex_le(a.drop_first(), b.drop_first())
    }
}

/// The order is total: of any two sequences, one sorts at or before the
/// other.
pub proof fn lemma_lex_le_total(a: Seq<char>, b: Seq<char>)
    ensures
        lex_le(a, b) || lex_le(b, a),
    decreases a.len(),
{
    if a.len() > 0 && b.len() > 0 && a[0] == b[0] {
        lemma_lex_le_total(a.drop_first(), b.drop_first());
    }
}

/// The order is transitive.
pub proof fn lemma_lex_le_trans(a: Seq<char>, b: Seq<char>, c: Seq<char>)
    requires
        lex_le(a, b),
        lex_le(b, c),
    ensures
        lex_le(a, c),
    decreases a.len(),
{
    if a.len() > 0 && b.len() > 0 && c.len() > 0 && a[0] == b[0] && b[0] == c[0] {
        lemma_lex_le_trans(a.drop_first(), b.drop_first(), c.drop_first());
    }
}

proof fn lemma_lex_le_skip(a: Seq<char>, b: Seq<char>, i: int)
    requires
        0 <= i <= a.len(),
        i <= b.len(),
        forall|k: int| 0 <= k < i ==> a[k] == b[k],
    ensures
        lex_le(a, b) == lex_le(a.skip(i), b.skip(i)),
    decreases i,
{
    if i > 0 {
        assert(a.len() > 0 && b.len() > 0 && a[0] == b[0]);
        assert(a.drop_first() =~= a.skip(1));
        assert(b.drop_first() =~= b.skip(1));
        assert(forall|k: int| 0 <= k < i - 1 ==> a.skip(1)[k] == b.skip(1)[k]) by {
            assert(forall|k: int| 0 <= k < i - 1 ==> a.skip(1)[k] == a[k + 1]);
            assert(forall|k: int| 0 <= k < i - 1 ==> b.skip(1)[k] == b[k + 1]);
        }
        lemma_lex_le_skip(a.skip(1), b.skip(1), i - 1);
        assert(a.skip(1).skip(i - 1) =~= a.skip(i));
        assert(b.skip(1).skip(i - 1) =~= b.skip(i));
    } else {
        assert(a.skip(0) =~= a);
        assert(b.skip(0) =~= b);
    }
}

/// Compares two character vectors in lexicographic order.
pub fn chars_le(a: &Vec<char>, b: &Vec<char>) -> (r: bool)
    ensures
        r == lex_le(a@, b@),
{
    let mut i: usize = 0;
    while i < a.len() && i < b.len() && a[i] == b[i]
        invariant
            i <= a@.len(),
            i <= b@.len(),
            forall|k: int| 0 <= k < i ==> a@[k] == b@[k],
        decreases a@.len() - i,
    {
        i = i + 1;
    }
    proof {
        lemma_lex_le_skip(a@, b@, i as int);
    }
    if i == a.len() {
        proof {
            assert(a@.skip(i as int) =~= Seq::<char>::empty());
        }
        true
    } else if i == b.len() {
        proof {
            assert(b@.skip(i as int) =~= Seq::<char>::empty());
            assert(a@.skip(i as int).len() > 0);
        }
        false
    } else {
        proof {
            assert(a@.skip(i as int)[0] == a@[i as int]);
            assert(b@.skip(i as int)[0] == b@[i as int]);
        }
        a[i] < b[i]
    }
}

/// True when `s[i..j]` is a maximal newline-free segment of `s`: it starts
/// at the beginning of the text or right after a newline, and ends at the end
/// of the text or right before a newline.
pub open spec fn is_line_at(s: Seq<char>, i: int, j: int) -> bool {
    &&& 0 <= i <= j <= s.len()
    &&& (i == 0 || s[i - 1] == '\n')
    &&& (j == s.len() || s[j] == '\n')
    &&& forall|k: int| i <= k < j ==> s[k] != '\n'
}

/// The segments that line-by-line reading yields: every maximal newline-free
/// segment except the empty one after a trailing newline (or of empty text).
pub open spec fn is_text_line(s: Seq<char>, i: int, j: int) -> bool {
    is_line_at(s, i, j) && i < s.len()
}

/// `t` without a trailing carriage return.
pub open spec fn strip_cr(t: Seq<char>) -> Seq<char> {
    if t.len() > 0 && t.last() == '\r' {
        t.drop_last()
    } else {
        t
    }
}

/// The spans `(i, j)` of all the lines of `s`, exactly as line-by-line
/// reading would yield them.
pub fn line_spans(s: &Vec<char>) -> (r: Vec<(usize, usize)>)
    ensures
        forall|k: int|
            0 <= k < r@.len() ==> is_text_line(
                s@,
                (#[trigger] r@[k]).0 as int,
                r@[k].1 as int,
            ),
        forall|i: int, j: int|
            is_text_line(s@, i, j) ==> exists|k: int|
                0 <= k < r@.len() && (#[trigger] r@[k]).0 == i && r@[k].1 == j,
        r@.len() == 0 <==> s@.len() == 0,
        forall|k1: int, k2: int|
            0 <= k1 < k2 < r@.len() ==> (#[trigger] r@[k1]).0 < (#[trigger] r@[k2]).0,
{
    let n = s.len();
    let mut r: Vec<(usize, usize)> = Vec::new();
    let mut start: usize = 0;
    while start < n
        invariant
            start <= n,
            n == s@.len(),
            start == 0 || start == n || s@[start - 1] == '\n',
            forall|k: int|
                0 <= k < r@.len() ==> is_text_line(
                    s@,
                    (#[trigger] r@[k]).0 as int,
                    r@[k].1 as int,
                ),
            forall|i: int, j: int|
                is_text_line(s@, i, j) && i < start ==> exists|k: int|
                    0 <= k < r@.len() && (#[trigger] r@[k]).0 == i && r@[k].1 == j,
            start > 0 ==> r@.len() > 0,
            start == 0 ==> r@.len() == 0,
            forall|k: int| 0 <= k < r@.len() ==> (#[trigger] r@[k]).0 < start,
            forall|k1: int, k2: int|
                0 <= k1 < k2 < r@.len() ==> (#[trigger] r@[k1]).0 < (#[trigger] r@[k2]).0,
        decreases n - start,
    {
        let mut j: usize = start;
        while j < n && s[j] != '\n'
            invariant
                start <= j <= n,
                n == s@.len(),
                forall|k: int| start <= k < j ==> s@[k] != '\n',
            decreases n - j,
        {
            j = j + 1;
        }
        let ghost old_r = r@;
        let ghost old_start = start as int;
        let ghost jj = j as int;
        r.push((start, j));
        proof {
            assert(is_text_line(s@, old_start, jj));
            assert(forall|k: int| 0 <= k < old_r.len() ==> r@[k] == old_r[k]);
            assert(r@[r@.len() - 1].0 == old_start && r@[r@.len() - 1].1 == jj);
        }
        if j == n {
            start = n;
        } else {
            start = j + 1;
        }
        proof {
            assert forall|i: int, j2: int|
                is_text_line(s@, i, j2) && i < start implies exists|k: int|
                0 <= k < r@.len() && (#[trigger] r@[k]).0 == i && r@[k].1 == j2 by {
                if i < old_start {
                    assert(exists|k: int|
                        0 <= k < old_r.len() && (#[trigger] old_r[k]).0 == i
                            && old_r[k].1 == j2);
                    let k0 = choose|k: int|
                        0 <= k < old_r.len() && (#[trigger] old_r[k]).0 == i
                            && old_r[k].1 == j2;
                    assert(r@[k0].0 == i && r@[k0].1 == j2);
                } else {
                    assert(i == old_start) by {
                        if i > old_start {
                            assert(s@[i - 1] == '\n');
                            assert(old_start <= i - 1 < jj);
                        }
                    }
                    assert(j2 == jj) by {
                        if j2 < jj {
                            assert(j2 < n);
                            assert(s@[j2] == '\n');
                            assert(old_start <= j2 < jj);
                        }
                        if j2 > jj {
                            assert(s@[jj] != '\n');
                            assert(jj < n);
                        }
                    }
                    assert(r@[r@.len() - 1].0 == i && r@[r@.len() - 1].1 == j2);
                }
            }
        }
    }
    r
}

/// Index of the first occurrence of `c` in `s`, or `s.len()` when absent.
pub open spec fn first_at(s: Seq<char>, c: char) -> int
    decreases s.len(),
{
    if s.len() == 0 {
        0
    } else if s[0] == c {
        0
    } else {
        1 + first_at(s.drop_first(), c)
    }
}

/// Index where the first occurrence of `..` starts in `s`, or `s.len()` when
/// absent.
pub open spec fn first_dd(s: Seq<char>) -> int
    decreases s.len(),
{
    if s.len() < 2 {
        s.len() as int
    } else if s[0] == '.' && s[1] == '.' {
        0
    } else {
        1 + first_dd(s.drop_first())
    }
}

/// `first_at` is the unique index with the first-occurrence properties.
pub proof fn lemma_first_at_unique(s: Seq<char>, c: char, i: int)
    requires
        0 <= i <= s.len(),
        i < s.len() ==> s[i] == c,
        forall|k: int| 0 <= k < i ==> s[k] != c,
        i == s.len() ==> forall|k: int| 0 <= k < s.len() ==> s[k] != c,
    ensures
        first_at(s, c) == i,
    decreases s.len(),
{
    if s.len() > 0 && s[0] != c {
        let t = s.drop_first();
        assert(forall|k: int| 0 <= k < t.len() ==> t[k] == s[k + 1]);
        lemma_first_at_unique(t, c, i - 1);
    }
}

/// `first_dd` is the unique index with the first-occurrence properties.
pub proof fn lemma_first_dd_unique(s: Seq<char>, i: int)
    requires
        0 <= i <= s.len(),
        i < s.len() ==> i + 1 < s.len() && s[i] == '.' && s[i + 1] == '.',
        forall|k: int| 0 <= k < i && k + 1 < s.len() ==> !(#[trigger] s[k] == '.' && s[k + 1] == '.'),
        i == s.len() ==> forall|k: int|
            0 <= k && k + 1 < s.len() ==> !(#[trigger] s[k] == '.' && s[k + 1] == '.'),
    ensures
        first_dd(s) == i,
    decreases s.len(),
{
    if s.len() >= 2 && !(s[0] == '.' && s[1] == '.') {
        let t = s.drop_first();
        assert(forall|k: int| 0 <= k < t.len() ==> t[k] == s[k + 1]);
        lemma_first_dd_unique(t, i - 1);
    }
}

/// First index at or past `from` where `c` stands in `s`, or `s.len()` when
/// there is none: `from + first_at(s@.skip(from as int), c)`.
pub fn find_char(s: &Vec<char>, from: usize, c: char) -> (r: usize)
    requires
        from <= s@.len(),
    ensures
        from <= r <= s@.len(),
        r == from + first_at(s@.skip(from as int), c),
        r < s@.len() ==> s@[r as int] == c,
        forall|k: int| from <= k < r ==> s@[k] != c,
{
    let n = s.len();
    let mut i: usize = from;
    while i < n && s[i] != c
        invariant
            from <= i <= n,
            n == s@.len(),
            forall|k: int| from <= k < i ==> s@[k] != c,
        decreases n - i,
    {
        i = i + 1;
    }
    proof {
        let t = s@.skip(from as int);
        assert(forall|k: int| 0 <= k < t.len() ==> t[k] == s@[k + from]);
        lemma_first_at_unique(t, c, i - from);
    }
    i
}

/// First index at or past `from` where `..` starts in `s`, or `s.len()` when
/// there is none: `from + first_dd(s@.skip(from as int))`.
pub fn find_dd(s: &Vec<char>, from: usize) -> (r: usize)
    requires
        from <= s@.len(),
    ensures
        from <= r <= s@.len(),
        r == from + first_dd(s@.skip(from as int)),
        r + 1 < s@.len() || r == s@.len(),
        r + 1 < s@.len() ==> s@[r as int] == '.' && s@[r as int + 1] == '.',
        forall|k: int|
            from <= k && k + 1 < s@.len() && k < r ==> !(#[trigger] s@[k] == '.' && s@[k + 1] == '.'),
{
    let n = s.len();
    let mut i: usize = from;
    while i < n && i + 1 < n && !(s[i] == '.' && s[i + 1] == '.')
        invariant
            from <= i <= n,
            n == s@.len(),
            forall|k: int|
                from <= k < i && k + 1 < n ==> !(#[trigger] s@[k] == '.' && s@[k + 1] == '.'),
        decreases n - i,
    {
        i = i + 1;
    }
    let r = if i < n && i + 1 < n {
        i
    } else {
        n
    };
    proof {
        let t = s@.skip(from as int);
        assert(forall|k: int| 0 <= k < t.len() ==> t[k] == s@[k + from]);
        lemma_first_dd_unique(t, r - from);
    }
    r
}

/// True when some line of `s`, once trimmed of blanks, is exactly `needle`.
pub open spec fn contains_line(s: Seq<char>, needle: Seq<char>) -> bool {
    exists|i: int, j: int| is_text_line(s, i, j) && trim_spec(s.subrange(i, j)) == needle
}

/// Compares `s@.subrange(from as int, to as int)` with `t@`.
pub fn range_eq(s: &Vec<char>, from: usize, to: usize, t: &Vec<char>) -> (r: bool)
    requires
        from <= to <= s@.len(),
    ensures
        r == (s@.subrange(from as int, to as int) == t@),
{
    let ghost sub = s@.subrange(from as int, to as int);
    if to - from != t.len() {
        return false;
    }
    let mut i: usize = 0;
    while i < t.len()
        invariant
            i <= t@.len(),
            from <= to <= s@.len(),
            to - from == t@.len(),
            sub == s@.subrange(from as int, to as int),
            forall|k: int| 0 <= k < i ==> sub[k] == t@[k],
        decreases t@.len() - i,
    {
        if s[from + i] != t[i] {
            assert(sub[i as int] != t@[i as int]);
            return false;
        }
        i = i + 1;
    }
    proof {
        assert(sub =~= t@);
    }
    true
}

/// Copies `s@.subrange(from as int, to as int)` out into a fresh vector.
pub fn sub_chars(s: &Vec<char>, from: usize, to: usize) -> (r: Vec<char>)
    requires
        from <= to <= s@.len(),
    ensures
        r@ == s@.subrange(from as int, to as int),
{
    let mut r: Vec<char> = Vec::new();
    let mut i: usize = from;
    while i < to
        invariant
            from <= i <= to <= s@.len(),
            r@ == s@.subrange(from as int, i as int),
        decreases to - i,
    {
        r.push(s[i]);
        i = i + 1;
        proof {
            assert(r@ =~= s@.subrange(from as int, i as int));
        }
    }
    r
}

/// Relies on `String::push`: appends exactly the given character.
#[verifier::external_body]
fn push_char(s: &mut String, c: char)
    ensures
        final(s)@ == old(s)@.push(c),
{
    s.push(c);
}

/// Builds the string whose characters are exactly `v`.
pub fn chars_to_string(v: &Vec<char>) -> (r: String)
    ensures
        r@ == v@,
{
    let mut r = String::new();
    let mut i: usize = 0;
    while i < v.len()
        invariant
            i <= v@.len(),
            r@ == v@.take(i as int),
        decreases v@.len() - i,
    {
        push_char(&mut r, v[i]);
        i = i + 1;
        proof {
            assert(r@ =~= v@.take(i as int));
        }
    }
    proof {
        assert(v@.take(v@.len() as int) =~= v@);
    }
    r
}

/// Whether the text `content` has a line that, trimmed of surrounding
/// blanks, equals `needle`.
pub fn file_contains_line(content: &str, needle: &str) -> (r: bool)
    ensures
        r == contains_line(content@, needle@),
{
    let chars = to_chars(content);
    let nv = to_chars(needle);
    let spans = line_spans(&chars);
    let mut k: usize = 0;
    while k < spans.len()
        invariant
            k <= spans@.len(),
            chars@ == content@,
            nv@ == needle@,
            forall|k2: int|
                0 <= k2 < spans@.len() ==> is_text_line(
                    chars@,
                    (#[trigger] spans@[k2]).0 as int,
                    spans@[k2].1 as int,
                ),
            forall|i: int, j: int|
                is_text_line(chars@, i, j) ==> exists|k2: int|
                    0 <= k2 < spans@.len() && (#[trigger] spans@[k2]).0 == i
                        && spans@[k2].1 == j,
            forall|k2: int|
                0 <= k2 < k ==> trim_spec(
                    chars@.subrange(
                        (#[trigger] spans@[k2]).0 as int,
                        spans@[k2].1 as int,
                    ),
                ) != needle@,
        decreases spans@.len() - k,
    {
        let (sp0, sp1) = (spans[k].0, spans[k].1);
        let (a, b) = trim_bounds(&chars, sp0, sp1);
        if range_eq(&chars, a, b, &nv) {
            proof {
                assert(is_text_line(content@, sp0 as int, sp1 as int));
                assert(trim_spec(content@.subrange(sp0 as int, sp1 as int)) == needle@);
            }
            return true;
        }
        k = k + 1;
    }
    proof {
        assert forall|i: int, j: int|
            is_text_line(content@, i, j) implies trim_spec(content@.subrange(i, j))
            != needle@ by {
            let k2 = choose|k2: int|
                0 <= k2 < spans@.len() && (#[trigger] spans@[k2]).0 == i
                    && spans@[k2].1 == j;
            assert(trim_spec(chars@.subrange(spans@[k2].0 as int, spans@[k2].1 as int))
                != needle@);
        }
    }
    false
}

/// Whether `content` and `target` are exactly the same text.
pub fn file_matches_string(content: &str, target: &str) -> (r: bool)
    ensures
        r == (content@ == target@),
{
    let a = to_chars(content);
    let b = to_chars(target);
    if a.len() != b.len() {
        return false;
    }
    let mut i: usize = 0;
    while i < a.len()
        invariant
            i <= a@.len(),
            a@.len() == b@.len(),
            a@ == content@,
            b@ == target@,
            forall|k: int| 0 <= k < i ==> a@[k] == b@[k],
        decreases a@.len() - i,
    {
        if a[i] != b[i] {
            return false;
        }
        i = i + 1;
    }
    proof {
        assert(a@ =~= b@);
    }
    true
}

/// Collects the characters of `s` into a vector.
pub fn to_chars(s: &str) -> (r: Vec<char>)
    ensures
        r@ == s@,
{
    let n = s.unicode_len();
    let mut r: Vec<char> = Vec::new();
    let mut i: usize = 0;
    while i < n
        invariant
            i <= n,
            n == s@.len(),
            r@ == s@.subrange(0, i as int),
        decreases n - i,
    {
        r.push(s.get_char(i));
        i = i + 1;
        proof {
            assert(r@ =~= s@.subrange(0, i as int));
        }
    }
    proof {
        assert(r@ =~= s@);
    }
    r
}

} // verus!
