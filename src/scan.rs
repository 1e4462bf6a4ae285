//! Searching log-like text for the most recent line that holds a pattern.
//!
//! Files are visited freshest first and each file is read from its last line
//! backwards: log files grow at the end, so the entry sought usually sits at
//! the end of the file touched last. This order is a policy, not a
//! correctness requirement.
use vstd::prelude::*;
use crate::duration::{generate_duration, normalized_duration};
use crate::text::{
    chars_of, first_index, lemma_split_nonempty, push_char, push_str, split_all, split_on,
};

verus! {

/// The lines of `s` as `str::lines` yields them: split at `\n`, a `\r` right
/// before a `\n` dropped, and no empty line after a final newline.
pub open spec fn file_lines(s: Seq<char>) -> Seq<Seq<char>> {
    let p = split_on(s, '\n');
    let kept = if p.last().len() == 0 { p.drop_last() } else { p };
    kept.map(|j: int, l: Seq<char>| line_of_piece(l, j < p.len() - 1))
}

/// A piece as a line: a piece followed by a newline loses a final `\r`.
pub open spec fn line_of_piece(l: Seq<char>, before_newline: bool) -> Seq<char> {
    if before_newline && l.len() > 0 && l.last() == '\r' {
        l.drop_last()
    } else {
        l
    }
}

/// Whether `p` occurs in `s` as a contiguous run.
pub open spec fn contains(s: Seq<char>, p: Seq<char>) -> bool {
    exists|i: int| 0 <= i && i + p.len() <= s.len() && #[trigger] s.subrange(i, i + p.len()) == p
}

/// Whether `s` opens with a field of digits and colons closed by `;`
/// (the shape `^[0-9:]+;`).
pub open spec fn has_clock_field(s: Seq<char>) -> bool {
    exists|k: int|
        0 < k < s.len() && s[k] == ';' && forall|j: int|
            0 <= j < k ==> #[trigger] is_clock_char(s[j])
}

pub open spec fn is_clock_char(c: char) -> bool {
    ('0' <= c && c <= '9') || c == ':'
}

/// Whether a line is a candidate: it holds the pattern and, when a duration
/// is asked for, opens with a clock field.
pub open spec fn selected(l: Seq<char>, pattern: Seq<char>, with_duration: bool) -> bool {
    contains(l, pattern) && (!with_duration || has_clock_field(l))
}

/// The last candidate among `lines`.
pub open spec fn last_selected(lines: Seq<Seq<char>>, pattern: Seq<char>, with_duration: bool) -> Option<
    Seq<char>,
>
    decreases lines.len(),
{
    if lines.len() == 0 {
        None
    } else if selected(lines.last(), pattern, with_duration) {
        Some(lines.last())
    } else {
        last_selected(lines.drop_last(), pattern, with_duration)
    }
}

/// Relies on `regex::Regex::is_match` for the anchored pattern `^[0-9:]+;`:
/// a run of at least one digit or colon at the start, then a semicolon.
#[verifier::external_body]
fn starts_with_clock_field(line: &str) -> (r: bool)
    ensures
        r == has_clock_field(line@),
{
    regex::Regex::new(r"^[0-9:]+;").unwrap().is_match(line)
}

/// Whether `p` occurs in `s`.
pub fn contains_chars(s: &Vec<char>, p: &Vec<char>) -> (r: bool)
    ensures
        r == contains(s@, p@),
{
    if p.len() > s.len() {
        return false;
    }
    let mut i: usize = 0;
    while i <= s.len() - p.len()
        invariant
            p.len() <= s.len(),
            forall|a: int| 0 <= a < i ==> #[trigger] s@.subrange(a, a + p@.len()) != p@,
        decreases s.len() - i,
    {
        let mut j: usize = 0;
        while j < p.len() && s[i + j] == p[j]
            invariant
                i + p.len() <= s.len(),
                j <= p.len(),
                forall|b: int| 0 <= b < j ==> s@[i + b] == p@[b],
            decreases p.len() - j,
        {
            j = j + 1;
        }
        if j == p.len() {
            assert(s@.subrange(i as int, i + p@.len()) =~= p@);
            return true;
        }
        assert(s@.subrange(i as int, i + p@.len())[j as int] != p@[j as int]);
        i = i + 1;
    }
    assert forall|a: int| 0 <= a && a + p@.len() <= s@.len() implies #[trigger] s@.subrange(
        a,
        a + p@.len(),
    ) != p@ by {
        assert(a < i);
    }
    false
}

/// The text of a sequence of characters.
pub fn string_of(v: &Vec<char>) -> (r: String)
    ensures
        r@ == v@,
{
    let mut r = String::new();
    for i in 0..v.len()
        invariant
            r@ == v@.take(i as int),
    {
        push_char(&mut r, v[i]);
        assert(r@ =~= v@.take(i + 1));
    }
    assert(v@.take(v@.len() as int) =~= v@);
    r
}

/// The line of `content` that `str::lines` would yield at `j`.
fn line_at(ps: &Vec<Vec<char>>, j: usize) -> (r: Vec<char>)
    requires
        j < ps@.len(),
    ensures
        r@ == line_of_piece(ps@[j as int]@, j + 1 < ps@.len()),
{
    let piece = &ps[j];
    let mut end = piece.len();
    if j < ps.len() - 1 && end > 0 && piece[end - 1] == '\r' {
        end = end - 1;
    }
    let mut r: Vec<char> = Vec::new();
    for i in 0..end
        invariant
            end <= piece@.len(),
            r@ == piece@.take(i as int),
    {
        r.push(piece[i]);
        assert(r@ =~= piece@.take(i + 1));
    }
    assert(piece@.take(end as int) =~= line_of_piece(ps@[j as int]@, j + 1 < ps@.len()));
    r
}

/// The last line of `content` that holds `pattern` and, when `with_duration`
/// is set, opens with a clock field.
pub fn last_matching_line(content: &str, pattern: &Vec<char>, with_duration: bool) -> (r: Option<
    Vec<char>,
>)
    ensures
        match r {
            Some(l) => last_selected(file_lines(content@), pattern@, with_duration) == Some(l@),
            None => last_selected(file_lines(content@), pattern@, with_duration) is None,
        },
{
    let chars = chars_of(content);
    let ps = split_all(&chars, '\n');
    let ghost p = split_on(content@, '\n');
    let ghost lines = file_lines(content@);
    proof {
        assert(p.len() > 0) by {
            lemma_split_nonempty(content@, '\n');
        }
    }
    let mut n = ps.len();
    if ps[n - 1].len() == 0 {
        n = n - 1;
    }
    assert(lines.len() == n);
    assert(lines.take(n as int) =~= lines);
    let mut j = n;
    while j > 0
        invariant
            j <= n <= ps@.len(),
            n == lines.len(),
            ps@.len() == p.len(),
            forall|i: int| 0 <= i < ps@.len() ==> #[trigger] ps@[i]@ == p[i],
            lines == file_lines(content@),
            p == split_on(content@, '\n'),
            last_selected(lines.take(j as int), pattern@, with_duration) == last_selected(
                lines,
                pattern@,
                with_duration,
            ),
        decreases j,
    {
        let line = line_at(&ps, j - 1);
        let ghost t = lines.take(j as int);
        assert(t.last() == line@);
        assert(t.drop_last() =~= lines.take(j - 1));
        if contains_chars(&line, pattern) {
            if !with_duration {
                return Some(line);
            }
            let text = string_of(&line);
            if starts_with_clock_field(text.as_str()) {
                return Some(line);
            }
        }
        j = j - 1;
    }
    None
}

/// Whether file `i` comes before file `j`: it was modified more recently
/// (its age is smaller), or as recently and it is listed first.
pub open spec fn fresher(ages: Seq<u64>, i: int, j: int) -> bool {
    ages[i] < ages[j] || (ages[i] == ages[j] && i < j)
}

/// Whether `r` lists every file index once, freshest first.
pub open spec fn is_recency_order(ages: Seq<u64>, r: Seq<usize>) -> bool {
    &&& r.len() == ages.len()
    &&& forall|p: int| 0 <= p < r.len() ==> #[trigger] r[p] < ages.len()
    &&& forall|p: int, q: int| 0 <= p < q < r.len() ==> fresher(ages, #[trigger] r[p] as int, #[trigger] r[q] as int)
    &&& forall|k: int| 0 <= k < ages.len() ==> #[trigger] lists(r, k)
}

/// Whether `r` holds the index `k`.
pub open spec fn lists(r: Seq<usize>, k: int) -> bool {
    exists|p: int| 0 <= p < r.len() && r[p] == k
}

/// The indices of the files, ordered by time since their last change,
/// shortest first; files of equal age keep their listed order.
pub fn recency_order(ages: &Vec<u64>) -> (r: Vec<usize>)
    ensures
        is_recency_order(ages@, r@),
{
    let mut r: Vec<usize> = Vec::new();
    for i in 0..ages.len()
        invariant
            r@.len() == i,
            forall|p: int| 0 <= p < r@.len() ==> #[trigger] r@[p] < i,
            forall|p: int, q: int| 0 <= p < q < r@.len() ==> fresher(ages@, #[trigger] r@[p] as int, #[trigger] r@[q] as int),
            forall|k: int| 0 <= k < i ==> #[trigger] lists(r@, k),
    {
        let mut pos: usize = 0;
        while pos < r.len() && ages[r[pos]] <= ages[i]
            invariant
                pos <= r@.len(),
                r@.len() == i,
                i < ages@.len(),
                forall|p: int| 0 <= p < r@.len() ==> #[trigger] r@[p] < i,
                forall|p: int| 0 <= p < pos ==> ages@[#[trigger] r@[p] as int] <= ages@[i as int],
            decreases r@.len() - pos,
        {
            pos = pos + 1;
        }
        let ghost old_r = r@;
        r.insert(pos, i);
        assert(r@ == old_r.insert(pos as int, i));
        assert forall|p: int, q: int| 0 <= p < q < r@.len() implies fresher(ages@, #[trigger] r@[p] as int, #[trigger] r@[q] as int) by {
            if q < pos {
                assert(r@[p] == old_r[p] && r@[q] == old_r[q]);
            } else if q == pos {
                assert(r@[p] == old_r[p]);
            } else if p == pos {
                assert(r@[q] == old_r[q - 1]);
                if q - 1 > pos {
                    assert(fresher(ages@, old_r[pos as int] as int, old_r[q - 1] as int));
                }
            } else if p < pos {
                assert(r@[p] == old_r[p] && r@[q] == old_r[q - 1]);
            } else {
                assert(r@[p] == old_r[p - 1] && r@[q] == old_r[q - 1]);
            }
        }
        assert forall|k: int| 0 <= k < i + 1 implies #[trigger] lists(r@, k) by {
            if k == i {
                assert(r@[pos as int] == k);
            } else {
                assert(lists(old_r, k));
                let p0 = choose|p: int| 0 <= p < old_r.len() && old_r[p] == k;
                if p0 < pos {
                    assert(r@[p0] == k);
                } else {
                    assert(r@[p0 + 1] == k);
                }
            }
        }
    }
    r
}

/// A file of the directory searched: how long ago it was last modified, and
/// its text, or `None` where it could not be read as text.
pub struct LogFile {
    pub age_secs: u64,
    pub content: Option<String>,
}

pub open spec fn ages_of(files: Seq<LogFile>) -> Seq<u64> {
    files.map(|_i: int, f: LogFile| f.age_secs)
}

pub open spec fn contents_of(files: Seq<LogFile>) -> Seq<Option<Seq<char>>> {
    files.map(
        |_i: int, f: LogFile|
            match f.content {
                Some(t) => Some(t@),
                None => None,
            },
    )
}

/// The last candidate line of a file; an unreadable file has none.
pub open spec fn file_match(content: Option<Seq<char>>, pattern: Seq<char>, with_duration: bool) -> Option<
    Seq<char>,
> {
    match content {
        Some(t) => last_selected(file_lines(t), pattern, with_duration),
        None => None,
    }
}

/// Whether file `i` holds a candidate line and is fresher than every other
/// file that holds one.
pub open spec fn is_freshest_match(
    ages: Seq<u64>,
    contents: Seq<Option<Seq<char>>>,
    pattern: Seq<char>,
    with_duration: bool,
    i: int,
) -> bool {
    &&& 0 <= i < contents.len()
    &&& file_match(contents[i], pattern, with_duration) is Some
    &&& forall|j: int|
        0 <= j < contents.len() && j != i && (#[trigger] file_match(contents[j], pattern, with_duration)) is Some
            ==> fresher(ages, i, j)
}

/// The line found in a directory: the last candidate line of the freshest
/// file that holds one, or nothing.
pub open spec fn freshest_match(
    ages: Seq<u64>,
    contents: Seq<Option<Seq<char>>>,
    pattern: Seq<char>,
    with_duration: bool,
) -> Option<Seq<char>> {
    if exists|i: int| is_freshest_match(ages, contents, pattern, with_duration, i) {
        let i = choose|i: int| is_freshest_match(ages, contents, pattern, with_duration, i);
        file_match(contents[i], pattern, with_duration)
    } else {
        None
    }
}

/// A line without its leading field and the `;` closing it; a line with no
/// `;`, or with an empty leading field, is kept whole.
pub open spec fn without_leading_field(l: Seq<char>) -> Seq<char> {
    match first_index(l, ';') {
        Some(k) => if k > 0 {
            l.subrange(k + 1, l.len() as int)
        } else {
            l
        },
        None => l,
    }
}

/// The text returned for a found line: nothing when none was found, the line
/// itself when no duration is given, else the normalised duration, `;` and
/// the line without its leading field.
pub open spec fn annotated(found: Option<Seq<char>>, duration: Seq<char>) -> Seq<char> {
    match found {
        None => Seq::<char>::empty(),
        Some(l) => if duration.len() == 0 {
            l
        } else {
            normalized_duration(duration) + seq![';'] + without_leading_field(l)
        },
    }
}

/// What `find_matching_line` returns for these files.
pub open spec fn scan_result(files: Seq<LogFile>, pattern: Seq<char>, duration: Seq<char>) -> Seq<
    char,
> {
    annotated(
        freshest_match(ages_of(files), contents_of(files), pattern, duration.len() > 0),
        duration,
    )
}

/// Relies on `regex::Regex::replace` with the anchored pattern `^[^;]+;` and
/// an empty replacement: a first `;` after at least one other character is
/// removed together with everything before it.
#[verifier::external_body]
fn strip_leading_field(line: &str) -> (r: String)
    ensures
        r@ == without_leading_field(line@),
{
    regex::Regex::new(r"^[^;]+;").unwrap().replace(line, "").into_owned()
}

fn match_in_file(f: &LogFile, pattern: &Vec<char>, with_duration: bool) -> (r: Option<Vec<char>>)
    ensures
        match r {
            Some(l) => file_match(
                match f.content {
                    Some(t) => Some(t@),
                    None => None,
                },
                pattern@,
                with_duration,
            ) == Some(l@),
            None => file_match(
                match f.content {
                    Some(t) => Some(t@),
                    None => None,
                },
                pattern@,
                with_duration,
            ) is None,
        },
{
    match &f.content {
        Some(t) => last_matching_line(t.as_str(), pattern, with_duration),
        None => None,
    }
}

/// The line of the freshest file that holds a candidate, if any.
pub fn freshest_matching_line(files: &Vec<LogFile>, pattern: &str, with_duration: bool) -> (r: Option<
    String,
>)
    ensures
        match r {
            Some(l) => freshest_match(ages_of(files@), contents_of(files@), pattern@, with_duration)
                == Some(l@),
            None => freshest_match(ages_of(files@), contents_of(files@), pattern@, with_duration) is None,
        },
{
    let ghost ages_s = ages_of(files@);
    let ghost contents = contents_of(files@);
    let mut ages: Vec<u64> = Vec::new();
    for i in 0..files.len()
        invariant
            ages@ == ages_s.take(i as int),
            ages_s == ages_of(files@),
    {
        ages.push(files[i].age_secs);
        assert(ages@ =~= ages_s.take(i + 1));
    }
    assert(ages@ =~= ages_s);
    let order = recency_order(&ages);
    let pat = chars_of(pattern);
    let mut p: usize = 0;
    while p < order.len()
        invariant
            is_recency_order(ages_s, order@),
            ages_s == ages_of(files@),
            contents == contents_of(files@),
            pat@ == pattern@,
            p <= order@.len(),
            forall|q: int| 0 <= q < p ==> (#[trigger] file_match(contents[order@[q] as int], pattern@, with_duration)) is None,
        decreases order@.len() - p,
    {
        let idx = order[p];
        let found = match_in_file(&files[idx], &pat, with_duration);
        assert(contents[idx as int] == match files@[idx as int].content {
            Some(t) => Some(t@),
            None => None,
        });
        match found {
            Some(l) => {
                proof {
                    assert forall|j: int|
                        0 <= j < contents.len() && j != idx && (#[trigger] file_match(contents[j], pattern@, with_duration)) is Some
                        implies fresher(ages_s, idx as int, j) by {
                        assert(lists(order@, j));
                        let q = choose|q: int| 0 <= q < order@.len() && order@[q] == j;
                        if q < p {
                            assert(file_match(contents[order@[q] as int], pattern@, with_duration) is None);
                        }
                    }
                    assert(is_freshest_match(ages_s, contents, pattern@, with_duration, idx as int));
                    let c = choose|i: int| is_freshest_match(ages_s, contents, pattern@, with_duration, i);
                    if c != idx {
                        assert(fresher(ages_s, c, idx as int));
                        assert(fresher(ages_s, idx as int, c));
                    }
                }
                return Some(string_of(&l));
            },
            None => {},
        }
        p = p + 1;
    }
    proof {
        assert forall|i: int| !is_freshest_match(ages_s, contents, pattern@, with_duration, i) by {
            if 0 <= i < contents.len() {
                assert(lists(order@, i));
                let q = choose|q: int| 0 <= q < order@.len() && order@[q] == i;
                assert(file_match(contents[order@[q] as int], pattern@, with_duration) is None);
            }
        }
    }
    None
}

/// Finds the most recent line holding `pattern` among the files. With an
/// empty `duration` the line is returned as it is; otherwise only lines that
/// open with a clock field are considered, and the field found is replaced
/// by the normalised duration. Returns the empty string when nothing matches.
pub fn find_matching_line(files: &Vec<LogFile>, pattern: &str, duration: &str) -> (r: String)
    ensures
        r@ == scan_result(files@, pattern@, duration@),
{
    let with_duration = !duration.is_empty();
    match freshest_matching_line(files, pattern, with_duration) {
        None => String::new(),
        Some(line) => if !with_duration {
            line
        } else {
            let mut r = generate_duration(duration);
            push_char(&mut r, ';');
            let rest = strip_leading_field(line.as_str());
            push_str(&mut r, rest.as_str());
            r
        },
    }
}

/// A directory without files yields the empty string, whatever the pattern
/// and duration.
pub proof fn lemma_empty_directory_finds_nothing(
    files: Seq<LogFile>,
    pattern: Seq<char>,
    duration: Seq<char>,
)
    requires
        files.len() == 0,
    ensures
        scan_result(files, pattern, duration) == Seq::<char>::empty(),
{
    let wd = duration.len() > 0;
    assert(!exists|i: int| is_freshest_match(ages_of(files), contents_of(files), pattern, wd, i));
}

/// When one file holding a candidate line was modified more recently than
/// every other file holding one, the line found is that file's, whatever the
/// older files hold and wherever it stands in them.
pub proof fn lemma_freshest_file_wins(
    files: Seq<LogFile>,
    pattern: Seq<char>,
    with_duration: bool,
    i: int,
)
    requires
        0 <= i < files.len(),
        file_match(contents_of(files)[i], pattern, with_duration) is Some,
        forall|j: int|
            0 <= j < files.len() && j != i && (#[trigger] file_match(
                contents_of(files)[j],
                pattern,
                with_duration,
            )) is Some ==> files[i].age_secs < files[j].age_secs,
    ensures
        freshest_match(ages_of(files), contents_of(files), pattern, with_duration) == file_match(
            contents_of(files)[i],
            pattern,
            with_duration,
        ),
{
    let ages = ages_of(files);
    let contents = contents_of(files);
    assert(is_freshest_match(ages, contents, pattern, with_duration, i));
    let c = choose|c: int| is_freshest_match(ages, contents, pattern, with_duration, c);
    if c != i {
        assert(fresher(ages, c, i));
        assert(fresher(ages, i, c));
    }
}

proof fn lemma_last_selected_is_selected(
    lines: Seq<Seq<char>>,
    pattern: Seq<char>,
    with_duration: bool,
)
    ensures
        last_selected(lines, pattern, with_duration) matches Some(l) ==> selected(
            l,
            pattern,
            with_duration,
        ),
    decreases lines.len(),
{
    if lines.len() > 0 {
        lemma_last_selected_is_selected(lines.drop_last(), pattern, with_duration);
    }
}

/// With a duration asked for, the line found holds the pattern and opens with
/// a clock field: lines without such a field are never found, even when they
/// hold the pattern.
pub proof fn lemma_duration_needs_clock_field(
    ages: Seq<u64>,
    contents: Seq<Option<Seq<char>>>,
    pattern: Seq<char>,
)
    ensures
        freshest_match(ages, contents, pattern, true) matches Some(l) ==> contains(l, pattern)
            && has_clock_field(l),
{
    if exists|i: int| is_freshest_match(ages, contents, pattern, true, i) {
        let i = choose|i: int| is_freshest_match(ages, contents, pattern, true, i);
        match contents[i] {
            Some(t) => lemma_last_selected_is_selected(file_lines(t), pattern, true),
            None => {},
        }
    }
}

/// Searching files with the same ages and contents twice gives the same
/// text.
pub proof fn lemma_search_is_repeatable(
    a: Seq<LogFile>,
    b: Seq<LogFile>,
    pattern: Seq<char>,
    duration: Seq<char>,
)
    requires
        ages_of(a) == ages_of(b),
        contents_of(a) == contents_of(b),
    ensures
        scan_result(a, pattern, duration) == scan_result(b, pattern, duration),
{
}

} // verus!
