//! Small generators and readers of Python source text.
use vstd::prelude::*;
use crate::text::{
    all_digits, chars_of, digits_value, parse_digits_in, push_char, split_all, split_on,
    trim_bounds, trimmed,
};

verus! {

/// One level of indentation.
pub open spec fn indent() -> Seq<char> {
    seq![' ', ' ', ' ', ' ']
}

/// The assignment that stores the constructor argument `var` on `self`,
/// followed by a newline and the indentation of the next statement.
pub open spec fn init_line(var: Seq<char>) -> Seq<char> {
    indent() + seq!['s', 'e', 'l', 'f', '.', '_'] + var + seq![' ', '=', ' '] + var + seq!['\n']
        + indent()
}

/// The assignments for the names `fields`, each trimmed, in order.
pub open spec fn init_block(fields: Seq<Seq<char>>) -> Seq<char>
    decreases fields.len(),
{
    if fields.len() == 0 {
        Seq::<char>::empty()
    } else {
        init_block(fields.drop_last()) + init_line(trimmed(fields.last()))
    }
}

fn push_indent(s: &mut String)
    ensures
        final(s)@ == old(s)@ + indent(),
{
    push_char(s, ' ');
    push_char(s, ' ');
    push_char(s, ' ');
    push_char(s, ' ');
    assert(final(s)@ =~= old(s)@ + indent());
}

fn push_range(s: &mut String, v: &Vec<char>, lo: usize, hi: usize)
    requires
        lo <= hi <= v.len(),
    ensures
        final(s)@ == old(s)@ + v@.subrange(lo as int, hi as int),
{
    let ghost start = s@;
    for i in lo..hi
        invariant
            hi <= v.len(),
            s@ == start + v@.subrange(lo as int, i as int),
    {
        push_char(s, v[i]);
        assert(s@ =~= start + v@.subrange(lo as int, i + 1));
    }
}

/// The body of an `__init__` that stores each of the comma-separated names
/// `variables_str` as a private attribute: `    self._x = x\n    ` per name.
pub fn gen_init(variables_str: &str) -> (r: String)
    ensures
        r@ == init_block(split_on(variables_str@, ',')),
{
    let chars = chars_of(variables_str);
    let fields = split_all(&chars, ',');
    let ghost fs = split_on(variables_str@, ',');
    let mut res = String::new();
    for i in 0..fields.len()
        invariant
            fields@.len() == fs.len(),
            forall|j: int| 0 <= j < fields@.len() ==> #[trigger] fields@[j]@ == fs[j],
            res@ == init_block(fs.take(i as int)),
    {
        let field = &fields[i];
        let (a, b) = trim_bounds(field, 0, field.len());
        assert(field@.subrange(0, field@.len() as int) =~= field@);
        let ghost before = res@;
        push_indent(&mut res);
        push_char(&mut res, 's');
        push_char(&mut res, 'e');
        push_char(&mut res, 'l');
        push_char(&mut res, 'f');
        push_char(&mut res, '.');
        push_char(&mut res, '_');
        push_range(&mut res, field, a, b);
        push_char(&mut res, ' ');
        push_char(&mut res, '=');
        push_char(&mut res, ' ');
        push_range(&mut res, field, a, b);
        push_char(&mut res, '\n');
        push_indent(&mut res);
        assert(fs.take(i + 1).drop_last() =~= fs.take(i as int));
        assert(fs.take(i + 1).last() == fs[i as int]);
        assert(res@ =~= before + init_line(trimmed(fs[i as int])));
    }
    assert(fs.take(fs.len() as int) =~= fs);
    res
}

/// The digits of each `argv[<digits>]` in a line of Python, in order, as
/// the regular expression `argv\[(\d+)\]` captures them (`\d` being any
/// Unicode decimal digit).
pub uninterp spec fn argv_indices(line: Seq<char>) -> Seq<Seq<char>>;

/// Relies on `regex::Regex::captures_iter` with `argv\[(\d+)\]`: the group
/// of every match, in order, each holding at least one character.
#[verifier::external_body]
fn argv_index_texts(line: &str) -> (r: Vec<String>)
    ensures
        r@.len() == argv_indices(line@).len(),
        forall|j: int| 0 <= j < r@.len() ==> #[trigger] r@[j]@ == argv_indices(line@)[j] && r@[j]@.len() > 0,
{
    let re = regex::Regex::new(r"argv\[(\d+)\]").unwrap();
    let all: Vec<String> = re.captures_iter(line).map(|c| c[1].to_string()).collect();
    all
}

/// The texts of a list of strings.
pub open spec fn texts(v: Seq<String>) -> Seq<Seq<char>> {
    v.map(|_i: int, s: String| s@)
}

/// Whether an index is written in ASCII digits and one more fits in an `i32`.
pub open spec fn readable_index(d: Seq<char>) -> bool {
    d.len() > 0 && all_digits(d) && digits_value(d) < i32::MAX
}

/// The largest of the indices, or zero when there is none.
pub open spec fn highest_index(indices: Seq<Seq<char>>) -> nat
    decreases indices.len(),
{
    if indices.len() == 0 {
        0
    } else {
        let rest = highest_index(indices.drop_last());
        let last = digits_value(indices.last());
        if last > rest {
            last
        } else {
            rest
        }
    }
}

/// The number of arguments read by a line whose `argv` indices are written
/// `indices`: one more than the highest index, one when there is none, and
/// `None` where an index is not ASCII digits or the count does not fit in an
/// `i32`.
pub open spec fn argument_count(indices: Seq<Seq<char>>) -> Option<i32> {
    if forall|j: int| 0 <= j < indices.len() ==> #[trigger] readable_index(indices[j]) {
        Some((highest_index(indices) + 1) as i32)
    } else {
        None
    }
}

/// The argument count for the captured indices; see `argument_count`.
pub fn argument_count_from_indices(indices: &Vec<String>) -> (r: Option<i32>)
    ensures
        r == argument_count(texts(indices@)),
{
    let ghost ix = texts(indices@);
    let mut best: u32 = 0;
    for i in 0..indices.len()
        invariant
            ix == texts(indices@),
            forall|j: int| 0 <= j < i ==> #[trigger] readable_index(ix[j]),
            best == highest_index(ix.take(i as int)),
            best < i32::MAX,
    {
        let v = chars_of(indices[i].as_str());
        assert(v@.subrange(0, v@.len() as int) =~= v@);
        assert(v@ == ix[i as int]);
        assert(ix.take(i + 1).drop_last() =~= ix.take(i as int));
        assert(ix.take(i + 1).last() == ix[i as int]);
        match parse_digits_in(&v, 0, v.len(), 2147483646) {
            Some(n) => {
                if n > best {
                    best = n;
                }
            },
            None => {
                assert(!readable_index(ix[i as int]));
                return None;
            },
        }
    }
    assert(ix.take(indices@.len() as int) =~= ix);
    Some((best + 1) as i32)
}

/// One more than the highest `argv` index in `line`, that is the number of
/// arguments read so far, or `None` where that number is not an `i32`.
pub fn get_last_read_argument(line: &str) -> (r: Option<i32>)
    ensures
        r == argument_count(argv_indices(line@)),
{
    let found = argv_index_texts(line);
    assert(texts(found@) =~= argv_indices(line@));
    argument_count_from_indices(&found)
}

} // verus!
