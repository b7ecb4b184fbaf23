//! Reading the command line: the sides of the grid, the two file names, the
//! number of worker threads and the query cells.
//!
//! Each argument after the first is taken by its form. An argument that fits
//! no form, or fits one but does not parse, changes nothing.

use vstd::prelude::*;
use crate::keys::{digit_of, digits_value};
use crate::line::Coordinate;

verus! {

/// The sides of the grid where the command line names none.
pub const DEFAULT_SIDE: u32 = 5000;

/// `c` is a decimal digit.
pub open spec fn is_digit(c: char) -> bool {
    c == '0' || c == '1' || c == '2' || c == '3' || c == '4' || c == '5' || c == '6' || c == '7'
        || c == '8' || c == '9'
}

/// The number that `s` writes, where `s` is one digit or more and the number
/// is at most `max`.
pub open spec fn digits_within(s: Seq<char>, max: int) -> Option<int> {
    if s.len() > 0 && (forall|i: int| 0 <= i < s.len() ==> is_digit(#[trigger] s[i]))
        && digits_value(s) <= max {
        Some(digits_value(s) as int)
    } else {
        None
    }
}

/// The number that `s` writes as an unsigned decimal of at most `max`: digits,
/// after a plus sign or none.
pub open spec fn unsigned_value(s: Seq<char>, max: int) -> Option<int> {
    if s.len() > 0 && s[0] == '+' {
        digits_within(s.skip(1), max)
    } else {
        digits_within(s, max)
    }
}

/// The number that `s` writes as a signed decimal in the range of `i32`:
/// digits, after a plus sign, a minus sign or none.
pub open spec fn signed_value(s: Seq<char>) -> Option<int> {
    if s.len() > 0 && s[0] == '-' {
        match digits_within(s.skip(1), 0x8000_0000) {
            Some(v) => Some(-v),
            None => None,
        }
    } else {
        unsigned_value(s, 0x7fff_ffff)
    }
}

/// `sep` stands at `i` in `s` and nowhere else.
pub open spec fn only_at(s: Seq<char>, sep: char, i: int) -> bool {
    &&& 0 <= i < s.len()
    &&& s[i] == sep
    &&& forall|j: int| 0 <= j < s.len() && j != i ==> #[trigger] s[j] != sep
}

/// What stands before and after the only `sep` in `s`; `None` where `sep`
/// occurs more than once or not at all.
pub open spec fn two_parts(s: Seq<char>, sep: char) -> Option<(Seq<char>, Seq<char>)> {
    if exists|i: int| only_at(s, sep, i) {
        let i = choose|i: int| only_at(s, sep, i);
        Some((s.take(i), s.skip(i + 1)))
    } else {
        None
    }
}

/// `s` ends with `suffix`.
pub open spec fn has_suffix(s: Seq<char>, suffix: Seq<char>) -> bool {
    s.len() >= suffix.len() && s.skip(s.len() - suffix.len()) == suffix
}

/// The sides that an argument of the form `WIDTHxHEIGHT` names.
pub open spec fn sides_of(arg: Seq<char>) -> Option<(int, int)> {
    match two_parts(arg, 'x') {
        Some((left, right)) => match (
            unsigned_value(left, u32::MAX as int),
            unsigned_value(right, u32::MAX as int),
        ) {
            (Some(w), Some(h)) => Some((w, h)),
            _ => None,
        },
        None => None,
    }
}

/// What is taken off the ends of a text: a space, and a bracket too where
/// `brackets` is set.
pub open spec fn is_wrapping(c: char, brackets: bool) -> bool {
    c == ' ' || (brackets && (c == '(' || c == ')'))
}

/// `s` without the wrapping characters at its start.
pub open spec fn trim_start(s: Seq<char>, brackets: bool) -> Seq<char>
    decreases s.len(),
{
    if s.len() > 0 && is_wrapping(s[0], brackets) {
        trim_start(s.skip(1), brackets)
    } else {
        s
    }
}

/// `s` without the wrapping characters at its end.
pub open spec fn trim_end(s: Seq<char>, brackets: bool) -> Seq<char>
    decreases s.len(),
{
    if s.len() > 0 && is_wrapping(s.last(), brackets) {
        trim_end(s.drop_last(), brackets)
    } else {
        s
    }
}

/// `s` without the wrapping characters at both ends.
pub open spec fn trimmed(s: Seq<char>, brackets: bool) -> Seq<char> {
    trim_end(trim_start(s, brackets), brackets)
}

/// The cell that an argument of the form `(X, Y)` names: its brackets and
/// outer spaces taken off, the rest is two signed numbers with one comma
/// between them; spaces may stand on either side of each number.
pub open spec fn point_of(arg: Seq<char>) -> Option<(int, int)> {
    match two_parts(trimmed(arg, true), ',') {
        Some((left, right)) => match (
            signed_value(trimmed(left, false)),
            signed_value(trimmed(right, false)),
        ) {
            (Some(x), Some(y)) => Some((x, y)),
            _ => None,
        },
        None => None,
    }
}

/// What a command line asks for when every cell is a query.
pub struct InputView {
    pub width: int,
    pub height: int,
    pub image_path: Seq<char>,
    pub json_path: Seq<char>,
    pub threads: int,
}

/// What a command line asks for when it names the query cells.
pub struct PointsView {
    pub points: Seq<(int, int)>,
    pub width: int,
    pub height: int,
    pub image_path: Seq<char>,
    pub json_path: Seq<char>,
}

/// The effect of one argument where every cell is a query: an argument with
/// an `x` names the sides, or nothing; one that ends in `.png` the image; one
/// that ends in `.json` the output; a number the worker threads.
pub open spec fn input_step(state: InputView, arg: Seq<char>) -> InputView {
    if arg.contains('x') {
        match sides_of(arg) {
            Some((w, h)) => InputView { width: w, height: h, ..state },
            None => state,
        }
    } else if has_suffix(arg, ".png"@) {
        InputView { image_path: arg, ..state }
    } else if has_suffix(arg, ".json"@) {
        InputView { json_path: arg, ..state }
    } else {
        match unsigned_value(arg, usize::MAX as int) {
            Some(n) => InputView { threads: n, ..state },
            None => state,
        }
    }
}

/// The effect of one argument where the command line names the query cells:
/// an argument that starts with a bracket and holds a comma names a cell, as
/// `(X, Y)` or `(X,Y)`, or nothing; the others are read as in [`input_step`], but for the threads.
pub open spec fn points_step(state: PointsView, arg: Seq<char>) -> PointsView {
    if arg.len() > 0 && arg[0] == '(' && arg.contains(',') {
        match point_of(arg) {
            Some(p) => PointsView { points: state.points.push(p), ..state },
            None => state,
        }
    } else if arg.contains('x') {
        match sides_of(arg) {
            Some((w, h)) => PointsView { width: w, height: h, ..state },
            None => state,
        }
    } else if has_suffix(arg, ".png"@) {
        PointsView { image_path: arg, ..state }
    } else if has_suffix(arg, ".json"@) {
        PointsView { json_path: arg, ..state }
    } else {
        state
    }
}

/// What the first `n` arguments ask for, the first of them, the program's
/// name, passed over.
pub open spec fn input_after(args: Seq<Seq<char>>, n: int, start: InputView) -> InputView
    decreases n,
{
    if n <= 1 {
        start
    } else {
        input_step(input_after(args, n - 1, start), args[n - 1])
    }
}

/// What the first `n` arguments ask for, the first of them, the program's
/// name, passed over.
pub open spec fn points_after(args: Seq<Seq<char>>, n: int, start: PointsView) -> PointsView
    decreases n,
{
    if n <= 1 {
        start
    } else {
        points_step(points_after(args, n - 1, start), args[n - 1])
    }
}

/// The arguments as sequences of characters.
pub open spec fn texts(args: Seq<String>) -> Seq<Seq<char>> {
    Seq::new(args.len(), |i: int| args[i]@)
}

/// What a command line asks for before any argument is read.
pub open spec fn input_start(default_threads: int) -> InputView {
    InputView {
        width: DEFAULT_SIDE as int,
        height: DEFAULT_SIDE as int,
        image_path: Seq::empty(),
        json_path: Seq::empty(),
        threads: default_threads,
    }
}

/// What a command line asks for before any argument is read.
pub open spec fn points_start() -> PointsView {
    PointsView {
        points: Seq::empty(),
        width: DEFAULT_SIDE as int,
        height: DEFAULT_SIDE as int,
        image_path: Seq::empty(),
        json_path: Seq::empty(),
    }
}

/// The cells as pairs of integers.
pub open spec fn cells_view(cells: Seq<Coordinate>) -> Seq<(int, int)> {
    Seq::new(cells.len(), |i: int| (cells[i].0 as int, cells[i].1 as int))
}

/// A number is at least the number that any of its leading digits write.
proof fn lemma_prefix_value(s: Seq<char>, n: int)
    requires
        0 <= n <= s.len(),
    ensures
        digits_value(s.take(n)) <= digits_value(s),
    decreases s.len(),
{
    if n == s.len() {
        assert(s.take(n) =~= s);
    } else {
        lemma_prefix_value(s.drop_last(), n);
        assert(s.drop_last().take(n) =~= s.take(n));
    }
}

/// Trimming the start passes over the wrapping characters that stand there.
proof fn lemma_trim_start_skips(s: Seq<char>, k: int, brackets: bool)
    requires
        0 <= k <= s.len(),
        forall|i: int| 0 <= i < k ==> is_wrapping(#[trigger] s[i], brackets),
    ensures
        trim_start(s, brackets) == trim_start(s.skip(k), brackets),
    decreases k,
{
    if k == 0 {
        assert(s.skip(0) =~= s);
    } else {
        assert(s.skip(1).skip(k - 1) =~= s.skip(k));
        lemma_trim_start_skips(s.skip(1), k - 1, brackets);
    }
}

/// Trimming the end passes over the wrapping characters that stand there.
proof fn lemma_trim_end_skips(s: Seq<char>, k: int, brackets: bool)
    requires
        0 <= k <= s.len(),
        forall|i: int| k <= i < s.len() ==> is_wrapping(#[trigger] s[i], brackets),
    ensures
        trim_end(s, brackets) == trim_end(s.take(k), brackets),
    decreases s.len() - k,
{
    if k == s.len() {
        assert(s.take(k) =~= s);
    } else {
        assert(s.drop_last().take(k) =~= s.take(k));
        lemma_trim_end_skips(s.drop_last(), k, brackets);
    }
}

/// The characters of a string.
fn chars_of(s: &str) -> (chars: Vec<char>)
    ensures
        chars@ == s@,
{
    let n = s.unicode_len();
    let mut chars: Vec<char> = Vec::new();
    let mut i: usize = 0;
    while i < n
        invariant
            n == s@.len(),
            i <= n,
            chars@ == s@.take(i as int),
        decreases n - i,
    {
        chars.push(s.get_char(i));
        assert(chars@ =~= s@.take(i + 1));
        i += 1;
    }
    assert(s@.take(n as int) =~= s@);
    chars
}

/// The digit that a character writes, if it is one.
fn digit_value(c: char) -> (d: Option<u8>)
    ensures
        match d {
            Some(v) => is_digit(c) && v == digit_of(c) && v <= 9,
            None => !is_digit(c),
        },
{
    if c == '0' {
        Some(0)
    } else if c == '1' {
        Some(1)
    } else if c == '2' {
        Some(2)
    } else if c == '3' {
        Some(3)
    } else if c == '4' {
        Some(4)
    } else if c == '5' {
        Some(5)
    } else if c == '6' {
        Some(6)
    } else if c == '7' {
        Some(7)
    } else if c == '8' {
        Some(8)
    } else if c == '9' {
        Some(9)
    } else {
        None
    }
}

/// The number that the characters from `from` up to `to` write, where they
/// are digits and the number is at most `max`.
fn parse_digits(chars: &Vec<char>, from: usize, to: usize, max: u64) -> (r: Option<u64>)
    requires
        from <= to <= chars.len(),
    ensures
        match r {
            Some(v) => digits_within(chars@.subrange(from as int, to as int), max as int) == Some(
                v as int,
            ),
            None => digits_within(chars@.subrange(from as int, to as int), max as int) is None,
        },
{
    let ghost s = chars@.subrange(from as int, to as int);
    if from == to {
        return None;
    }
    let mut acc: u64 = 0;
    let mut i: usize = from;
    assert(s.take(0) =~= Seq::<char>::empty());
    while i < to
        invariant
            from <= i <= to <= chars.len(),
            s == chars@.subrange(from as int, to as int),
            forall|k: int| 0 <= k < i - from ==> is_digit(#[trigger] s[k]),
            acc == digits_value(s.take(i - from)),
            acc <= max,
        decreases to - i,
    {
        let d = match digit_value(chars[i]) {
            Some(d) => d,
            None => {
                assert(!is_digit(s[i - from]));
                return None;
            },
        };
        let next: u128 = (acc as u128) * 10 + (d as u128);
        proof {
            assert(s.take(i - from + 1).drop_last() =~= s.take(i - from));
            assert(digits_value(s.take(i - from + 1)) == next);
        }
        if next > max as u128 {
            proof {
                lemma_prefix_value(s, i - from + 1);
            }
            return None;
        }
        acc = next as u64;
        i += 1;
    }
    assert(s.take(to - from) =~= s);
    Some(acc)
}

/// The unsigned number of at most `max` that the characters from `from` up to
/// `to` write.
fn parse_unsigned(chars: &Vec<char>, from: usize, to: usize, max: u64) -> (r: Option<u64>)
    requires
        from <= to <= chars.len(),
    ensures
        match r {
            Some(v) => unsigned_value(chars@.subrange(from as int, to as int), max as int) == Some(
                v as int,
            ),
            None => unsigned_value(chars@.subrange(from as int, to as int), max as int) is None,
        },
{
    let ghost s = chars@.subrange(from as int, to as int);
    if from < to && chars[from] == '+' {
        assert(s.skip(1) =~= chars@.subrange(from + 1, to as int));
        parse_digits(chars, from + 1, to, max)
    } else {
        parse_digits(chars, from, to, max)
    }
}

/// The signed number in the range of `i32` that the characters from `from` up
/// to `to` write.
fn parse_signed(chars: &Vec<char>, from: usize, to: usize) -> (r: Option<i32>)
    requires
        from <= to <= chars.len(),
    ensures
        match r {
            Some(v) => signed_value(chars@.subrange(from as int, to as int)) == Some(v as int),
            None => signed_value(chars@.subrange(from as int, to as int)) is None,
        },
{
    let ghost s = chars@.subrange(from as int, to as int);
    if from < to && chars[from] == '-' {
        assert(s.skip(1) =~= chars@.subrange(from + 1, to as int));
        match parse_digits(chars, from + 1, to, 0x8000_0000) {
            Some(v) => Some((-(v as i64)) as i32),
            None => None,
        }
    } else {
        match parse_unsigned(chars, from, to, 0x7fff_ffff) {
            Some(v) => Some(v as i32),
            None => None,
        }
    }
}

/// Whether `c` occurs among the characters.
fn contains_char(chars: &Vec<char>, c: char) -> (r: bool)
    ensures
        r == chars@.contains(c),
{
    let mut i: usize = 0;
    while i < chars.len()
        invariant
            i <= chars.len(),
            forall|k: int| 0 <= k < i ==> chars@[k] != c,
        decreases chars.len() - i,
    {
        if chars[i] == c {
            return true;
        }
        i += 1;
    }
    false
}

/// Where the only `sep` stands among the characters from `from` up to `to`.
fn find_only(chars: &Vec<char>, from: usize, to: usize, sep: char) -> (r: Option<usize>)
    requires
        from <= to <= chars.len(),
    ensures
        match r {
            Some(at) => from <= at < to && only_at(
                chars@.subrange(from as int, to as int),
                sep,
                at - from,
            ),
            None => forall|i: int| !only_at(chars@.subrange(from as int, to as int), sep, i),
        },
{
    let ghost s = chars@.subrange(from as int, to as int);
    let mut found: Option<usize> = None;
    let mut i: usize = from;
    while i < to
        invariant
            from <= i <= to <= chars.len(),
            s == chars@.subrange(from as int, to as int),
            match found {
                Some(at) => from <= at < i && s[at - from] == sep && forall|j: int|
                    0 <= j < i - from && j != at - from ==> #[trigger] s[j] != sep,
                None => forall|j: int| 0 <= j < i - from ==> #[trigger] s[j] != sep,
            },
        decreases to - i,
    {
        if chars[i] == sep {
            match found {
                Some(at) => {
                    assert(s[i - from] == sep && s[at - from] == sep);
                    assert forall|k: int| !only_at(s, sep, k) by {
                        if only_at(s, sep, k) {
                            if k == i - from {
                                assert(s[at - from] != sep);
                            } else {
                                assert(s[i - from] != sep);
                            }
                        }
                    }
                    return None;
                },
                None => {
                    found = Some(i);
                },
            }
        }
        i += 1;
    }
    proof {
        if found is None {
            assert forall|k: int| !only_at(s, sep, k) by {}
        }
    }
    found
}

/// Whether the characters end with `suffix`.
fn ends_with(chars: &Vec<char>, suffix: &str) -> (r: bool)
    ensures
        r == has_suffix(chars@, suffix@),
{
    let n = suffix.unicode_len();
    if chars.len() < n {
        return false;
    }
    let start: usize = chars.len() - n;
    let mut i: usize = 0;
    while i < n
        invariant
            n == suffix@.len(),
            start + n == chars.len(),
            i <= n,
            forall|k: int| 0 <= k < i ==> chars@[start + k] == suffix@[k],
        decreases n - i,
    {
        if chars[start + i] != suffix.get_char(i) {
            assert(chars@.skip(start as int)[i as int] != suffix@[i as int]);
            return false;
        }
        i += 1;
    }
    assert(chars@.skip(start as int) =~= suffix@);
    true
}

/// The sides that the characters name in the form `WIDTHxHEIGHT`.
fn parse_sides(chars: &Vec<char>) -> (r: Option<(u32, u32)>)
    ensures
        match r {
            Some((w, h)) => sides_of(chars@) == Some((w as int, h as int)),
            None => sides_of(chars@) is None,
        },
{
    assert(chars@.subrange(0, chars@.len() as int) =~= chars@);
    match find_only(chars, 0, chars.len(), 'x') {
        Some(at) => {
            proof {
                let chosen = choose|i: int| only_at(chars@, 'x', i);
                assert(chosen == at);
                assert(chars@.take(at as int) =~= chars@.subrange(0, at as int));
                assert(chars@.skip(at + 1) =~= chars@.subrange(at + 1, chars@.len() as int));
            }
            let w = parse_unsigned(chars, 0, at, u32::MAX as u64);
            let h = parse_unsigned(chars, at + 1, chars.len(), u32::MAX as u64);
            match (w, h) {
                (Some(w), Some(h)) => Some((w as u32, h as u32)),
                _ => None,
            }
        },
        None => None,
    }
}

/// Whether `c` is taken off the ends of a text.
fn wraps(c: char, brackets: bool) -> (r: bool)
    ensures
        r == is_wrapping(c, brackets),
{
    c == ' ' || (brackets && (c == '(' || c == ')'))
}

/// Where the characters from `from` up to `to` start and end once the
/// wrapping characters at both ends are taken off.
fn trim_bounds(chars: &Vec<char>, from: usize, to: usize, brackets: bool) -> (r: (usize, usize))
    requires
        from <= to <= chars.len(),
    ensures
        from <= r.0 <= r.1 <= to,
        chars@.subrange(r.0 as int, r.1 as int) == trimmed(
            chars@.subrange(from as int, to as int),
            brackets,
        ),
{
    let ghost s = chars@.subrange(from as int, to as int);
    let mut start: usize = from;
    while start < to && wraps(chars[start], brackets)
        invariant
            from <= start <= to <= chars.len(),
            s == chars@.subrange(from as int, to as int),
            forall|i: int| 0 <= i < start - from ==> is_wrapping(#[trigger] s[i], brackets),
        decreases to - start,
    {
        start += 1;
    }
    let ghost rest = s.skip(start - from);
    proof {
        lemma_trim_start_skips(s, start - from, brackets);
        if start < to {
            assert(rest[0] == chars@[start as int]);
        }
        assert(trim_start(rest, brackets) == rest);
    }
    let mut end: usize = to;
    while end > start && wraps(chars[end - 1], brackets)
        invariant
            from <= start <= end <= to <= chars.len(),
            rest == chars@.subrange(from as int, to as int).skip(start - from),
            forall|i: int| end - start <= i < rest.len() ==> is_wrapping(#[trigger] rest[i], brackets),
        decreases end,
    {
        end -= 1;
    }
    proof {
        let inner = chars@.subrange(start as int, end as int);
        lemma_trim_end_skips(rest, end - start, brackets);
        assert(rest.take(end - start) =~= inner);
        if end > start {
            assert(inner.last() == chars@[end - 1]);
        }
        assert(trim_end(inner, brackets) == inner);
    }
    (start, end)
}

/// The cell that the characters name in the form `(X, Y)`.
fn parse_point(chars: &Vec<char>) -> (r: Option<Coordinate>)
    ensures
        match r {
            Some(p) => point_of(chars@) == Some((p.0 as int, p.1 as int)),
            None => point_of(chars@) is None,
        },
{
    assert(chars@.subrange(0, chars@.len() as int) =~= chars@);
    let (from, to) = trim_bounds(chars, 0, chars.len(), true);
    let ghost inner = chars@.subrange(from as int, to as int);
    match find_only(chars, from, to, ',') {
        Some(at) => {
            proof {
                let chosen = choose|i: int| only_at(inner, ',', i);
                assert(chosen == at - from);
                assert(inner.take(at - from) =~= chars@.subrange(from as int, at as int));
                assert(inner.skip(at - from + 1) =~= chars@.subrange(at + 1, to as int));
            }
            let (left_from, left_to) = trim_bounds(chars, from, at, false);
            let (right_from, right_to) = trim_bounds(chars, at + 1, to, false);
            let x = parse_signed(chars, left_from, left_to);
            let y = parse_signed(chars, right_from, right_to);
            match (x, y) {
                (Some(x), Some(y)) => Some((x, y)),
                _ => None,
            }
        },
        None => None,
    }
}

/// Reads a command line on which every cell is a query: the sides of the
/// grid, the image, the output and the number of worker threads, in that
/// order. Where the command line names no number of threads it is
/// `default_threads`. A number of 0 is handed on as it is: it leaves the
/// number of threads to the thread pool.
pub fn parse_input(args: Vec<String>, default_threads: usize) -> (r: (
    u32,
    u32,
    String,
    String,
    usize,
))
    ensures
        (InputView {
            width: r.0 as int,
            height: r.1 as int,
            image_path: r.2@,
            json_path: r.3@,
            threads: r.4 as int,
        }) == input_after(texts(args@), args@.len() as int, input_start(default_threads as int)),
{
    let mut width: u32 = DEFAULT_SIDE;
    let mut height: u32 = DEFAULT_SIDE;
    let mut image_path = String::new();
    let mut json_path = String::new();
    let mut threads: usize = default_threads;
    let mut i: usize = 1;
    while i < args.len()
        invariant
            1 <= i,
            (InputView {
                width: width as int,
                height: height as int,
                image_path: image_path@,
                json_path: json_path@,
                threads: threads as int,
            }) == input_after(
                texts(args@),
                if i <= args@.len() {
                    i as int
                } else {
                    args@.len() as int
                },
                input_start(default_threads as int),
            ),
        decreases args.len() - i,
    {
        let arg = &args[i];
        let chars = chars_of(arg.as_str());
        assert(texts(args@)[i as int] == chars@);
        if contains_char(&chars, 'x') {
            match parse_sides(&chars) {
                Some((w, h)) => {
                    width = w;
                    height = h;
                },
                None => {},
            }
        } else if ends_with(&chars, ".png") {
            image_path = arg.clone();
        } else if ends_with(&chars, ".json") {
            json_path = arg.clone();
        } else {
            assert(chars@.subrange(0, chars@.len() as int) =~= chars@);
            match parse_unsigned(&chars, 0, chars.len(), usize::MAX as u64) {
                Some(n) => {
                    threads = n as usize;
                },
                None => {},
            }
        }
        i += 1;
    }
    (width, height, image_path, json_path, threads)
}

/// Reads a command line that names the query cells: the cells in the order
/// of the command line, the sides of the grid, the image and the output.
pub fn parse_points(args: Vec<String>) -> (r: (Vec<Coordinate>, u32, u32, String, String))
    ensures
        (PointsView {
            points: cells_view(r.0@),
            width: r.1 as int,
            height: r.2 as int,
            image_path: r.3@,
            json_path: r.4@,
        }) == points_after(texts(args@), args@.len() as int, points_start()),
{
    let mut points: Vec<Coordinate> = Vec::new();
    let mut width: u32 = DEFAULT_SIDE;
    let mut height: u32 = DEFAULT_SIDE;
    let mut image_path = String::new();
    let mut json_path = String::new();
    let mut i: usize = 1;
    assert(cells_view(points@) =~= Seq::<(int, int)>::empty());
    while i < args.len()
        invariant
            1 <= i,
            (PointsView {
                points: cells_view(points@),
                width: width as int,
                height: height as int,
                image_path: image_path@,
                json_path: json_path@,
            }) == points_after(
                texts(args@),
                if i <= args@.len() {
                    i as int
                } else {
                    args@.len() as int
                },
                points_start(),
            ),
        decreases args.len() - i,
    {
        let arg = &args[i];
        let chars = chars_of(arg.as_str());
        assert(texts(args@)[i as int] == chars@);
        if chars.len() > 0 && chars[0] == '(' && contains_char(&chars, ',') {
            match parse_point(&chars) {
                Some(p) => {
                    let ghost before = points@;
                    points.push(p);
                    assert(cells_view(points@) =~= cells_view(before).push(
                        (p.0 as int, p.1 as int),
                    ));
                },
                None => {},
            }
        } else if contains_char(&chars, 'x') {
            match parse_sides(&chars) {
                Some((w, h)) => {
                    width = w;
                    height = h;
                },
                None => {},
            }
        } else if ends_with(&chars, ".png") {
            image_path = arg.clone();
        } else if ends_with(&chars, ".json") {
            json_path = arg.clone();
        }
        i += 1;
    }
    (points, width, height, image_path, json_path)
}

} // verus!
