//! Reading the text of one row of the course table.
//!
//! A row's text is a list of newline-terminated lines: its state, then
//! "<name> 博雅课程-<type>", then labelled fields written "<label>：<value>"
//! (address on line 2, start time on line 5, choosing time on line 12), and
//! on line 16 the seats as "<taken>/<capacity>".
use vstd::prelude::*;

use crate::text::{
    first_occurrence, join_lines, lemma_no_occurrence_in, lemma_split_lines_of_join,
    lemma_split_once_of_parts, lemma_split_once_rebuilds, occurs_at, same_chars, split_at_first,
    split_into_lines, split_lines, split_once, string_from_chars, to_chars,
};


verus! {

/// An ASCII decimal digit.
pub open spec fn is_ascii_digit(c: char) -> bool {
    '0' <= c && c <= '9'
}

/// The value of an ASCII decimal digit.
pub open spec fn digit_value(c: char) -> nat {
    (c as u32 - '0' as u32) as nat
}

/// How many ASCII digits `s` starts with.
pub open spec fn leading_digits(s: Seq<char>) -> nat
    decreases s.len(),
{
    if s.len() > 0 && is_ascii_digit(s[0]) {
        1 + leading_digits(s.drop_first())
    } else {
        0
    }
}

/// The number that a sequence of decimal digits writes.
pub open spec fn decimal_value(d: Seq<char>) -> nat
    decreases d.len(),
{
    if d.len() == 0 {
        0
    } else {
        decimal_value(d.drop_last()) * 10 + digit_value(d.last())
    }
}

/// The decimal `u16` that `s` starts with, and how many characters it takes:
/// all the leading digits, of which there must be at least one, and whose
/// value must fit in a `u16`.
pub open spec fn spec_leading_u16(s: Seq<char>) -> Option<(u16, nat)> {
    let n = leading_digits(s);
    if n == 0 || decimal_value(s.take(n as int)) > u16::MAX {
        None
    } else {
        Some((decimal_value(s.take(n as int)) as u16, n))
    }
}

proof fn lemma_leading_digits(s: Seq<char>, i: int)
    requires
        0 <= i <= s.len(),
        forall|k: int| 0 <= k < i ==> is_ascii_digit(#[trigger] s[k]),
    ensures
        leading_digits(s) >= i,
        (i == s.len() || !is_ascii_digit(s[i])) ==> leading_digits(s) == i,
    decreases i,
{
    if i > 0 {
        let t = s.drop_first();
        assert forall|k: int| 0 <= k < i - 1 implies is_ascii_digit(#[trigger] t[k]) by {
            assert(t[k] == s[k + 1]);
        }
        lemma_leading_digits(t, i - 1);
    }
}

proof fn lemma_leading_digits_bound(s: Seq<char>)
    ensures
        leading_digits(s) <= s.len(),
        forall|k: int| 0 <= k < leading_digits(s) ==> is_ascii_digit(#[trigger] s[k]),
    decreases s.len(),
{
    if s.len() > 0 && is_ascii_digit(s[0]) {
        let t = s.drop_first();
        lemma_leading_digits_bound(t);
        assert forall|k: int| 0 <= k < leading_digits(s) implies is_ascii_digit(#[trigger] s[k]) by {
            if k > 0 {
                assert(s[k] == t[k - 1]);
            }
        }
    }
}

/// A longer prefix of `s` never writes a smaller number.
proof fn lemma_decimal_value_grows(s: Seq<char>, a: int, b: int)
    requires
        0 <= a <= b <= s.len(),
    ensures
        decimal_value(s.take(a)) <= decimal_value(s.take(b)),
    decreases b - a,
{
    if a < b {
        lemma_decimal_value_grows(s, a, b - 1);
        assert(s.take(b).drop_last() =~= s.take(b - 1));
    }
}

/// Reads the decimal `u16` at the start of `s`.
pub fn leading_u16(s: &[char]) -> (r: Option<(u16, usize)>)
    ensures
        match r {
            Some((v, n)) => spec_leading_u16(s@) == Some((v, n as nat)) && n <= s@.len(),
            None => spec_leading_u16(s@) is None,
        },
{
    let len = s.len();
    let mut i: usize = 0;
    let mut value: u32 = 0;
    assert(s@.take(0) =~= Seq::<char>::empty());
    while i < len && '0' <= s[i] && s[i] <= '9'
        invariant
            len == s@.len(),
            i <= len,
            forall|k: int| 0 <= k < i ==> is_ascii_digit(#[trigger] s@[k]),
            value == decimal_value(s@.take(i as int)),
            value <= u16::MAX,
        decreases len - i,
    {
        let d = (s[i] as u32) - ('0' as u32);
        assert(s@.take(i + 1).drop_last() =~= s@.take(i as int));
        value = value * 10 + d;
        i = i + 1;
        if value > 65535 {
            proof {
                lemma_leading_digits(s@, i as int);
                lemma_leading_digits_bound(s@);
                lemma_decimal_value_grows(s@, i as int, leading_digits(s@) as int);
            }
            return None;
        }
    }
    proof {
        lemma_leading_digits(s@, i as int);
    }
    if i == 0 {
        None
    } else {
        Some((value as u16, i))
    }
}

/// The seats field "<taken>/<capacity>" at the start of `s`: what follows it,
/// and whether a seat is still free (fewer taken than the capacity).
pub open spec fn spec_seats_free(s: Seq<char>) -> Option<(Seq<char>, bool)> {
    match spec_leading_u16(s) {
        Some((taken, n)) => if n < s.len() && s[n as int] == '/' {
            match spec_leading_u16(s.skip(n + 1int)) {
                Some((capacity, m)) => Some((s.skip(n + 1int + m), taken < capacity)),
                None => None,
            }
        } else {
            None
        },
        None => None,
    }
}

/// Reads the seats field at the start of `s`: how many characters it takes,
/// and whether a seat is free.
fn seats_free_chars(s: &[char]) -> (r: Option<(usize, bool)>)
    ensures
        match r {
            Some((k, free)) => k <= s@.len() && spec_seats_free(s@) == Some((s@.skip(k as int), free)),
            None => spec_seats_free(s@) is None,
        },
{
    let len = s.len();
    match leading_u16(s) {
        Some((taken, n)) => {
            if n < len && s[n] == '/' {
                let after = &s[n + 1..len];
                assert(after@ =~= s@.skip(n + 1));
                match leading_u16(after) {
                    Some((capacity, m)) => {
                        assert(after@.skip(m as int) =~= s@.skip(n + 1 + m));
                        Some((n + 1 + m, taken < capacity))
                    },
                    None => None,
                }
            } else {
                None
            }
        },
        None => None,
    }
}

/// Reads the seats field "<taken>/<capacity>" at the start of `i`: the text
/// that follows it, and whether a seat is still free.
pub fn seats_free(i: &str) -> (r: Option<(String, bool)>)
    ensures
        match r {
            Some((rest, free)) => spec_seats_free(i@) == Some((rest@, free)),
            None => spec_seats_free(i@) is None,
        },
{
    let chars = to_chars(i);
    let len = chars.len();
    match seats_free_chars(chars.as_slice()) {
        Some((k, free)) => {
            let rest = string_from_chars(&chars.as_slice()[k..len]);
            assert(rest@ =~= chars@.skip(k as int));
            Some((rest, free))
        },
        None => None,
    }
}

/// The ASCII digit for `d`, below ten.
pub open spec fn digit_char(d: nat) -> char {
    (('0' as u32) + d) as char
}

/// `n` written in decimal, without leading zeros.
pub open spec fn decimal(n: nat) -> Seq<char>
    decreases n,
{
    if n < 10 {
        seq![digit_char(n)]
    } else {
        decimal(n / 10).push(digit_char(n % 10))
    }
}

proof fn lemma_decimal(n: nat)
    ensures
        decimal(n).len() >= 1,
        forall|k: int| 0 <= k < decimal(n).len() ==> is_ascii_digit(#[trigger] decimal(n)[k]),
        decimal_value(decimal(n)) == n,
    decreases n,
{
    if n < 10 {
        assert(decimal(n).drop_last() =~= Seq::<char>::empty());
        assert(digit_value(digit_char(n)) == n);
        assert(decimal_value(Seq::<char>::empty()) == 0);
        assert(is_ascii_digit(digit_char(n)));
    } else {
        lemma_decimal(n / 10);
        assert(decimal(n).drop_last() =~= decimal(n / 10));
        assert(decimal(n)[decimal(n).len() - 1] == digit_char(n % 10));
        assert(digit_value(digit_char(n % 10)) == n % 10);
        assert((n / 10) * 10 + n % 10 == n);
        assert(is_ascii_digit(digit_char(n % 10)));
        assert forall|k: int| 0 <= k < decimal(n).len() implies is_ascii_digit(
            #[trigger] decimal(n)[k],
        ) by {
            if k < decimal(n / 10).len() {
                assert(decimal(n)[k] == decimal(n / 10)[k]);
            }
        }
    }
}

proof fn lemma_leading_u16_of_decimal(n: u16, rest: Seq<char>)
    requires
        rest.len() == 0 || !is_ascii_digit(rest[0]),
    ensures
        spec_leading_u16(decimal(n as nat) + rest) == Some((n, decimal(n as nat).len())),
{
    let d = decimal(n as nat);
    let s = d + rest;
    lemma_decimal(n as nat);
    assert forall|k: int| 0 <= k < d.len() implies is_ascii_digit(#[trigger] s[k]) by {
        assert(s[k] == d[k]);
    }
    if rest.len() > 0 {
        assert(s[d.len() as int] == rest[0]);
    }
    lemma_leading_digits(s, d.len() as int);
    assert(s.take(d.len() as int) =~= d);
}

/// A seats field written "<taken>/<capacity>" in decimal, and followed by
/// anything but a digit, is read back as those numbers: a seat is free
/// exactly when fewer are taken than the capacity.
pub proof fn lemma_seats_free_written(taken: u16, capacity: u16, rest: Seq<char>)
    requires
        rest.len() == 0 || !is_ascii_digit(rest[0]),
    ensures
        spec_seats_free(decimal(taken as nat) + seq!['/'] + decimal(capacity as nat) + rest)
            == Some((rest, taken < capacity)),
{
    let dt = decimal(taken as nat);
    let dc = decimal(capacity as nat);
    let tail = dc + rest;
    let s = dt + (seq!['/'] + tail);
    assert(dt + seq!['/'] + dc + rest =~= s);
    lemma_leading_u16_of_decimal(taken, seq!['/'] + tail);
    lemma_leading_u16_of_decimal(capacity, rest);
    assert(s[dt.len() as int] == '/');
    assert(s.skip(dt.len() + 1int) =~= tail);
    assert(tail.skip(dc.len() as int) =~= rest);
    assert(s.skip(dt.len() + 1int + dc.len()) =~= rest);
}

/// All characters of `d` are ASCII digits, and there is at least one.
pub open spec fn is_digits(d: Seq<char>) -> bool {
    d.len() >= 1 && forall|k: int| 0 <= k < d.len() ==> is_ascii_digit(#[trigger] d[k])
}

/// `rest` does not start with a digit.
pub open spec fn no_digit_first(rest: Seq<char>) -> bool {
    rest.len() == 0 || !is_ascii_digit(rest[0])
}

/// A `u16` read from the start of `s` is written there by a run of digits
/// that is not followed by another digit, and is the number those digits
/// write. Nothing is read when `s` does not start with a digit.
pub proof fn lemma_leading_u16_digits(s: Seq<char>)
    ensures
        match spec_leading_u16(s) {
            Some((v, n)) => {
                &&& n <= s.len()
                &&& is_digits(s.take(n as int))
                &&& no_digit_first(s.skip(n as int))
                &&& decimal_value(s.take(n as int)) == v
            },
            None => true,
        },
        no_digit_first(s) ==> spec_leading_u16(s) is None,
{
    lemma_leading_digits_bound(s);
    let n = leading_digits(s);
    if n > 0 {
        assert forall|k: int| 0 <= k < n implies is_ascii_digit(#[trigger] s.take(n as int)[k]) by {
            assert(s.take(n as int)[k] == s[k]);
        }
        if n < s.len() {
            if is_ascii_digit(s[n as int]) {
                lemma_leading_digits(s, n + 1int);
            }
            assert(s.skip(n as int)[0] == s[n as int]);
        }
    }
    if no_digit_first(s) {
        lemma_leading_digits(s, 0);
    }
}

/// A seats field that is read is written "<taken>/<capacity>" in digits,
/// followed by the text that is handed back, which does not start with a
/// digit; a seat is free exactly when the taken number is below the
/// capacity.
pub proof fn lemma_seats_free_rebuilds(s: Seq<char>)
    ensures
        spec_seats_free(s) matches Some((rest, free)) ==> exists|dt: Seq<char>, dc: Seq<char>|
            {
                &&& is_digits(dt)
                &&& is_digits(dc)
                &&& #[trigger] (dt + seq!['/'] + dc + rest) == s
                &&& no_digit_first(rest)
                &&& decimal_value(dt) <= u16::MAX
                &&& decimal_value(dc) <= u16::MAX
                &&& free == (decimal_value(dt) < decimal_value(dc))
            },
{
    if let Some((rest, free)) = spec_seats_free(s) {
        lemma_leading_u16_digits(s);
        let (taken, n) = spec_leading_u16(s)->0;
        let t = s.skip(n + 1int);
        lemma_leading_u16_digits(t);
        let (capacity, m) = spec_leading_u16(t)->0;
        let dt = s.take(n as int);
        let dc = t.take(m as int);
        assert(t.skip(m as int) =~= s.skip(n + 1int + m));
        assert(dt + seq!['/'] + dc + rest =~= s);
        assert(is_digits(dt) && is_digits(dc) && (dt + seq!['/'] + dc + rest) == s);
    }
}

/// The separator between a field's label and its value (a full-width colon).
pub open spec fn field_separator() -> Seq<char> {
    seq!['：']
}

/// The value of a labelled field: all that follows the first separator.
pub open spec fn spec_field_value(line: Seq<char>) -> Option<Seq<char>> {
    match split_once(line, field_separator()) {
        Some((_, value)) => Some(value),
        None => None,
    }
}

fn field_value_chars(line: &[char]) -> (r: Option<Vec<char>>)
    ensures
        match r {
            Some(v) => spec_field_value(line@) == Some(v@),
            None => spec_field_value(line@) is None,
        },
{
    let sep: Vec<char> = vec!['：'];
    assert(sep@ =~= field_separator());
    match split_at_first(line, sep.as_slice()) {
        Some((_, value)) => Some(value),
        None => None,
    }
}

/// The value of the labelled field written in `i`: all that follows the
/// first full-width colon.
pub fn field_value(i: &str) -> (r: Option<String>)
    ensures
        match r {
            Some(v) => spec_field_value(i@) == Some(v@),
            None => spec_field_value(i@) is None,
        },
{
    let chars = to_chars(i);
    match field_value_chars(chars.as_slice()) {
        Some(v) => Some(string_from_chars(v.as_slice())),
        None => None,
    }
}

/// What stands between a course's name and its type.
pub open spec fn type_marker() -> Seq<char> {
    seq![' ', '博', '雅', '课', '程', '-']
}

/// A course's name and type, around the first type marker.
pub open spec fn spec_name_and_type(line: Seq<char>) -> Option<(Seq<char>, Seq<char>)> {
    split_once(line, type_marker())
}

fn name_and_type_chars(line: &[char]) -> (r: Option<(Vec<char>, Vec<char>)>)
    ensures
        match r {
            Some((name, kind)) => spec_name_and_type(line@) == Some((name@, kind@)),
            None => spec_name_and_type(line@) is None,
        },
{
    let marker: Vec<char> = vec![' ', '博', '雅', '课', '程', '-'];
    assert(marker@ =~= type_marker());
    split_at_first(line, marker.as_slice())
}

/// A course's name and type, read from the line "<name> 博雅课程-<type>".
pub fn name_and_type(i: &str) -> (r: Option<(String, String)>)
    ensures
        match r {
            Some((name, kind)) => spec_name_and_type(i@) == Some((name@, kind@)),
            None => spec_name_and_type(i@) is None,
        },
{
    let chars = to_chars(i);
    match name_and_type_chars(chars.as_slice()) {
        Some((name, kind)) => Some(
            (string_from_chars(name.as_slice()), string_from_chars(kind.as_slice())),
        ),
        None => None,
    }
}

/// The state of a course that is announced but not open yet.
pub open spec fn state_preview() -> Seq<char> {
    seq!['预', '告']
}

/// The state of a course that is open for choosing.
pub open spec fn state_open() -> Seq<char> {
    seq!['可', '选']
}

/// One course of the table, as shown to the user.
#[derive(Clone, Debug, PartialEq, Eq)]
pub struct Course {
    /// The row of the table it was read from.
    pub index: usize,
    /// Its state.
    pub state: String,
    /// Its type.
    pub t: String,
    /// Its name.
    pub name: String,
    /// Its address.
    pub ad: String,
    /// When it starts.
    pub st: String,
    /// When choosing it begins.
    pub ct: String,
}

/// A course, with its texts as character sequences.
pub struct CourseView {
    pub index: usize,
    pub state: Seq<char>,
    pub t: Seq<char>,
    pub name: Seq<char>,
    pub ad: Seq<char>,
    pub st: Seq<char>,
    pub ct: Seq<char>,
}

impl View for Course {
    type V = CourseView;

    open spec fn view(&self) -> CourseView {
        CourseView {
            index: self.index,
            state: self.state@,
            t: self.t@,
            name: self.name@,
            ad: self.ad@,
            st: self.st@,
            ct: self.ct@,
        }
    }
}

/// The view of an optional course.
pub open spec fn course_view(c: Option<Course>) -> Option<CourseView> {
    match c {
        Some(c) => Some(c@),
        None => None,
    }
}

/// Whether the course of these lines is shown: it is announced or open, and
/// a seat is free.
pub open spec fn is_shown(lines: Seq<Seq<char>>) -> bool {
    &&& (lines[0] == state_preview() || lines[0] == state_open())
    &&& spec_seats_free(lines[16]) matches Some((_, free)) && free
}

/// The row texts that can be read: the name line carries a type, and a
/// course that is announced or open has its seats line, and, when a seat
/// is free, its address, start and choosing fields.
pub open spec fn is_course_text(text: Seq<char>) -> bool {
    let lines = split_lines(text).0;
    &&& lines.len() >= 2
    &&& spec_name_and_type(lines[1]) is Some
    &&& (lines[0] == state_preview() || lines[0] == state_open()) ==> {
        &&& lines.len() >= 17
        &&& spec_seats_free(lines[16]) is Some
        &&& is_shown(lines) ==> {
            &&& spec_field_value(lines[2]) is Some
            &&& spec_field_value(lines[5]) is Some
            &&& spec_field_value(lines[12]) is Some
        }
    }
}

/// The course that the row text `text` at row `index` shows, if any.
pub open spec fn course_of(text: Seq<char>, index: usize) -> Option<CourseView> {
    let lines = split_lines(text).0;
    if is_shown(lines) {
        let (name, kind) = spec_name_and_type(lines[1])->0;
        Some(
            CourseView {
                index,
                state: lines[0],
                t: kind,
                name,
                ad: spec_field_value(lines[2])->0,
                st: spec_field_value(lines[5])->0,
                ct: spec_field_value(lines[12])->0,
            },
        )
    } else {
        None
    }
}

/// Reads a row's characters; `None` when the text cannot be read.
fn parse_course_chars(chars: &[char], index: usize) -> (r: Option<(Vec<char>, Option<Course>)>)
    ensures
        match r {
            Some((rest, c)) => {
                &&& is_course_text(chars@)
                &&& rest@ == split_lines(chars@).1
                &&& course_view(c) == course_of(chars@, index)
            },
            None => !is_course_text(chars@),
        },
{
    let (lines, rest) = split_into_lines(chars);
    let ghost x = split_lines(chars@).0;
    assert(lines.deep_view() == x);
    if lines.len() < 2 {
        return None;
    }
    assert(lines[1].deep_view() =~= lines[1]@);
    assert(lines[0].deep_view() =~= lines[0]@);
    let (name, kind) = match name_and_type_chars(lines[1].as_slice()) {
        Some(p) => p,
        None => {
            return None;
        },
    };
    let preview: Vec<char> = vec!['预', '告'];
    let open: Vec<char> = vec!['可', '选'];
    assert(preview@ =~= state_preview());
    assert(open@ =~= state_open());
    let listed = same_chars(lines[0].as_slice(), preview.as_slice()) || same_chars(
        lines[0].as_slice(),
        open.as_slice(),
    );
    if !listed {
        return Some((rest, None));
    }
    if lines.len() < 17 {
        return None;
    }
    assert(lines[16].deep_view() =~= lines[16]@);
    let free = match seats_free_chars(lines[16].as_slice()) {
        Some((_, free)) => free,
        None => {
            return None;
        },
    };
    if !free {
        return Some((rest, None));
    }
    assert(lines[2].deep_view() =~= lines[2]@);
    assert(lines[5].deep_view() =~= lines[5]@);
    assert(lines[12].deep_view() =~= lines[12]@);
    let ad = match field_value_chars(lines[2].as_slice()) {
        Some(v) => v,
        None => {
            return None;
        },
    };
    let st = match field_value_chars(lines[5].as_slice()) {
        Some(v) => v,
        None => {
            return None;
        },
    };
    let ct = match field_value_chars(lines[12].as_slice()) {
        Some(v) => v,
        None => {
            return None;
        },
    };
    let course = Course {
        index,
        state: string_from_chars(lines[0].as_slice()),
        t: string_from_chars(kind.as_slice()),
        name: string_from_chars(name.as_slice()),
        ad: string_from_chars(ad.as_slice()),
        st: string_from_chars(st.as_slice()),
        ct: string_from_chars(ct.as_slice()),
    };
    Some((rest, Some(course)))
}

/// Reads the text of the table row at `index`: the text after its last
/// newline, and the course it shows, if the course is announced or open
/// and has a free seat.
pub fn parse_course(i: &str, index: usize) -> (r: (String, Option<Course>))
    requires
        is_course_text(i@),
    ensures
        r.0@ == split_lines(i@).1,
        course_view(r.1) == course_of(i@, index),
{
    let chars = to_chars(i);
    match parse_course_chars(chars.as_slice(), index) {
        Some((rest, c)) => (string_from_chars(rest.as_slice()), c),
        None => {
            assert(false);
            (string_from_chars(chars.as_slice()), None)
        },
    }
}

/// The texts of the rows.
pub open spec fn row_texts(rows: Seq<String>) -> Seq<Seq<char>> {
    rows.map_values(|r: String| r@)
}

/// The views of a list of courses.
pub open spec fn courses_view(v: Seq<Course>) -> Seq<CourseView> {
    v.map_values(|c: Course| c@)
}

/// The courses that the rows show, in row order, each with its row index.
pub open spec fn spec_courses(rows: Seq<Seq<char>>) -> Seq<CourseView>
    decreases rows.len(),
{
    if rows.len() == 0 {
        seq![]
    } else {
        let k = rows.len() - 1;
        spec_courses(rows.drop_last()) + match course_of(rows[k], k as usize) {
            Some(c) => seq![c],
            None => seq![],
        }
    }
}

/// Reads every row of the course table, in order, and keeps the courses that
/// are shown. Fails with the index of the first row whose text cannot be
/// read.
pub fn collect_courses(rows: &Vec<String>) -> (r: Result<Vec<Course>, usize>)
    ensures
        match r {
            Ok(v) => {
                &&& forall|k: int| 0 <= k < rows@.len() ==> is_course_text(#[trigger] rows@[k]@)
                &&& courses_view(v@) == spec_courses(row_texts(rows@))
            },
            Err(k) => {
                &&& k < rows@.len()
                &&& !is_course_text(rows@[k as int]@)
                &&& forall|j: int| 0 <= j < k ==> is_course_text(#[trigger] rows@[j]@)
            },
        },
{
    let n = rows.len();
    let mut out: Vec<Course> = Vec::new();
    let mut i: usize = 0;
    assert(row_texts(rows@).take(0) =~= Seq::<Seq<char>>::empty());
    assert(courses_view(out@) =~= Seq::<CourseView>::empty());
    while i < n
        invariant
            n == rows@.len(),
            i <= n,
            forall|k: int| 0 <= k < i ==> is_course_text(#[trigger] rows@[k]@),
            courses_view(out@) == spec_courses(row_texts(rows@).take(i as int)),
        decreases n - i,
    {
        let chars = to_chars(rows[i].as_str());
        let ghost texts = row_texts(rows@).take(i + 1);
        assert(texts.drop_last() =~= row_texts(rows@).take(i as int));
        assert(texts[i as int] == rows@[i as int]@);
        match parse_course_chars(chars.as_slice(), i) {
            None => {
                return Err(i);
            },
            Some((_, c)) => {
                let ghost before = out@;
                match c {
                    Some(course) => {
                        out.push(course);
                        assert(courses_view(out@) =~= courses_view(before) + seq![course@]);
                    },
                    None => {
                        assert(courses_view(out@) =~= courses_view(before) + seq![]);
                    },
                }
            },
        }
        i = i + 1;
    }
    assert(row_texts(rows@).take(n as int) =~= row_texts(rows@));
    Ok(out)
}

/// The courses read from the rows are, in row order, exactly those that
/// some row shows, each carrying the index of that row.
pub proof fn lemma_courses_follow_rows(rows: Seq<Seq<char>>)
    requires
        rows.len() <= usize::MAX,
    ensures
        forall|m: int|
            0 <= m < spec_courses(rows).len() ==> {
                let c = #[trigger] spec_courses(rows)[m];
                &&& c.index < rows.len()
                &&& course_of(rows[c.index as int], c.index) == Some(c)
            },
        forall|m1: int, m2: int|
            0 <= m1 < m2 < spec_courses(rows).len() ==> #[trigger] spec_courses(rows)[m1].index
                < #[trigger] spec_courses(rows)[m2].index,
        forall|k: int|
            0 <= k < rows.len() && #[trigger] course_of(rows[k], k as usize) is Some ==> spec_courses(
                rows,
            ).contains(course_of(rows[k], k as usize)->0),
    decreases rows.len(),
{
    if rows.len() > 0 {
        let k = rows.len() - 1;
        let prev = rows.drop_last();
        lemma_courses_follow_rows(prev);
        let cs = spec_courses(rows);
        let pcs = spec_courses(prev);
        assert forall|m: int| 0 <= m < pcs.len() implies cs[m] == pcs[m] by {}
        assert forall|j: int| 0 <= j < k implies rows[j] == prev[j] by {}
        assert forall|m: int| 0 <= m < cs.len() implies {
            let c = #[trigger] cs[m];
            &&& c.index < rows.len()
            &&& course_of(rows[c.index as int], c.index) == Some(c)
        } by {
            if m < pcs.len() {
                let c = pcs[m];
                assert(course_of(prev[c.index as int], c.index) == Some(c));
            } else {
                assert(cs[m] == course_of(rows[k], k as usize)->0);
            }
        }
        assert forall|m1: int, m2: int| 0 <= m1 < m2 < cs.len() implies #[trigger] cs[m1].index
            < #[trigger] cs[m2].index by {
            if m2 < pcs.len() {
                assert(pcs[m1].index < pcs[m2].index);
            } else {
                let c = pcs[m1];
                assert(course_of(prev[c.index as int], c.index) == Some(c));
            }
        }
        assert forall|j: int|
            0 <= j < rows.len() && #[trigger] course_of(rows[j], j as usize) is Some implies cs.contains(
                course_of(rows[j], j as usize)->0,
            ) by {
            let c = course_of(rows[j], j as usize)->0;
            if j < k {
                assert(course_of(prev[j], j as usize) == course_of(rows[j], j as usize));
                let m = choose|m: int| 0 <= m < pcs.len() && pcs[m] == c;
                assert(cs[m] == c);
            } else {
                assert(cs[cs.len() - 1] == c);
            }
        }
    }
}

/// A name and a type read from a line give the line back around the type
/// marker, which does not occur earlier; a line without the marker has no
/// name and type.
pub proof fn lemma_name_and_type_rebuilds(line: Seq<char>)
    ensures
        match spec_name_and_type(line) {
            Some((name, kind)) => {
                &&& name + type_marker() + kind == line
                &&& forall|j: int| 0 <= j < name.len() ==> !#[trigger] occurs_at(line, type_marker(), j)
            },
            None => forall|j: int| !#[trigger] occurs_at(line, type_marker(), j),
        },
{
    lemma_split_once_rebuilds(line, type_marker());
}

/// A line written "<name> 博雅课程-<type>", with no space in the name, is
/// read as that name and that type, whole.
pub proof fn lemma_name_and_type_of_parts(name: Seq<char>, kind: Seq<char>)
    requires
        !name.contains(' '),
    ensures
        spec_name_and_type(name + type_marker() + kind) == Some((name, kind)),
{
    lemma_no_occurrence_in(name, type_marker(), kind);
    lemma_split_once_of_parts(name, type_marker(), kind);
}

/// A field's value is all that follows the label and its separator: the
/// label, the separator and the value give the line back, and the label
/// holds no separator. A line without a separator has no value.
pub proof fn lemma_field_value_rebuilds(line: Seq<char>)
    ensures
        spec_field_value(line) is Some ==> exists|label: Seq<char>|
            !label.contains('：') && #[trigger] (label + field_separator() + spec_field_value(
                line,
            )->0) == line,
        spec_field_value(line) is None ==> !line.contains('：'),
{
    lemma_split_once_rebuilds(line, field_separator());
    match split_once(line, field_separator()) {
        Some((label, v)) => {
            if label.contains('：') {
                let m = choose|m: int| 0 <= m < label.len() && label[m] == '：';
                assert(line[m] == label[m]) by {
                    assert(line == label + field_separator() + v);
                }
                assert(line.subrange(m, m + 1) =~= field_separator());
                assert(occurs_at(line, field_separator(), m));
            }
            assert(!label.contains('：'));
            assert(label + field_separator() + v == line);
            assert(spec_field_value(line) == Some(v));
            assert(spec_field_value(line)->0 == v);
            let w = label + field_separator() + spec_field_value(line)->0;
            assert(w == line);
            assert(!label.contains('：') && w == line);
        },
        None => {
            if line.contains('：') {
                let m = choose|m: int| 0 <= m < line.len() && line[m] == '：';
                assert(line.subrange(m, m + 1) =~= field_separator());
                assert(occurs_at(line, field_separator(), m));
            }
            assert(spec_field_value(line) is None);
            assert(!line.contains('：'));
        },
    }
}

/// A line written "<label>：<value>", with no separator in the label, has
/// exactly that value, whatever the value holds.
pub proof fn lemma_field_value_of_parts(label: Seq<char>, v: Seq<char>)
    requires
        !label.contains('：'),
    ensures
        spec_field_value(label + field_separator() + v) == Some(v),
{
    lemma_no_occurrence_in(label, field_separator(), v);
    lemma_split_once_of_parts(label, field_separator(), v);
}

/// Whether a row shows a course does not depend on the row's index, and
/// the course it shows carries that index and is otherwise the same.
pub proof fn lemma_index_carried(text: Seq<char>, i: usize, j: usize)
    ensures
        match (course_of(text, i), course_of(text, j)) {
            (Some(a), Some(b)) => {
                &&& a.index == i
                &&& b.index == j
                &&& a.state == b.state
                &&& a.t == b.t
                &&& a.name == b.name
                &&& a.ad == b.ad
                &&& a.st == b.st
                &&& a.ct == b.ct
            },
            (None, None) => true,
            _ => false,
        },
{
}

/// The lines of a row as its parts are written: state, "<name> 博雅课程-<type>",
/// the address, start and choosing fields on lines 2, 5 and 12, and the seats
/// "<taken>/<capacity>" on line 16.
pub open spec fn row_written(
    ls: Seq<Seq<char>>,
    state: Seq<char>,
    name: Seq<char>,
    kind: Seq<char>,
    labels: (Seq<char>, Seq<char>, Seq<char>),
    values: (Seq<char>, Seq<char>, Seq<char>),
    taken: u16,
    capacity: u16,
    after_seats: Seq<char>,
) -> bool {
    &&& ls.len() >= 17
    &&& ls[0] == state
    &&& ls[1] == name + type_marker() + kind
    &&& ls[2] == labels.0 + field_separator() + values.0
    &&& ls[5] == labels.1 + field_separator() + values.1
    &&& ls[12] == labels.2 + field_separator() + values.2
    &&& ls[16] == decimal(taken as nat) + seq!['/'] + decimal(capacity as nat) + after_seats
}

/// A row written from its parts, in the announced or open state, is read
/// back: it shows a course exactly when fewer seats are taken than its
/// capacity, and that course holds the row's index, its state, and its
/// name, type, address, start and choosing time exactly as written.
pub proof fn lemma_row_read_back(
    ls: Seq<Seq<char>>,
    rest: Seq<char>,
    state: Seq<char>,
    name: Seq<char>,
    kind: Seq<char>,
    labels: (Seq<char>, Seq<char>, Seq<char>),
    values: (Seq<char>, Seq<char>, Seq<char>),
    taken: u16,
    capacity: u16,
    after_seats: Seq<char>,
    index: usize,
)
    requires
        forall|k: int| 0 <= k < ls.len() ==> !(#[trigger] ls[k]).contains('\n'),
        !rest.contains('\n'),
        state == state_preview() || state == state_open(),
        !name.contains(' '),
        !labels.0.contains('：'),
        !labels.1.contains('：'),
        !labels.2.contains('：'),
        after_seats.len() == 0 || !is_ascii_digit(after_seats[0]),
        row_written(ls, state, name, kind, labels, values, taken, capacity, after_seats),
    ensures
        is_course_text(join_lines(ls) + rest),
        course_of(join_lines(ls) + rest, index) == if taken < capacity {
            Some(
                CourseView {
                    index,
                    state,
                    t: kind,
                    name,
                    ad: values.0,
                    st: values.1,
                    ct: values.2,
                },
            )
        } else {
            None
        },
{
    lemma_split_lines_of_join(ls, rest);
    lemma_name_and_type_of_parts(name, kind);
    lemma_field_value_of_parts(labels.0, values.0);
    lemma_field_value_of_parts(labels.1, values.1);
    lemma_field_value_of_parts(labels.2, values.2);
    lemma_seats_free_written(taken, capacity, after_seats);
}

/// A row whose state is neither announced nor open never shows a course.
pub proof fn lemma_other_states_hidden(text: Seq<char>, index: usize)
    requires
        split_lines(text).0.len() >= 1,
        split_lines(text).0[0] != state_preview(),
        split_lines(text).0[0] != state_open(),
    ensures
        course_of(text, index) is None,
{
}

/// Checks an index that the user typed against the number of rows.
pub fn validate_index(n: usize, len: usize) -> (r: Result<(), String>)
    ensures
        r is Ok <==> n < len,
        r matches Err(e) ==> e@ == "Invalid input. It is out of range"@,
{
    if n < len {
        Ok(())
    } else {
        Err(String::from_str("Invalid input. It is out of range"))
    }
}

} // verus!
