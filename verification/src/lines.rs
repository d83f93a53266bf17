//! Cutting text into lines and fields.

use vstd::prelude::*;
use vstd::slice::slice_subrange;

use crate::text::{char_is_space, is_space, space_end};

verus! {

/// Where the run of non-whitespace that starts at `i` ends.
pub open spec fn field_end(s: Seq<char>, i: int) -> int
    decreases s.len() - i,
{
    if 0 <= i < s.len() && !is_space(s[i]) {
        field_end(s, i + 1)
    } else {
        i
    }
}

/// The fields of `s` from `i` on: its longest runs without whitespace.
pub open spec fn fields_from(s: Seq<char>, i: int) -> Seq<Seq<char>>
    decreases s.len() - i,
    when 0 <= i
    via fields_decrease
{
    let a = space_end(s, i);
    let b = field_end(s, a);
    if a < s.len() {
        seq![s.subrange(a, b)] + fields_from(s, b)
    } else {
        Seq::empty()
    }
}

#[via_fn]
proof fn fields_decrease(s: Seq<char>, i: int) {
    space_end_bounds(s, i);
    let a = space_end(s, i);
    if a < s.len() {
        field_end_bounds(s, a);
    }
}

/// The fields of `s`.
pub open spec fn fields(s: Seq<char>) -> Seq<Seq<char>> {
    fields_from(s, 0)
}

proof fn space_end_bounds(s: Seq<char>, i: int)
    requires
        0 <= i,
    ensures
        i <= space_end(s, i),
        i <= s.len() ==> space_end(s, i) <= s.len(),
        space_end(s, i) < s.len() ==> !is_space(s[space_end(s, i)]),
    decreases s.len() - i,
{
    if i < s.len() && is_space(s[i]) {
        space_end_bounds(s, i + 1);
    }
}

proof fn field_end_bounds(s: Seq<char>, i: int)
    requires
        0 <= i,
    ensures
        i <= field_end(s, i),
        i <= s.len() ==> field_end(s, i) <= s.len(),
        i < s.len() && !is_space(s[i]) ==> i < field_end(s, i),
    decreases s.len() - i,
{
    if i < s.len() && !is_space(s[i]) {
        field_end_bounds(s, i + 1);
    }
}

/// Where the fields of `s` are.
pub open spec fn cut(s: Seq<char>, at: Seq<(usize, usize)>) -> Seq<Seq<char>> {
    at.map_values(|r: (usize, usize)| s.subrange(r.0 as int, r.1 as int))
}

/// Whether every range lies in a text of `n` characters.
pub open spec fn ranges_in(at: Seq<(usize, usize)>, n: int) -> bool {
    forall|i: int| 0 <= i < at.len() ==> (#[trigger] at[i]).0 <= at[i].1 <= n
}

/// Finds the fields of `s`.
pub fn split_fields(s: &[char]) -> (at: Vec<(usize, usize)>)
    ensures
        cut(s@, at@) == fields(s@),
        ranges_in(at@, s@.len() as int),
{
    let mut at: Vec<(usize, usize)> = Vec::new();
    let mut i: usize = 0;
    assert(cut(s@, at@) + fields(s@) =~= fields(s@));
    loop
        invariant
            i <= s@.len(),
            cut(s@, at@) + fields_from(s@, i as int) == fields(s@),
            ranges_in(at@, s@.len() as int),
        ensures
            cut(s@, at@) == fields(s@),
        decreases s@.len() - i,
    {
        let ghost i0 = i as int;
        proof {
            space_end_bounds(s@, i0);
        }
        while i < s.len() && char_is_space(s[i])
            invariant
                i <= s@.len(),
                space_end(s@, i as int) == space_end(s@, i0),
            decreases s@.len() - i,
        {
            i += 1;
        }
        let a: usize = i;
        if a == s.len() {
            assert(cut(s@, at@) + fields_from(s@, i0) =~= cut(s@, at@));
            break;
        }
        proof {
            field_end_bounds(s@, a as int);
        }
        while i < s.len() && !char_is_space(s[i])
            invariant
                a <= i <= s@.len(),
                field_end(s@, i as int) == field_end(s@, a as int),
            decreases s@.len() - i,
        {
            i += 1;
        }
        let ghost before = at@;
        at.push((a, i));
        proof {
            let piece = s@.subrange(a as int, i as int);
            assert(cut(s@, at@) =~= cut(s@, before).push(piece));
            assert(cut(s@, before) + (seq![piece] + fields_from(s@, i as int)) =~= cut(s@, at@)
                + fields_from(s@, i as int));
        }
    }
    at
}

/// Where the line that starts at `i` ends, before its newline.
pub open spec fn line_end(s: Seq<char>, i: int) -> int
    decreases s.len() - i,
{
    if 0 <= i < s.len() && s[i] != '\n' {
        line_end(s, i + 1)
    } else {
        i
    }
}

/// A line without the carriage return before its newline.
pub open spec fn bare_line(s: Seq<char>, a: int, b: int) -> Seq<char> {
    if a < b && b < s.len() && s[b - 1] == '\r' {
        s.subrange(a, b - 1)
    } else {
        s.subrange(a, b)
    }
}

/// The lines of `s` from `i` on. Text after the last newline is a line too.
pub open spec fn lines_from(s: Seq<char>, i: int) -> Seq<Seq<char>>
    decreases s.len() + 1 - i,
    when 0 <= i
    via lines_decrease
{
    if i < s.len() {
        let b = line_end(s, i);
        seq![bare_line(s, i, b)] + lines_from(s, b + 1)
    } else {
        Seq::empty()
    }
}

#[via_fn]
proof fn lines_decrease(s: Seq<char>, i: int) {
    line_end_bounds(s, i);
}

/// The lines of `s`.
pub open spec fn lines(s: Seq<char>) -> Seq<Seq<char>> {
    lines_from(s, 0)
}

proof fn line_end_bounds(s: Seq<char>, i: int)
    requires
        0 <= i,
    ensures
        i <= line_end(s, i),
        i <= s.len() ==> line_end(s, i) <= s.len(),
    decreases s.len() - i,
{
    if i < s.len() && s[i] != '\n' {
        line_end_bounds(s, i + 1);
    }
}

/// Finds the lines of `s`.
pub fn split_lines(s: &[char]) -> (at: Vec<(usize, usize)>)
    ensures
        cut(s@, at@) == lines(s@),
        ranges_in(at@, s@.len() as int),
{
    let mut at: Vec<(usize, usize)> = Vec::new();
    let mut i: usize = 0;
    assert(cut(s@, at@) + lines(s@) =~= lines(s@));
    while i < s.len()
        invariant
            i <= s@.len(),
            cut(s@, at@) + lines_from(s@, i as int) == lines(s@),
            ranges_in(at@, s@.len() as int),
        decreases s@.len() - i,
    {
        let a: usize = i;
        let mut b: usize = i;
        proof {
            line_end_bounds(s@, a as int);
        }
        while b < s.len() && s[b] != '\n'
            invariant
                a <= b <= s@.len(),
                line_end(s@, b as int) == line_end(s@, a as int),
            decreases s@.len() - b,
        {
            b += 1;
        }
        let end: usize = if a < b && b < s.len() && s[b - 1] == '\r' {
            b - 1
        } else {
            b
        };
        let ghost before = at@;
        at.push((a, end));
        proof {
            let piece = bare_line(s@, a as int, b as int);
            assert(cut(s@, at@) =~= cut(s@, before).push(piece));
            assert(cut(s@, before) + (seq![piece] + lines_from(s@, b + 1)) =~= cut(s@, at@)
                + lines_from(s@, b + 1));
        }
        if b < s.len() {
            i = b + 1;
        } else {
            i = b;
            assert(lines_from(s@, b + 1) =~= lines_from(s@, b as int));
        }
    }
    assert(cut(s@, at@) + lines_from(s@, i as int) =~= cut(s@, at@));
    at
}

/// Whether `s` begins with `prefix`.
pub open spec fn begins(s: Seq<char>, prefix: Seq<char>) -> bool {
    prefix.len() <= s.len() && s.take(prefix.len() as int) == prefix
}

/// Whether `s` begins with `prefix`.
pub fn starts_with(s: &[char], prefix: &[char]) -> (r: bool)
    ensures
        r == begins(s@, prefix@),
{
    if prefix.len() > s.len() {
        return false;
    }
    let mut i: usize = 0;
    while i < prefix.len()
        invariant
            i <= prefix@.len() <= s@.len(),
            forall|j: int| 0 <= j < i ==> s@[j] == prefix@[j],
        decreases prefix@.len() - i,
    {
        if s[i] != prefix[i] {
            assert(s@.take(prefix@.len() as int)[i as int] != prefix@[i as int]);
            return false;
        }
        i += 1;
    }
    assert(s@.take(prefix@.len() as int) =~= prefix@);
    true
}

/// The text of one range.
pub fn piece(s: &[char], at: (usize, usize)) -> (r: &[char])
    requires
        at.0 <= at.1 <= s@.len(),
    ensures
        r@ == s@.subrange(at.0 as int, at.1 as int),
{
    slice_subrange(s, at.0, at.1)
}

proof fn field_end_is_end(s: Seq<char>, i: int)
    requires
        0 <= i <= s.len(),
    ensures
        i <= field_end(s, i) <= s.len(),
        forall|k: int| i <= k < field_end(s, i) ==> !is_space(#[trigger] s[k]),
        field_end(s, i) < s.len() ==> is_space(s[field_end(s, i)]),
    decreases s.len() - i,
{
    if i < s.len() && !is_space(s[i]) {
        field_end_is_end(s, i + 1);
    }
}

/// Where a field stands, its text is the next field: behind whitespace, and as long
/// as there is no more of it.
pub proof fn field_stands_between_spaces(s: Seq<char>, i: int, a: int, b: int)
    requires
        0 <= i <= a < b <= s.len(),
        forall|k: int| i <= k < a ==> is_space(#[trigger] s[k]),
        forall|k: int| a <= k < b ==> !is_space(#[trigger] s[k]),
        b < s.len() ==> is_space(s[b]),
    ensures
        fields_from(s, i) == seq![s.subrange(a, b)] + fields_from(s, b),
{
    space_end_is(s, i, a);
    field_end_is_end(s, a);
    let e = field_end(s, a);
    if e < b {
        assert(!is_space(s[e]));
    }
    if b < e {
        assert(!is_space(s[b]));
    }
}

proof fn space_end_is(s: Seq<char>, i: int, a: int)
    requires
        0 <= i <= a <= s.len(),
        forall|k: int| i <= k < a ==> is_space(#[trigger] s[k]),
        a < s.len() ==> !is_space(s[a]),
    ensures
        space_end(s, i) == a,
    decreases a - i,
{
    if i < a {
        assert(is_space(s[i]));
        space_end_is(s, i + 1, a);
    }
}

/// Whitespace alone has no fields.
pub proof fn whitespace_has_no_fields(s: Seq<char>, i: int)
    requires
        0 <= i <= s.len(),
        forall|k: int| i <= k < s.len() ==> is_space(#[trigger] s[k]),
    ensures
        fields_from(s, i).len() == 0,
{
    space_end_is(s, i, s.len() as int);
}

/// A line is what stands before the next newline, without a carriage return right
/// before that; what stands behind the last newline is a line as it is.
pub proof fn line_stands_before_newline(s: Seq<char>, i: int, b: int)
    requires
        0 <= i <= b <= s.len(),
        i < s.len(),
        forall|k: int| i <= k < b ==> (#[trigger] s[k]) != '\n',
        b < s.len() ==> s[b] == '\n',
    ensures
        ({
            let line = if b < s.len() && i < b && s[b - 1] == '\r' {
                s.subrange(i, b - 1)
            } else {
                s.subrange(i, b)
            };
            lines_from(s, i) == seq![line] + lines_from(s, b + 1)
        }),
        lines_from(s, s.len() as int).len() == 0,
{
    line_end_is(s, i, b);
}

proof fn line_end_is(s: Seq<char>, i: int, b: int)
    requires
        0 <= i <= b <= s.len(),
        forall|k: int| i <= k < b ==> (#[trigger] s[k]) != '\n',
        b < s.len() ==> s[b] == '\n',
    ensures
        line_end(s, i) == b,
    decreases b - i,
{
    if i < b {
        assert(s[i] != '\n');
        line_end_is(s, i + 1, b);
    }
}

} // verus!
