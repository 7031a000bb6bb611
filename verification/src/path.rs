//! Slash-separated paths.
//!
//! A path is a text, or bytes that need not be UTF-8. It may start with a root
//! (`/`) or, when relative, with a current-directory dot; what follows is split
//! at slashes, and the empty and `.` segments in it are passed over. Everything
//! here is about that reading of it; nothing looks at a disk.
use vstd::prelude::*;
use vstd::string::*;
use vstd::utf8::{is_ascii_chars, is_ascii_chars_encode_utf8};

use crate::os_text::{lemma_raw_concat, lemma_raw_last, raw, OsText};
use crate::text::{cat2, cat3, characters};

verus! {

/// Whether the path starts at the root.
pub open spec fn absolute(p: Seq<char>) -> bool {
    p.len() > 0 && p[0] == '/'
}

/// How many characters the root, or the leading dot of a relative path, takes.
pub open spec fn lead(p: Seq<char>) -> int {
    if absolute(p) {
        1
    } else if p.len() > 0 && p[0] == '.' && (p.len() == 1 || p[1] == '/') {
        1
    } else {
        0
    }
}

/// Where the segment that ends at `end` starts: behind the last slash before it.
pub open spec fn segment_start(p: Seq<char>, end: int) -> int
    decreases end,
{
    if end <= lead(p) {
        lead(p)
    } else if p[end - 1] == '/' {
        end
    } else {
        segment_start(p, end - 1)
    }
}

/// Whether a segment names nothing: it is empty or a single dot.
pub open spec fn passed_over(p: Seq<char>, start: int, end: int) -> bool {
    start == end || (start + 1 == end && p[start] == '.')
}

/// Where the text before a segment ends, its slash left out.
pub open spec fn before(p: Seq<char>, start: int) -> int {
    if start > lead(p) {
        start - 1
    } else {
        lead(p)
    }
}

/// A segment lies between the lead and its end.
pub proof fn lemma_segment_start(p: Seq<char>, end: int)
    ensures
        lead(p) <= segment_start(p, end),
        end >= lead(p) ==> segment_start(p, end) <= end,
        forall|i: int| segment_start(p, end) <= i < end ==> p[i] != '/',
        lead(p) < segment_start(p, end) ==> p[segment_start(p, end) - 1] == '/',
    decreases end,
{
    if end > lead(p) && p[end - 1] != '/' {
        lemma_segment_start(p, end - 1);
    }
}

/// The end of the last segment, up to `end`, that names something; the end of
/// the lead where there is none.
pub open spec fn trimmed(p: Seq<char>, end: int) -> int
    decreases end,
{
    if end <= lead(p) {
        lead(p)
    } else if passed_over(p, segment_start(p, end), end) {
        proof {
            lemma_segment_start(p, end);
        }
        trimmed(p, before(p, segment_start(p, end)))
    } else {
        end
    }
}

/// Trimming stays between the lead and the end.
pub proof fn lemma_trimmed(p: Seq<char>, end: int)
    ensures
        lead(p) <= trimmed(p, end),
        end >= lead(p) ==> trimmed(p, end) <= end,
        trimmed(p, end) > lead(p) ==> !passed_over(
            p,
            segment_start(p, trimmed(p, end)),
            trimmed(p, end),
        ),
        trimmed(p, trimmed(p, end)) == trimmed(p, end),
    decreases end,
{
    lemma_segment_start(p, end);
    if end > lead(p) && passed_over(p, segment_start(p, end), end) {
        lemma_trimmed(p, before(p, segment_start(p, end)));
    }
}

/// The segments that name something, in order, in the part up to `end`.
pub open spec fn names(p: Seq<char>, end: int) -> Seq<Seq<char>>
    decreases end,
{
    let last = trimmed(p, end);
    if last <= lead(p) || end <= lead(p) {
        Seq::empty()
    } else {
        let start = segment_start(p, last);
        proof {
            lemma_trimmed(p, end);
            lemma_segment_start(p, last);
        }
        names(p, before(p, start)).push(p.subrange(start, last))
    }
}

/// Whether two paths read the same: same root, same leading dot, same names.
pub open spec fn same_path(a: Seq<char>, b: Seq<char>) -> bool {
    &&& absolute(a) == absolute(b)
    &&& lead(a) == lead(b)
    &&& names(a, a.len() as int) == names(b, b.len() as int)
}

/// The last segment, where there is one and it does not lead upwards.
pub open spec fn file_name(p: Seq<char>) -> Option<Seq<char>> {
    let end = trimmed(p, p.len() as int);
    let name = p.subrange(segment_start(p, end), end);
    if end <= lead(p) || name == ".."@ {
        None
    } else {
        Some(name)
    }
}

/// The path without its last segment. A root and an empty path have none.
pub open spec fn parent(p: Seq<char>) -> Option<Seq<char>> {
    let end = trimmed(p, p.len() as int);
    if end > lead(p) {
        Some(p.subrange(0, trimmed(p, before(p, segment_start(p, end)))))
    } else if lead(p) == 1 && !absolute(p) {
        Some(Seq::empty())
    } else {
        None
    }
}

/// The position of the last dot before `end`; -1 where there is none.
pub open spec fn last_dot(name: Seq<char>, end: int) -> int
    decreases end,
{
    if end <= 0 {
        -1
    } else if name[end - 1] == '.' {
        end - 1
    } else {
        last_dot(name, end - 1)
    }
}

/// What follows the last dot of the file name, unless the name starts with it.
pub open spec fn extension(p: Seq<char>) -> Option<Seq<char>> {
    match file_name(p) {
        Some(name) => {
            let dot = last_dot(name, name.len() as int);
            if dot > 0 {
                Some(name.subrange(dot + 1, name.len() as int))
            } else {
                None
            }
        },
        None => None,
    }
}

/// `name` under `base`: an absolute name stands for itself.
pub open spec fn joined(base: Seq<char>, name: Seq<char>) -> Seq<char> {
    if absolute(name) {
        name
    } else if base.len() == 0 || base[base.len() - 1] == '/' {
        base + name
    } else {
        base + "/"@ + name
    }
}

/// The path with its last segment replaced, or with one more where it names no file.
pub open spec fn with_file_name(p: Seq<char>, name: Seq<char>) -> Seq<char> {
    if file_name(p) is Some {
        joined(parent(p)->0, name)
    } else {
        joined(p, name)
    }
}

fn lead_of(p: &Vec<char>) -> (length: usize)
    ensures
        length == lead(p@),
        length <= p.len(),
{
    if p.len() == 0 {
        0
    } else if p[0] == '/' {
        1
    } else if p[0] == '.' && (p.len() == 1 || p[1] == '/') {
        1
    } else {
        0
    }
}

fn segment_start_of(p: &Vec<char>, end: usize) -> (start: usize)
    requires
        lead(p@) <= end <= p.len(),
    ensures
        start == segment_start(p@, end as int),
        start <= end,
{
    let first: usize = lead_of(p);
    let mut start: usize = end;
    while start > first && p[start - 1] != '/'
        invariant
            first == lead(p@),
            first <= start <= end <= p.len(),
            segment_start(p@, start as int) == segment_start(p@, end as int),
        decreases start,
    {
        start = start - 1;
    }
    start
}

fn before_of(p: &Vec<char>, start: usize) -> (end: usize)
    requires
        start <= p.len(),
    ensures
        end == before(p@, start as int),
        lead(p@) <= end <= p.len(),
{
    let first: usize = lead_of(p);
    if start > first {
        start - 1
    } else {
        first
    }
}

fn trimmed_of(p: &Vec<char>, end: usize) -> (last: usize)
    requires
        end <= p.len(),
    ensures
        last == trimmed(p@, end as int),
        lead(p@) <= last <= p.len(),
        end >= lead(p@) ==> last <= end,
{
    let first: usize = lead_of(p);
    let mut last: usize = end;
    proof {
        lemma_trimmed(p@, end as int);
    }
    while last > first
        invariant
            first == lead(p@),
            first <= p.len(),
            last <= end <= p.len(),
            end >= lead(p@) ==> trimmed(p@, end as int) <= end,
            trimmed(p@, last as int) == trimmed(p@, end as int),
        decreases last,
    {
        let start: usize = segment_start_of(p, last);
        proof {
            lemma_segment_start(p@, last as int);
        }
        if start == last || (start + 1 == last && p[start] == '.') {
            last = before_of(p, start);
        } else {
            return last;
        }
    }
    first
}

/// Whether a path starts at the root.
pub fn is_absolute(path: &str) -> (result: bool)
    ensures
        result == absolute(path@),
{
    let p = characters(path);
    p.len() > 0 && p[0] == '/'
}

/// Whether two stretches of characters are equal.
fn same_stretch(a: &Vec<char>, a0: usize, a1: usize, b: &Vec<char>, b0: usize, b1: usize) -> (same:
    bool)
    requires
        a0 <= a1 <= a.len(),
        b0 <= b1 <= b.len(),
    ensures
        same == (a@.subrange(a0 as int, a1 as int) == b@.subrange(b0 as int, b1 as int)),
{
    let ghost left = a@.subrange(a0 as int, a1 as int);
    let ghost right = b@.subrange(b0 as int, b1 as int);
    if a1 - a0 != b1 - b0 {
        assert(left.len() != right.len());
        return false;
    }
    let length: usize = a1 - a0;
    let mut i: usize = 0;
    while i < length
        invariant
            a0 <= a1 <= a.len(),
            b0 <= b1 <= b.len(),
            length == a1 - a0,
            length == b1 - b0,
            i <= length,
            left == a@.subrange(a0 as int, a1 as int),
            right == b@.subrange(b0 as int, b1 as int),
            forall|k: int| 0 <= k < i ==> left[k] == right[k],
        decreases length - i,
    {
        if a[a0 + i] != b[b0 + i] {
            assert(left[i as int] != right[i as int]);
            return false;
        }
        i = i + 1;
    }
    assert(left =~= right);
    true
}

/// Whether two paths have the same names up to the given ends.
fn same_names(a: &Vec<char>, a_end: usize, b: &Vec<char>, b_end: usize) -> (same: bool)
    requires
        lead(a@) <= a_end <= a.len(),
        lead(b@) <= b_end <= b.len(),
    ensures
        same == (names(a@, a_end as int) == names(b@, b_end as int)),
    decreases a_end,
{
    let a_last: usize = trimmed_of(a, a_end);
    let b_last: usize = trimmed_of(b, b_end);
    let a_done = a_last <= lead_of(a);
    let b_done = b_last <= lead_of(b);
    let ghost left = names(a@, a_end as int);
    let ghost right = names(b@, b_end as int);
    if a_done || b_done {
        assert(a_done ==> left.len() == 0);
        assert(b_done ==> right.len() == 0);
        if a_done && b_done {
            assert(left =~= right);
        }
        return a_done && b_done;
    }
    let a_start: usize = segment_start_of(a, a_last);
    let b_start: usize = segment_start_of(b, b_last);
    proof {
        lemma_segment_start(a@, a_last as int);
        lemma_segment_start(b@, b_last as int);
        let a_rest = names(a@, before(a@, a_start as int));
        let b_rest = names(b@, before(b@, b_start as int));
        assert(left == a_rest.push(a@.subrange(a_start as int, a_last as int)));
        assert(right == b_rest.push(b@.subrange(b_start as int, b_last as int)));
        assert(left.drop_last() =~= a_rest);
        assert(right.drop_last() =~= b_rest);
        assert(left.last() == a@.subrange(a_start as int, a_last as int));
        assert(right.last() == b@.subrange(b_start as int, b_last as int));
    }
    same_stretch(a, a_start, a_last, b, b_start, b_last) && same_names(
        a,
        before_of(a, a_start),
        b,
        before_of(b, b_start),
    )
}

/// Whether two paths read the same.
pub fn paths_equal(a: &str, b: &str) -> (same: bool)
    ensures
        same == same_path(a@, b@),
{
    let left = characters(a);
    let right = characters(b);
    is_absolute(a) == is_absolute(b) && lead_of(&left) == lead_of(&right) && same_names(
        &left,
        left.len(),
        &right,
        right.len(),
    )
}

/// The last segment of a path.
pub fn file_name_of(path: &str) -> (name: Option<String>)
    ensures
        name.deep_view() == file_name(path@),
{
    let p = characters(path);
    let end: usize = trimmed_of(&p, p.len());
    if end <= lead_of(&p) {
        return None;
    }
    let start: usize = segment_start_of(&p, end);
    let name = path.substring_char(start, end).to_owned();
    if name == "..".to_owned() {
        None
    } else {
        Some(name)
    }
}

/// The path without its last segment.
pub fn parent_of(path: &str) -> (directory: Option<String>)
    ensures
        directory.deep_view() == parent(path@),
{
    let p = characters(path);
    let end: usize = trimmed_of(&p, p.len());
    let first: usize = lead_of(&p);
    if end > first {
        let start: usize = segment_start_of(&p, end);
        let last: usize = trimmed_of(&p, before_of(&p, start));
        Some(path.substring_char(0, last).to_owned())
    } else if first == 1 && p[0] != '/' {
        Some(String::new())
    } else {
        None
    }
}

/// The extension of a path's file name.
pub fn extension_of(path: &str) -> (result: Option<String>)
    ensures
        result.deep_view() == extension(path@),
{
    let name = match file_name_of(path) {
        Some(name) => name,
        None => return None,
    };
    let chars = characters(&name);
    let mut end: usize = chars.len();
    while end > 0 && chars[end - 1] != '.'
        invariant
            chars@ == name@,
            end <= chars.len(),
            last_dot(name@, end as int) == last_dot(name@, name@.len() as int),
        decreases end,
    {
        end = end - 1;
    }
    if end > 1 {
        Some(name.as_str().substring_char(end, chars.len()).to_owned())
    } else {
        None
    }
}

/// A name under a directory.
pub fn join_path(base: &str, name: &str) -> (path: String)
    ensures
        path@ == joined(base@, name@),
{
    if is_absolute(name) {
        return name.to_owned();
    }
    let chars = characters(base);
    if chars.len() == 0 || chars[chars.len() - 1] == '/' {
        cat2(base, name)
    } else {
        cat3(base, "/", name)
    }
}

/// The path with its last segment replaced.
pub fn replace_file_name(path: &str, name: &str) -> (result: String)
    ensures
        result@ == with_file_name(path@, name@),
{
    match (file_name_of(path), parent_of(path)) {
        (Some(_), Some(directory)) => join_path(&directory, name),
        _ => join_path(path, name),
    }
}

/// Whether a text is a single segment that names something below a directory.
pub open spec fn plain_name(name: Seq<char>) -> bool {
    &&& name.len() > 0
    &&& forall|i: int| 0 <= i < name.len() ==> name[i] != '/'
    &&& name != "."@
    &&& name != ".."@
}

/// The part of a path up to `end` alone decides how it is read up to there.
proof fn lemma_local(p: Seq<char>, q: Seq<char>, end: int)
    requires
        lead(p) == lead(q),
        end <= p.len(),
        end <= q.len(),
        forall|i: int| 0 <= i < end ==> p[i] == q[i],
    ensures
        segment_start(p, end) == segment_start(q, end),
        trimmed(p, end) == trimmed(q, end),
        names(p, end) == names(q, end),
    decreases end,
{
    if end > lead(p) {
        lemma_local(p, q, end - 1);
        lemma_segment_start(p, end);
        let start = segment_start(p, end);
        assert(start == segment_start(q, end));
        if passed_over(p, start, end) {
            lemma_local(p, q, before(p, start));
        }
        assert(trimmed(p, end) == trimmed(q, end));
        let last = trimmed(p, end);
        lemma_trimmed(p, end);
        if last > lead(p) {
            lemma_segment_start(p, last);
            if last < end {
                lemma_local(p, q, last);
            }
            let first = segment_start(p, last);
            assert(first == segment_start(q, last));
            lemma_local(p, q, before(p, first));
            assert(p.subrange(first, last) =~= q.subrange(first, last));
        }
    }
}

/// A stretch without slashes, behind a slash or the lead, is one segment.
proof fn lemma_segment(p: Seq<char>, start: int, end: int)
    requires
        lead(p) <= start <= end <= p.len(),
        forall|i: int| start <= i < end ==> p[i] != '/',
        start == lead(p) || p[start - 1] == '/',
    ensures
        segment_start(p, end) == start,
    decreases end,
{
    if end > start {
        lemma_segment(p, start, end - 1);
    }
}

/// What is left of a path after trimming still reads as the whole.
proof fn lemma_clean(p: Seq<char>)
    ensures
        same_path(p.subrange(0, trimmed(p, p.len() as int)), p),
{
    let length = p.len() as int;
    let last = trimmed(p, length);
    lemma_trimmed(p, length);
    let clean = p.subrange(0, last);
    lemma_segment_start(p, last);
    assert(lead(clean) == lead(p));
    assert(names(p, length) == names(p, last));
    lemma_local(p, clean, last);
}

/// A plain name joined to a directory is one more name: it is the file name of
/// the result, and the directory reads as its parent.
#[verifier::spinoff_prover]
pub proof fn law_join_then_split(base: Seq<char>, name: Seq<char>)
    requires
        plain_name(name),
    ensures
        absolute(joined(base, name)) == absolute(base),
        names(joined(base, name), joined(base, name).len() as int) == names(
            base,
            base.len() as int,
        ).push(name),
        file_name(joined(base, name)) == Some(name),
        parent(joined(base, name)) is Some,
        same_path(parent(joined(base, name))->0, base),
{
    reveal_strlit("/");
    reveal_strlit(".");
    let whole = joined(base, name);
    let end = whole.len() as int;
    let start = end - name.len();
    assert(name.len() == 1 ==> name[0] != '.') by {
        if name.len() == 1 && name[0] == '.' {
            assert(name =~= "."@);
        }
    }
    assert forall|i: int| start <= i < end implies whole[i] != '/' by {
        assert(whole[i] == name[i - start]);
    }
    assert(whole.subrange(start, end) =~= name);
    if base.len() == 0 {
        assert(whole =~= name);
    } else {
        assert(whole[0] == base[0]);
        assert(whole[start - 1] == '/');
        if base.len() > 1 {
            assert(whole[1] == base[1]);
        } else if base[0] != '/' {
            assert(whole[1] == '/');
        }
        assert(lead(whole) == lead(base));
    }
    lemma_segment(whole, start, end);
    assert(whole[start] == name[0]);
    assert(trimmed(whole, end) == end);
    let length = base.len() as int;
    lemma_trimmed(whole, end);
    if base.len() == 0 {
        assert(parent(whole)->0 =~= base);
        assert(lead(whole) == 0 && lead(base) == 0);
        assert(names(whole, 0) =~= Seq::empty());
        assert(names(whole, end) =~= names(base, length).push(name));
    } else {
        lemma_below(base, whole, start);
        assert(names(whole, end) =~= names(base, length).push(name));
        assert(parent(whole)->0 =~= base.subrange(0, trimmed(base, length)));
        lemma_clean(base);
    }
}

/// A path that goes on below a directory reads as the directory up to there.
#[verifier::spinoff_prover]
proof fn lemma_below(base: Seq<char>, whole: Seq<char>, start: int)
    requires
        0 < base.len() <= start <= base.len() + 1,
        start <= whole.len(),
        start == base.len() ==> base[start - 1] == '/',
        start > base.len() ==> base[base.len() - 1] != '/',
        whole[start - 1] == '/',
        lead(whole) == lead(base),
        forall|i: int| 0 <= i < base.len() ==> whole[i] == base[i],
    ensures
        trimmed(whole, before(whole, start)) == trimmed(base, base.len() as int),
        0 <= trimmed(base, base.len() as int) <= base.len(),
        names(whole, before(whole, start)) == names(base, base.len() as int),
{
    let rest = before(whole, start);
    let length = base.len() as int;
    if base[length - 1] == '/' && length > lead(base) {
        assert(segment_start(base, length) == length);
        assert(trimmed(base, length) == trimmed(base, length - 1));
    }
    lemma_local(whole, base, rest);
    lemma_trimmed(base, length);
}

/// The file name of a path is a plain name, and one more than the names of its
/// parent.
pub proof fn law_split_then_join(p: Seq<char>)
    requires
        file_name(p) is Some,
    ensures
        plain_name(file_name(p)->0),
        parent(p) is Some,
        absolute(parent(p)->0) == absolute(p),
        names(p, p.len() as int) == names(parent(p)->0, parent(p)->0.len() as int).push(
            file_name(p)->0,
        ),
{
    reveal_strlit(".");
    let length = p.len() as int;
    let end = trimmed(p, length);
    lemma_trimmed(p, length);
    lemma_segment_start(p, end);
    let start = segment_start(p, end);
    let name = file_name(p)->0;
    assert forall|i: int| 0 <= i < name.len() implies name[i] != '/' by {
        assert(name[i] == p[start + i]);
    }
    assert(name == p.subrange(start, end));
    assert(name != "."@) by {
        if name == "."@ {
            assert(name.len() == 1);
            assert(name[0] == p[start]);
        }
    }
    let rest = before(p, start);
    let last = trimmed(p, rest);
    lemma_trimmed(p, rest);
    let directory = p.subrange(0, last);
    lemma_segment_start(p, last);
    assert(lead(directory) == lead(p));
    lemma_local(p, directory, last);
    assert(names(p, rest) == names(p, last)) by {
        if last > lead(p) {
            assert(trimmed(p, last) == last);
        }
    }
}

/// Replacing the file name of a path by another plain name leaves the path's
/// directory as it was.
pub proof fn law_sibling_shares_directory(p: Seq<char>, name: Seq<char>)
    requires
        file_name(p) is Some,
        plain_name(name),
    ensures
        file_name(with_file_name(p, name)) == Some(name),
        parent(with_file_name(p, name)) is Some,
        parent(p) is Some,
        same_path(parent(with_file_name(p, name))->0, parent(p)->0),
{
    law_join_then_split(parent(p)->0, name);
}

/// A parent is shorter than what it is the parent of.
pub proof fn lemma_parent_is_shorter(p: Seq<char>)
    ensures
        parent(p) matches Some(directory) ==> directory.len() < p.len(),
{
    let length = p.len() as int;
    let end = trimmed(p, length);
    if length >= lead(p) {
        lemma_trimmed(p, length);
    }
    if end > lead(p) {
        lemma_segment_start(p, end);
        lemma_trimmed(p, before(p, segment_start(p, end)));
    }
}

/// A path's bytes as characters, one each. Slashes and dots are ASCII, so bytes
/// that are no UTF-8 are read as names like any other.
pub open spec fn wide(p: Seq<u8>) -> Seq<char> {
    Seq::new(p.len(), |i: int| p[i] as char)
}

/// The last segment of a path held as bytes.
pub open spec fn raw_file_name(p: Seq<u8>) -> Option<Seq<u8>> {
    let end = trimmed(wide(p), p.len() as int);
    let name = p.subrange(segment_start(wide(p), end), end);
    if end <= lead(wide(p)) || wide(name) == ".."@ {
        None
    } else {
        Some(name)
    }
}

/// A path held as bytes, without its last segment.
pub open spec fn raw_parent(p: Seq<u8>) -> Option<Seq<u8>> {
    let end = trimmed(wide(p), p.len() as int);
    if end > lead(wide(p)) {
        Some(
            p.subrange(0, trimmed(wide(p), before(wide(p), segment_start(wide(p), end)))),
        )
    } else if lead(wide(p)) == 1 && !absolute(wide(p)) {
        Some(Seq::empty())
    } else {
        None
    }
}

/// The directory that holds the last segment of a path held as bytes: the
/// parent, or the current directory where the parent is absent or empty.
pub open spec fn raw_parent_directory(p: Seq<u8>) -> Seq<u8> {
    match raw_parent(p) {
        Some(directory) => if directory.len() > 0 {
            directory
        } else {
            raw("."@)
        },
        None => raw("."@),
    }
}

/// `name` under `base`, both held as bytes.
pub open spec fn raw_joined(base: Seq<u8>, name: Seq<u8>) -> Seq<u8> {
    if absolute(wide(name)) {
        name
    } else if base.len() == 0 || wide(base)[base.len() - 1] == '/' {
        base + name
    } else {
        base + raw("/"@) + name
    }
}

/// The name of a path held as bytes is read as that of its characters.
pub proof fn lemma_raw_file_name(p: Seq<u8>)
    ensures
        file_name(wide(p)) == match raw_file_name(p) {
            Some(name) => Some(wide(name)),
            None => None,
        },
        raw_file_name(p) matches Some(name) ==> plain_name(wide(name)),
{
    let end = trimmed(wide(p), p.len() as int);
    let start = segment_start(wide(p), end);
    lemma_trimmed(wide(p), p.len() as int);
    lemma_segment_start(wide(p), end);
    assert(wide(p).subrange(start, end) =~= wide(p.subrange(start, end)));
    if raw_file_name(p) is Some {
        law_split_then_join(wide(p));
    }
}

/// Paths held as bytes are joined as their characters are.
pub proof fn lemma_raw_joined(base: Seq<u8>, name: Seq<u8>)
    ensures
        wide(raw_joined(base, name)) == joined(wide(base), wide(name)),
{
    reveal_strlit("/");
    is_ascii_chars_encode_utf8("/"@);
    assert(wide(base + name) =~= wide(base) + wide(name));
    assert(wide(base + raw("/"@) + name) =~= wide(base) + "/"@ + wide(name));
}

/// The directory of a path held as bytes is read as that of its characters.
pub proof fn lemma_raw_parent(p: Seq<u8>)
    ensures
        parent(wide(p)) == match raw_parent(p) {
            Some(directory) => Some(wide(directory)),
            None => None,
        },
{
    let whole = wide(p);
    let end = trimmed(whole, p.len() as int);
    lemma_trimmed(whole, p.len() as int);
    lemma_segment_start(whole, end);
    if end > lead(whole) {
        let stop = trimmed(whole, before(whole, segment_start(whole, end)));
        lemma_trimmed(whole, before(whole, segment_start(whole, end)));
        assert(whole.subrange(0, stop) =~= wide(p.subrange(0, stop)));
    } else {
        assert(wide(Seq::empty()) =~= Seq::<char>::empty());
    }
}

/// An ASCII name joined to a directory is read the same as bytes.
pub proof fn lemma_wide_joined(base: Seq<char>, name: Seq<char>)
    requires
        plain_name(name),
        is_ascii_chars(name),
    ensures
        wide(raw(joined(base, name))) == joined(wide(raw(base)), name),
{
    reveal_strlit("/");
    is_ascii_chars_encode_utf8("/"@);
    is_ascii_chars_encode_utf8(name);
    assert(wide(raw(name)) =~= name);
    if base.len() == 0 {
        lemma_raw_concat(base, name);
    } else if base[base.len() - 1] == '/' {
        assert(base =~= base.drop_last() + "/"@);
        lemma_raw_concat(base.drop_last(), "/"@);
        lemma_raw_concat(base, name);
    } else {
        lemma_raw_last(base);
        lemma_raw_concat(base, "/"@);
        lemma_raw_concat(base + "/"@, name);
    }
    assert(wide(raw(joined(base, name))) =~= joined(wide(raw(base)), name));
}

/// The bytes of a path as characters.
fn widened(path: &OsText) -> (chars: Vec<char>)
    ensures
        chars@ == wide(path@),
{
    let mut chars: Vec<char> = Vec::new();
    let mut i: usize = 0;
    while i < path.bytes.len()
        invariant
            i <= path.bytes.len(),
            chars@ == wide(path@).subrange(0, i as int),
        decreases path.bytes.len() - i,
    {
        chars.push(path.bytes[i] as char);
        assert(wide(path@).subrange(0, i + 1) =~= wide(path@).subrange(0, i as int).push(
            wide(path@)[i as int],
        ));
        i = i + 1;
    }
    assert(wide(path@).subrange(0, path@.len() as int) =~= wide(path@));
    chars
}

/// A stretch of a path's bytes.
fn stretch(path: &OsText, start: usize, end: usize) -> (part: OsText)
    requires
        start <= end <= path@.len(),
    ensures
        part@ == path@.subrange(start as int, end as int),
{
    let mut bytes: Vec<u8> = Vec::new();
    let mut i: usize = start;
    while i < end
        invariant
            start <= i <= end <= path@.len(),
            bytes@ == path@.subrange(start as int, i as int),
        decreases end - i,
    {
        bytes.push(path.bytes[i]);
        assert(path@.subrange(start as int, i + 1) =~= path@.subrange(start as int, i as int).push(
            path@[i as int],
        ));
        i = i + 1;
    }
    OsText { bytes }
}

/// The last segment of a path held as bytes.
pub fn raw_file_name_of(path: &OsText) -> (name: Option<OsText>)
    ensures
        name.deep_view() == raw_file_name(path@),
{
    let p = widened(path);
    let end: usize = trimmed_of(&p, p.len());
    if end <= lead_of(&p) {
        return None;
    }
    let start: usize = segment_start_of(&p, end);
    let name = stretch(path, start, end);
    proof {
        reveal_strlit("..");
        assert(wide(name@).len() == 2 && wide(name@)[0] == '.' && wide(name@)[1] == '.' ==> wide(
            name@,
        ) =~= ".."@);
    }
    if name.bytes.len() == 2 && name.bytes[0] as char == '.' && name.bytes[1] as char == '.' {
        None
    } else {
        Some(name)
    }
}

/// A path held as bytes, without its last segment.
pub fn raw_parent_of(path: &OsText) -> (directory: Option<OsText>)
    ensures
        directory.deep_view() == raw_parent(path@),
{
    let p = widened(path);
    let end: usize = trimmed_of(&p, p.len());
    let first: usize = lead_of(&p);
    if end > first {
        let start: usize = segment_start_of(&p, end);
        let last: usize = trimmed_of(&p, before_of(&p, start));
        Some(stretch(path, 0, last))
    } else if first == 1 && p[0] != '/' {
        let directory = OsText { bytes: Vec::new() };
        assert(directory@ =~= Seq::empty());
        Some(directory)
    } else {
        None
    }
}

/// The directory that holds the last segment of a path held as bytes.
pub fn raw_parent_directory_of(path: &OsText) -> (directory: OsText)
    ensures
        directory@ == raw_parent_directory(path@),
{
    match raw_parent_of(path) {
        Some(directory) => if directory.bytes.len() > 0 {
            directory
        } else {
            OsText::of(".")
        },
        None => OsText::of("."),
    }
}

/// A name under a directory, both held as bytes.
pub fn raw_join(base: &OsText, name: &OsText) -> (path: OsText)
    ensures
        path@ == raw_joined(base@, name@),
{
    if name.bytes.len() > 0 && name.bytes[0] as char == '/' {
        return name.copy();
    }
    let length: usize = base.bytes.len();
    if length == 0 || base.bytes[length - 1] as char == '/' {
        base.plus(name)
    } else {
        base.plus(&OsText::of("/")).plus(name)
    }
}

/// What follows the last dot of a file's name is its extension, unless nothing comes
/// before that dot; a name without a dot has none.
pub proof fn law_extensions_follow_the_last_dot(p: Seq<char>, stem: Seq<char>, end: Seq<char>)
    requires
        forall|i: int| 0 <= i < end.len() ==> end[i] != '.',
    ensures
        file_name(p) is None ==> extension(p) is None,
        file_name(p) == Some(stem.push('.') + end) && stem.len() > 0 ==> extension(p) == Some(end),
        file_name(p) == Some(stem.push('.') + end) && stem.len() == 0 ==> extension(p) is None,
        file_name(p) == Some(end) ==> extension(p) is None,
{
    if let Some(name) = file_name(p) {
        if name == stem.push('.') + end {
            lemma_last_dot(name, stem.len() as int);
            assert(name.subrange(stem.len() as int + 1, name.len() as int) =~= end);
        }
        if name == end {
            lemma_no_dot(name, name.len() as int);
        }
    }
}

proof fn lemma_last_dot(name: Seq<char>, dot: int)
    requires
        0 <= dot < name.len(),
        name[dot] == '.',
        forall|i: int| dot < i < name.len() ==> name[i] != '.',
    ensures
        last_dot(name, name.len() as int) == dot,
{
    lemma_last_dot_until(name, dot, name.len() as int);
}

proof fn lemma_last_dot_until(name: Seq<char>, dot: int, end: int)
    requires
        0 <= dot < end <= name.len(),
        name[dot] == '.',
        forall|i: int| dot < i < end ==> name[i] != '.',
    ensures
        last_dot(name, end) == dot,
    decreases end,
{
    if end - 1 > dot {
        lemma_last_dot_until(name, dot, end - 1);
    }
}

proof fn lemma_no_dot(name: Seq<char>, end: int)
    requires
        0 <= end <= name.len(),
        forall|i: int| 0 <= i < end ==> name[i] != '.',
    ensures
        last_dot(name, end) == -1,
    decreases end,
{
    if end > 0 {
        lemma_no_dot(name, end - 1);
    }
}

/// Two paths read the same exactly where both or neither start at the root, both or
/// neither start with a dot of their own, and they pass through the same names in the
/// same order; so they have the same last name, and a path reads the same as itself.
pub proof fn law_same_paths_have_the_same_names(a: Seq<char>, b: Seq<char>)
    ensures
        same_path(a, a),
        same_path(a, b) <==> {
            &&& (a.len() > 0 && a[0] == '/') == (b.len() > 0 && b[0] == '/')
            &&& lead(a) == lead(b)
            &&& names(a, a.len() as int) == names(b, b.len() as int)
        },
        same_path(a, b) == same_path(b, a),
        same_path(a, b) ==> file_name(a) == file_name(b),
{
    if same_path(a, b) {
        lemma_file_name_is_last(a);
        lemma_file_name_is_last(b);
    }
}

proof fn lemma_file_name_is_last(p: Seq<char>)
    ensures
        ({
            let all = names(p, p.len() as int);
            file_name(p) == if all.len() == 0 || all.last() == ".."@ {
                None
            } else {
                Some(all.last())
            }
        }),
{
    let length = p.len() as int;
    if length > 0 {
        lemma_trimmed(p, length);
        lemma_segment_start(p, trimmed(p, length));
    }
}

/// A slash at the end of a path changes nothing, nor does a dot behind it.
pub proof fn law_empty_names_are_passed_over(p: Seq<char>)
    requires
        p.len() > 0,
    ensures
        same_path(p + "/"@, p),
        same_path(p + "/."@, p),
{
    reveal_strlit("/");
    reveal_strlit("/.");
    let n = p.len() as int;
    let slashed = p + "/"@;
    let dotted = p + "/."@;
    assert(slashed[0] == p[0] && dotted[0] == p[0]);
    if n > 1 {
        assert(slashed[1] == p[1] && dotted[1] == p[1]);
    } else {
        assert(slashed[1] == '/' && dotted[1] == '/');
    }
    assert(lead(slashed) == lead(p) && lead(dotted) == lead(p));
    assert(slashed[n] == '/' && dotted[n] == '/' && dotted[n + 1] == '.');
    lemma_local(slashed, p, n);
    lemma_local(dotted, p, n);
    assert(segment_start(slashed, n + 1) == n + 1);
    assert(trimmed(slashed, n + 1) == trimmed(slashed, n));
    lemma_segment(dotted, n + 1, n + 2);
    assert(trimmed(dotted, n + 2) == trimmed(dotted, n));
    assert(names(slashed, n + 1) == names(slashed, n));
    assert(names(dotted, n + 2) == names(dotted, n));
}

} // verus!
