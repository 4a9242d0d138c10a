//! JSON path expressions such as `users[0].name`: dot-separated keys, each
//! optionally followed by bracketed array indices.

use vstd::prelude::*;

use crate::text::{
    chars_of, decimal, find_char, index_of, lemma_index_of, lemma_index_of_append,
    string_from_range,
};

verus! {

/// One step of a JSON path: an object key or an array index.
#[derive(Debug, PartialEq)]
pub enum PathSegment {
    Key(String),
    Index(usize),
}

/// A path step with its key seen as a character sequence.
pub enum SegmentView {
    Key(Seq<char>),
    Index(usize),
}

impl View for PathSegment {
    type V = SegmentView;

    open spec fn view(&self) -> SegmentView {
        match self {
            PathSegment::Key(k) => SegmentView::Key(k@),
            PathSegment::Index(i) => SegmentView::Index(*i),
        }
    }
}

/// The views of a sequence of path steps.
pub open spec fn segment_views(v: Seq<PathSegment>) -> Seq<SegmentView> {
    v.map_values(|s: PathSegment| s@)
}

/// Joins two partial results: both must exist.
pub open spec fn join_parts(a: Option<Seq<SegmentView>>, b: Option<Seq<SegmentView>>) -> Option<
    Seq<SegmentView>,
> {
    match (a, b) {
        (Some(x), Some(y)) => Some(x + y),
        _ => None,
    }
}

/// Whether `c` is an ASCII decimal digit.
pub open spec fn is_digit(c: char) -> bool {
    '0' <= c && c <= '9'
}

/// The number written by the decimal digits `d` (most significant first).
pub open spec fn digits_value(d: Seq<char>) -> nat
    decreases d.len(),
{
    if d.len() == 0 {
        0
    } else {
        digits_value(d.drop_last()) * 10 + ((d.last() as int - 48) as nat)
    }
}

/// Whether every character of `d` is a decimal digit.
pub open spec fn all_digits(d: Seq<char>) -> bool {
    forall|i: int| 0 <= i < d.len() ==> is_digit(#[trigger] d[i])
}

/// What `str::parse::<usize>` accepts: an optional `+`, then one or more
/// decimal digits whose value fits in a `usize`.
pub open spec fn parse_index(s: Seq<char>) -> Option<usize> {
    let d = if s.len() > 0 && s[0] == '+' {
        s.drop_first()
    } else {
        s
    };
    if d.len() > 0 && all_digits(d) && digits_value(d) <= usize::MAX {
        Some(digits_value(d) as usize)
    } else {
        None
    }
}

/// The indices written in brackets in `r`, read group by group: find the
/// first `[` and the first `]`; stop when either is missing; the path is
/// unreadable (`None`) when that `]` comes before that `[`; keep the index
/// when the text between them parses as a `usize`, skip it otherwise; go
/// on after the `]`.
pub open spec fn bracket_indices(r: Seq<char>) -> Option<Seq<SegmentView>>
    decreases r.len(),
{
    match (index_of(r, '['), index_of(r, ']')) {
        (Some(s), Some(e)) => {
            if e < s {
                None
            } else {
                proof {
                    lemma_index_of(r, ']');
                }
                match bracket_indices(r.skip(e + 1)) {
                    Some(rest) => Some(
                        match parse_index(r.subrange(s + 1, e)) {
                            Some(n) => seq![SegmentView::Index(n)] + rest,
                            None => rest,
                        },
                    ),
                    None => None,
                }
            }
        },
        _ => Some(Seq::empty()),
    }
}

/// The steps of one dot-separated part: nothing for an empty part; the part
/// as a key when it has no `[`; otherwise the text before the first `[` as
/// a key (when not empty) followed by the bracketed indices.
pub open spec fn part_segments(p: Seq<char>) -> Option<Seq<SegmentView>> {
    if p.len() == 0 {
        Some(Seq::empty())
    } else {
        match index_of(p, '[') {
            None => Some(seq![SegmentView::Key(p)]),
            Some(b) => {
                let key: Seq<SegmentView> = if b == 0 {
                    Seq::empty()
                } else {
                    seq![SegmentView::Key(p.take(b))]
                };
                join_parts(Some(key), bracket_indices(p.skip(b)))
            },
        }
    }
}

/// The steps of a whole path: the steps of each part between dots, in
/// order; `None` when some part is unreadable.
pub open spec fn path_segments(s: Seq<char>) -> Option<Seq<SegmentView>>
    decreases s.len(),
{
    match index_of(s, '.') {
        None => part_segments(s),
        Some(i) => {
            proof {
                lemma_index_of(s, '.');
            }
            join_parts(part_segments(s.take(i)), path_segments(s.skip(i + 1)))
        },
    }
}

/// `digits_value` of a prefix never exceeds that of the whole.
proof fn lemma_digits_value_prefix(d: Seq<char>, k: int)
    requires
        0 <= k <= d.len(),
    ensures
        digits_value(d.take(k)) <= digits_value(d),
    decreases d.len(),
{
    if k < d.len() {
        lemma_digits_value_prefix(d.drop_last(), k);
        assert(d.drop_last().take(k) == d.take(k));
    } else {
        assert(d.take(k) == d);
    }
}

/// Parse `cs[from..to]` as `str::parse::<usize>` does.
fn parse_index_in(cs: &Vec<char>, from: usize, to: usize) -> (r: Option<usize>)
    requires
        from <= to <= cs@.len(),
    ensures
        r == parse_index(cs@.subrange(from as int, to as int)),
{
    let ghost s = cs@.subrange(from as int, to as int);
    let mut start = from;
    if from < to && cs[from] == '+' {
        start = from + 1;
    }
    let ghost d = cs@.subrange(start as int, to as int);
    assert(d == (if s.len() > 0 && s[0] == '+' {
        s.drop_first()
    } else {
        s
    }));
    if start == to {
        return None;
    }
    let mut acc: usize = 0;
    let mut k = start;
    assert(d.take(0) =~= Seq::<char>::empty());
    while k < to
        invariant
            start <= k <= to <= cs@.len(),
            s == cs@.subrange(from as int, to as int),
            d == cs@.subrange(start as int, to as int),
            d == (if s.len() > 0 && s[0] == '+' {
                s.drop_first()
            } else {
                s
            }),
            forall|i: int| start <= i < k ==> is_digit(#[trigger] cs@[i]),
            acc == digits_value(d.take(k - start)),
        decreases to - k,
    {
        let c = cs[k];
        if !('0' <= c && c <= '9') {
            assert(!is_digit(d[k - start]));
            return None;
        }
        let digit = (c as u32 - 48) as usize;
        assert(d.take(k - start + 1).drop_last() == d.take(k - start));
        assert(d.take(k - start + 1).last() == c);
        match acc.checked_mul(10) {
            None => {
                proof {
                    lemma_digits_value_prefix(d, k - start + 1);
                }
                return None;
            },
            Some(m) => match m.checked_add(digit) {
                None => {
                    proof {
                        lemma_digits_value_prefix(d, k - start + 1);
                    }
                    return None;
                },
                Some(v) => {
                    acc = v;
                },
            },
        }
        k += 1;
    }
    assert(d.take(to - start) == d);
    assert forall|i: int| 0 <= i < d.len() implies is_digit(#[trigger] d[i]) by {
        assert(d[i] == cs@[start + i]);
    }
    Some(acc)
}

/// The bracketed indices in `cs[from..to]`.
fn bracket_indices_in(cs: &Vec<char>, from: usize, to: usize) -> (r: Option<Vec<PathSegment>>)
    requires
        from <= to <= cs@.len(),
    ensures
        match r {
            Some(v) => bracket_indices(cs@.subrange(from as int, to as int)) == Some(
                segment_views(v@),
            ),
            None => bracket_indices(cs@.subrange(from as int, to as int)) is None,
        },
{
    let mut out: Vec<PathSegment> = Vec::new();
    let mut pos = from;
    loop
        invariant
            from <= pos <= to <= cs@.len(),
            bracket_indices(cs@.subrange(from as int, to as int)) == join_parts(
                Some(segment_views(out@)),
                bracket_indices(cs@.subrange(pos as int, to as int)),
            ),
        decreases to - pos,
    {
        let ghost r = cs@.subrange(pos as int, to as int);
        let open = find_char(cs, pos, to, '[');
        let close = find_char(cs, pos, to, ']');
        match (open, close) {
            (Some(s), Some(e)) => {
                if e < s {
                    return None;
                }
                proof {
                    lemma_index_of(r, ']');
                    lemma_index_of(r, '[');
                }
                let idx = parse_index_in(cs, s + 1, e);
                let ghost old_out = out@;
                assert(r.subrange(s - pos + 1, e - pos) == cs@.subrange(s + 1, e as int));
                assert(r.skip(e - pos + 1) == cs@.subrange(e + 1, to as int));
                match idx {
                    Some(n) => {
                        out.push(PathSegment::Index(n));
                        assert(segment_views(out@) == segment_views(old_out) + seq![
                            SegmentView::Index(n),
                        ]);
                    },
                    None => {},
                }
                pos = e + 1;
            },
            _ => {
                assert(segment_views(out@) + Seq::<SegmentView>::empty() == segment_views(out@));
                return Some(out);
            },
        }
    }
}

/// The steps of the dot-separated part `cs[from..to]`.
fn part_segments_in(cs: &Vec<char>, from: usize, to: usize) -> (r: Option<Vec<PathSegment>>)
    requires
        from <= to <= cs@.len(),
    ensures
        match r {
            Some(v) => part_segments(cs@.subrange(from as int, to as int)) == Some(
                segment_views(v@),
            ),
            None => part_segments(cs@.subrange(from as int, to as int)) is None,
        },
{
    let ghost p = cs@.subrange(from as int, to as int);
    let mut out: Vec<PathSegment> = Vec::new();
    if from == to {
        assert(segment_views(out@) =~= Seq::<SegmentView>::empty());
        return Some(out);
    }
    match find_char(cs, from, to, '[') {
        None => {
            out.push(PathSegment::Key(string_from_range(cs, from, to)));
            assert(segment_views(out@) =~= seq![SegmentView::Key(p)]);
            Some(out)
        },
        Some(b) => {
            proof {
                lemma_index_of(p, '[');
            }
            if b > from {
                out.push(PathSegment::Key(string_from_range(cs, from, b)));
            }
            assert(p.take(b - from) == cs@.subrange(from as int, b as int));
            assert(p.skip(b - from) == cs@.subrange(b as int, to as int));
            let ghost key = segment_views(out@);
            assert(key =~= (if b == from {
                Seq::<SegmentView>::empty()
            } else {
                seq![SegmentView::Key(p.take(b - from))]
            }));
            match bracket_indices_in(cs, b, to) {
                Some(mut rest) => {
                    let ghost rv = rest@;
                    out.append(&mut rest);
                    assert(segment_views(out@) =~= key + segment_views(rv));
                    Some(out)
                },
                None => None,
            }
        },
    }
}

/// The steps of the path held in `cs`, or `None` when it is unreadable.
fn segments_of(cs: &Vec<char>) -> (r: Option<Vec<PathSegment>>)
    ensures
        match r {
            Some(v) => path_segments(cs@) == Some(segment_views(v@)),
            None => path_segments(cs@) is None,
        },
{
    let len = cs.len();
    let mut out: Vec<PathSegment> = Vec::new();
    let mut pos: usize = 0;
    assert(cs@.subrange(0, len as int) == cs@);
    assert(segment_views(out@) =~= Seq::<SegmentView>::empty());
    loop
        invariant
            len == cs@.len(),
            pos <= len,
            path_segments(cs@) == join_parts(
                Some(segment_views(out@)),
                path_segments(cs@.subrange(pos as int, len as int)),
            ),
        decreases len - pos,
    {
        let ghost s = cs@.subrange(pos as int, len as int);
        let dot = find_char(cs, pos, len, '.');
        let end = match dot {
            Some(d) => d,
            None => len,
        };
        proof {
            lemma_index_of(s, '.');
            if dot is Some {
                assert(s.take(end - pos) == cs@.subrange(pos as int, end as int));
                assert(s.skip(end - pos + 1) == cs@.subrange(end + 1, len as int));
            }
        }
        let part = part_segments_in(cs, pos, end);
        match part {
            None => {
                return None;
            },
            Some(mut segs) => {
                let ghost old_out = out@;
                let ghost sv = segs@;
                out.append(&mut segs);
                assert(segment_views(out@) =~= segment_views(old_out) + segment_views(sv));
                match dot {
                    None => {
                        assert(segment_views(out@) + Seq::<SegmentView>::empty()
                            == segment_views(out@));
                        return Some(out);
                    },
                    Some(d) => {
                        assert(s.take(d - pos) == cs@.subrange(pos as int, d as int));
                        assert(s.skip(d - pos + 1) == cs@.subrange(d + 1, len as int));
                        pos = d + 1;
                    },
                }
            },
        }
    }
}

/// Whether `path` can be read: no bracket group of it has its `]` before
/// its `[`. The other path functions ask for a readable path.
pub fn path_is_well_formed(path: &str) -> (r: bool)
    ensures
        r == path_segments(path@) is Some,
{
    let cs = chars_of(path);
    segments_of(&cs).is_some()
}

/// Parse a JSON path string like `"users[0].name"` into segments.
pub fn parse_path_segments(path: &str) -> (r: Vec<PathSegment>)
    requires
        path_segments(path@) is Some,
    ensures
        Some(segment_views(r@)) == path_segments(path@),
{
    let cs = chars_of(path);
    match segments_of(&cs) {
        Some(v) => v,
        None => Vec::new(),
    }
}

/// A path made of two paths joined by a dot has the steps of the first
/// followed by the steps of the second (and is accepted exactly when both
/// are).
pub proof fn lemma_path_dot_concat(p: Seq<char>, q: Seq<char>)
    ensures
        path_segments(p + seq!['.'] + q) == join_parts(path_segments(p), path_segments(q)),
    decreases p.len(),
{
    let s = p + seq!['.'] + q;
    assert(s =~= p + (seq!['.'] + q));
    lemma_index_of_append(p, seq!['.'] + q, '.');
    assert(index_of(seq!['.'] + q, '.') == Some(0int));
    lemma_index_of(p, '.');
    match index_of(p, '.') {
        None => {
            assert(s.take(p.len() as int) =~= p);
            assert(s.skip(p.len() as int + 1) =~= q);
        },
        Some(i) => {
            assert(s.take(i) =~= p.take(i));
            assert(s.skip(i + 1) =~= p.skip(i + 1) + seq!['.'] + q);
            lemma_path_dot_concat(p.skip(i + 1), q);
            let a = part_segments(p.take(i));
            let b = path_segments(p.skip(i + 1));
            let c = path_segments(q);
            if a is Some && b is Some && c is Some {
                assert(a->0 + (b->0 + c->0) =~= (a->0 + b->0) + c->0);
            }
        },
    }
}

/// An empty path has no steps.
pub proof fn lemma_empty_path()
    ensures
        path_segments(Seq::empty()) == Some(Seq::<SegmentView>::empty()),
{
}

/// A path that is a single plain key (no dot, no bracket, not empty) is
/// that one key.
pub proof fn lemma_plain_key_path(key: Seq<char>)
    requires
        key.len() > 0,
        index_of(key, '.') is None,
        index_of(key, '[') is None,
    ensures
        path_segments(key) == Some(seq![SegmentView::Key(key)]),
{
}

/// A digit character is a digit and stands for its value.
proof fn lemma_digit_char(d: nat)
    requires
        d < 10,
    ensures
        crate::text::digit_char(d) as int == 48 + d,
        is_digit(crate::text::digit_char(d)),
{
    let c = crate::text::digit_char(d);
    let b = (48 + d) as u8;
    assert(b as int == 48 + d);
    assert(c == b as char);
}

/// Where a character occurs in a one-character text.
proof fn lemma_index_of_single(x: char, c: char)
    ensures
        index_of(seq![x], c) == (if x == c { Some(0int) } else { None }),
{
    assert(seq![x].drop_first() =~= Seq::<char>::empty());
    assert(index_of(Seq::<char>::empty(), c) is None);
}

/// The decimal representation of a number is made of digits only, is not
/// empty, and reads back as that number.
pub proof fn lemma_decimal_digits(n: nat)
    ensures
        decimal(n).len() > 0,
        all_digits(decimal(n)),
        digits_value(decimal(n)) == n,
    decreases n,
{
    lemma_digit_char(n % 10);
    if n < 10 {
        assert(decimal(n) =~= seq![crate::text::digit_char(n)]);
        assert(decimal(n).drop_last() =~= Seq::<char>::empty());
        assert(digits_value(Seq::<char>::empty()) == 0);
        assert(decimal(n).last() == crate::text::digit_char(n));
        assert(digits_value(decimal(n)) == n);
    } else {
        lemma_decimal_digits(n / 10);
        let d = decimal(n);
        assert(d.drop_last() =~= decimal(n / 10));
        assert(d.last() == crate::text::digit_char(n % 10));
        assert(digits_value(d) == digits_value(decimal(n / 10)) * 10 + n % 10);
        assert((n / 10) * 10 + n % 10 == n);
        assert forall|i: int| 0 <= i < d.len() implies is_digit(#[trigger] d[i]) by {
            if i < d.len() - 1 {
                assert(d[i] == decimal(n / 10)[i]);
            }
        }
    }
}

/// Every `usize` written in decimal inside brackets is read back as that
/// index: `parse_index` accepts the decimal text of `n` and gives `n`.
pub proof fn lemma_parse_index_decimal(n: usize)
    ensures
        parse_index(decimal(n as nat)) == Some(n),
{
    lemma_decimal_digits(n as nat);
    let d = decimal(n as nat);
    assert(is_digit(d[0]));
}

/// A text of digits holds no character that is not a digit.
proof fn lemma_digits_lack(d: Seq<char>, c: char)
    requires
        all_digits(d),
        !is_digit(c),
    ensures
        index_of(d, c) is None,
{
    lemma_index_of(d, c);
    if index_of(d, c) is Some {
        let i = index_of(d, c)->0;
        assert(is_digit(d[i]));
    }
}

/// The brackets around the decimal text of `n` hold the one index `n`.
#[verifier::spinoff_prover]
proof fn lemma_bracketed_decimal(n: usize)
    ensures
        bracket_indices(seq!['['] + decimal(n as nat) + seq![']']) == Some(
            seq![SegmentView::Index(n)],
        ),
{
    let d = decimal(n as nat);
    lemma_decimal_digits(n as nat);
    lemma_parse_index_decimal(n);
    lemma_digits_lack(d, '[');
    lemma_digits_lack(d, ']');
    let br = seq!['['] + d + seq![']'];
    lemma_index_of_single('[', '[');
    lemma_index_of_single('[', ']');
    lemma_index_of_single(']', ']');
    lemma_index_of_append(seq!['['] + d, seq![']'], '[');
    lemma_index_of_append(seq!['['] + d, seq![']'], ']');
    lemma_index_of_append(seq!['['], d, ']');
    lemma_index_of_append(seq!['['], d, '[');
    assert(index_of(br, '[') == Some(0int));
    assert(index_of(br, ']') == Some(d.len() as int + 1));
    assert(br.subrange(1, d.len() as int + 1) =~= d);
    assert(br.skip(d.len() as int + 2) =~= Seq::<char>::empty());
    assert(bracket_indices(Seq::<char>::empty()) == Some(Seq::<SegmentView>::empty()));
    assert(seq![SegmentView::Index(n)] + Seq::<SegmentView>::empty() =~= seq![SegmentView::Index(n)]);
}

/// A key followed by one bracketed index written in decimal is the path of
/// that key and then that index: `"users[8]"` is `users`, then element 8.
#[verifier::spinoff_prover]
pub proof fn lemma_key_index_path(key: Seq<char>, n: usize)
    requires
        key.len() > 0,
        index_of(key, '.') is None,
        index_of(key, '[') is None,
        index_of(key, ']') is None,
    ensures
        path_segments(key + seq!['['] + decimal(n as nat) + seq![']']) == Some(
            seq![SegmentView::Key(key), SegmentView::Index(n)],
        ),
{
    let d = decimal(n as nat);
    lemma_decimal_digits(n as nat);
    lemma_bracketed_decimal(n);
    lemma_digits_lack(d, '.');
    let br = seq!['['] + d + seq![']'];
    let s = key + br;
    assert(s =~= key + seq!['['] + d + seq![']']);
    lemma_index_of_single(']', '.');
    lemma_index_of_single('[', '.');
    lemma_index_of_single('[', '[');
    lemma_index_of_append(seq!['['] + d, seq![']'], '.');
    lemma_index_of_append(seq!['['], d, '.');
    lemma_index_of_append(key, br, '.');
    assert(index_of(s, '.') is None);
    lemma_index_of_append(seq!['['] + d, seq![']'], '[');
    lemma_index_of_append(key, br, '[');
    assert(index_of(br, '[') == Some(0int));
    assert(index_of(s, '[') == Some(key.len() as int));
    assert(s.take(key.len() as int) =~= key);
    assert(s.skip(key.len() as int) =~= br);
    assert(seq![SegmentView::Key(key)] + seq![SegmentView::Index(n)] =~= seq![
        SegmentView::Key(key),
        SegmentView::Index(n),
    ]);
}

} // verus!
