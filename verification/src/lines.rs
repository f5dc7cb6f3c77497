//! Byte-level line handling shared by schema inference and the parser:
//! splitting on `\n`, ASCII trimming and the UTF-8 byte-order mark.
use vstd::prelude::*;
use crate::chunk::{is_snap_point, no_newline_in, snap_to_newline, NEWLINE};

verus! {

/// Index of the first `\n` in `d`.
pub open spec fn first_newline(d: Seq<u8>) -> Option<nat>
    decreases d.len(),
{
    if d.len() == 0 {
        None
    } else if d[0] == NEWLINE {
        Some(0)
    } else {
        match first_newline(d.drop_first()) {
            Some(i) => Some(i + 1),
            None => None,
        }
    }
}

/// The pieces of `d` between `\n` bytes, as `<[u8]>::split` yields them: one
/// more piece than there are newlines, the last one possibly empty.
pub open spec fn split_lines(d: Seq<u8>) -> Seq<Seq<u8>>
    decreases d.len(),
{
    match first_newline(d) {
        Some(i) => if i < d.len() {
            seq![d.take(i as int)] + split_lines(d.skip(i + 1 as int))
        } else {
            seq![d]
        },
        None => seq![d],
    }
}

/// `u8::is_ascii_whitespace`: space, tab, line feed, form feed, carriage return.
pub open spec fn is_ascii_ws(b: u8) -> bool {
    b == 32 || b == 9 || b == 10 || b == 12 || b == 13
}

pub open spec fn trim_start(s: Seq<u8>) -> Seq<u8>
    decreases s.len(),
{
    if s.len() > 0 && is_ascii_ws(s[0]) {
        trim_start(s.drop_first())
    } else {
        s
    }
}

pub open spec fn trim_end(s: Seq<u8>) -> Seq<u8>
    decreases s.len(),
{
    if s.len() > 0 && is_ascii_ws(s.last()) {
        trim_end(s.drop_last())
    } else {
        s
    }
}

/// `<[u8]>::trim_ascii`: leading, then trailing ASCII whitespace removed.
pub open spec fn trim_ascii_spec(s: Seq<u8>) -> Seq<u8> {
    trim_end(trim_start(s))
}

/// The UTF-8 byte-order mark `EF BB BF`.
pub open spec fn has_bom(d: Seq<u8>) -> bool {
    d.len() >= 3 && d[0] == 0xEFu8 && d[1] == 0xBBu8 && d[2] == 0xBFu8
}

pub open spec fn strip_bom_spec(d: Seq<u8>) -> Seq<u8> {
    if has_bom(d) {
        d.skip(3)
    } else {
        d
    }
}

proof fn lemma_first_newline(d: Seq<u8>)
    ensures
        match first_newline(d) {
            Some(i) => i < d.len() && d[i as int] == NEWLINE && no_newline_in(d, 0, i as int),
            None => no_newline_in(d, 0, d.len() as int),
        },
    decreases d.len(),
{
    if d.len() > 0 && d[0] != NEWLINE {
        lemma_first_newline(d.drop_first());
        assert forall|j: int| 1 <= j < d.len() implies d[j] == d.drop_first()[j - 1] by {}
    }
}

proof fn lemma_first_newline_is(d: Seq<u8>, i: int)
    requires
        0 <= i < d.len(),
        d[i] == NEWLINE,
        no_newline_in(d, 0, i),
    ensures
        first_newline(d) == Some(i as nat),
{
    lemma_first_newline(d);
    match first_newline(d) {
        Some(k) => {
            if k < i {
                assert(d[k as int] != NEWLINE);
            } else if k > i {
                assert(d[i] != NEWLINE);
            }
        },
        None => {
            assert(d[i] != NEWLINE);
        },
    }
}

/// Splitting text that ends with `\n` and then more: the pieces of the
/// first part (its last, empty piece left out) followed by those of the rest.
pub proof fn lemma_split_lines_concat(s: Seq<u8>, t: Seq<u8>)
    requires
        s.len() > 0,
        s.last() == NEWLINE,
    ensures
        split_lines(s).len() > 0,
        split_lines(s).last() == Seq::<u8>::empty(),
        split_lines(s + t) == split_lines(s).drop_last() + split_lines(t),
    decreases s.len(),
{
    lemma_first_newline(s);
    let i = first_newline(s)->0 as int;
    let st = s + t;
    assert forall|j: int| 0 <= j < i implies st[j] != NEWLINE by {
        assert(st[j] == s[j]);
    }
    lemma_first_newline_is(st, i);
    assert(st.take(i) =~= s.take(i));
    let rest = s.skip(i + 1);
    assert(st.skip(i + 1) =~= rest + t);
    if i == s.len() - 1 {
        assert(rest =~= Seq::<u8>::empty());
        assert(rest + t =~= t);
        assert(first_newline(rest) is None);
        assert(split_lines(rest) == seq![rest]);
        assert(split_lines(s) == seq![s.take(i)] + split_lines(rest));
        assert(split_lines(s + t) == seq![s.take(i)] + split_lines(rest + t));
        assert(split_lines(s).drop_last() =~= seq![s.take(i)]);
    } else {
        assert(rest.last() == s.last());
        lemma_split_lines_concat(rest, t);
        assert(split_lines(s) == seq![s.take(i)] + split_lines(rest));
        assert(split_lines(s).drop_last() =~= seq![s.take(i)] + split_lines(rest).drop_last());
        assert(split_lines(s + t) == seq![s.take(i)] + split_lines(rest + t));
    }
}

/// Strip a UTF-8 BOM (`EF BB BF`) if present.
pub fn strip_bom(data: &[u8]) -> (res: &[u8])
    ensures
        res@ == strip_bom_spec(data@),
{
    if data.len() >= 3 && data[0] == 0xEFu8 && data[1] == 0xBBu8 && data[2] == 0xBFu8 {
        &data[3..data.len()]
    } else {
        data
    }
}

/// `<[u8]>::trim_ascii`.
pub fn trim_ascii(s: &[u8]) -> (res: &[u8])
    ensures
        res@ == trim_ascii_spec(s@),
{
    let mut a: usize = 0;
    assert(s@.skip(0) =~= s@);
    while a < s.len() && (s[a] == 32 || s[a] == 9 || s[a] == 10 || s[a] == 12 || s[a] == 13)
        invariant
            a <= s@.len(),
            trim_start(s@) == trim_start(s@.skip(a as int)),
        decreases s@.len() - a,
    {
        proof {
            assert(s@.skip(a as int).drop_first() =~= s@.skip(a + 1));
        }
        a += 1;
    }
    let ghost t = s@.skip(a as int);
    assert(trim_start(t) == t);
    let mut b: usize = s.len();
    proof {
        assert(s@.subrange(a as int, b as int) =~= t);
    }
    while b > a && (s[b - 1] == 32 || s[b - 1] == 9 || s[b - 1] == 10 || s[b - 1] == 12 || s[b
        - 1] == 13)
        invariant
            a <= b <= s@.len(),
            trim_end(t) == trim_end(s@.subrange(a as int, b as int)),
            t == s@.skip(a as int),
        decreases b,
    {
        proof {
            assert(s@.subrange(a as int, b as int).drop_last() =~= s@.subrange(a as int, b - 1));
        }
        b -= 1;
    }
    &s[a..b]
}

/// A cursor over the `\n`-separated pieces of a byte buffer.
/// Returns the piece that starts at `start` and the offset just past its `\n`
/// (`None` when the piece is the last one).
pub fn next_line<'a>(data: &'a [u8], start: usize) -> (res: (&'a [u8], Option<usize>))
    requires
        start <= data@.len(),
    ensures
        split_lines(data@.skip(start as int)) == seq![res.0@] + match res.1 {
            Some(n) => split_lines(data@.skip(n as int)),
            None => Seq::empty(),
        },
        match res.1 {
            Some(n) => start < n <= data@.len(),
            None => true,
        },
{
    let e = snap_to_newline(data, start);
    let ghost d = data@.skip(start as int);
    if e > start && data[e - 1] == NEWLINE {
        let piece = &data[start..e - 1];
        proof {
            assert forall|j: int| 0 <= j < e - 1 - start implies d[j] != NEWLINE by {
                assert(d[j] == data@[start + j]);
            }
            lemma_first_newline_is(d, e - 1 - start);
            assert(d.take(e - 1 - start) =~= piece@);
            assert(d.skip(e - start) =~= data@.skip(e as int));
        }
        (piece, Some(e))
    } else {
        let piece = &data[start..data.len()];
        proof {
            assert(piece@ =~= d);
            lemma_first_newline(d);
            if let Some(i) = first_newline(d) {
                assert(d[i as int] == data@[start + i]);
                assert(false);
            }
        }
        (piece, None)
    }
}

} // verus!
