//! Character-level text handling: whitespace, trimming, splitting and
//! comparisons, stated over `Seq<char>` and carried out on `Vec<char>`.
use vstd::prelude::*;

verus! {

/// The Unicode `White_Space` property, the set of characters that
/// `char::is_whitespace` accepts and that `str::trim` removes.
pub open spec fn is_ws(c: char) -> bool {
    let n = c as u32;
    ||| 0x9 <= n <= 0xd
    ||| n == 0x20
    ||| n == 0x85
    ||| n == 0xa0
    ||| n == 0x1680
    ||| 0x2000 <= n <= 0x200a
    ||| n == 0x2028
    ||| n == 0x2029
    ||| n == 0x202f
    ||| n == 0x205f
    ||| n == 0x3000
}

/// `s` without its leading whitespace.
pub open spec fn trim_start(s: Seq<char>) -> Seq<char>
    decreases s.len(),
{
    if s.len() > 0 && is_ws(s[0]) {
        trim_start(s.drop_first())
    } else {
        s
    }
}

/// `s` without its trailing whitespace.
pub open spec fn trim_end(s: Seq<char>) -> Seq<char>
    decreases s.len(),
{
    if s.len() > 0 && is_ws(s.last()) {
        trim_end(s.drop_last())
    } else {
        s
    }
}

/// `s` without leading and trailing whitespace.
pub open spec fn trim(s: Seq<char>) -> Seq<char> {
    trim_end(trim_start(s))
}

/// The pieces of `s` between the characters that satisfy `p`, in order; empty
/// pieces included, so that there is always one piece more than separators.
pub open spec fn split_by(s: Seq<char>, p: spec_fn(char) -> bool) -> Seq<Seq<char>>
    decreases s.len(),
{
    if s.len() == 0 {
        seq![Seq::<char>::empty()]
    } else {
        let r = split_by(s.drop_last(), p);
        if p(s.last()) {
            r.push(Seq::<char>::empty())
        } else {
            r.update(r.len() - 1, r.last().push(s.last()))
        }
    }
}

/// The separator predicate that a `Sep` stands for.
pub open spec fn sep_pred(sep: Sep) -> spec_fn(char) -> bool {
    match sep {
        Sep::Char(c) => |x: char| x == c,
        Sep::Whitespace => |x: char| is_ws(x),
    }
}

/// The pieces that are not empty.
pub open spec fn non_empty(pieces: Seq<Seq<char>>) -> Seq<Seq<char>> {
    pieces.filter(|x: Seq<char>| x.len() > 0)
}

/// What `str::split_whitespace` gives: the non-empty pieces between whitespace.
pub open spec fn words(s: Seq<char>) -> Seq<Seq<char>> {
    non_empty(split_by(s, |x: char| is_ws(x)))
}

/// The pieces between commas, each trimmed, the empty ones left out.
pub open spec fn comma_list(s: Seq<char>) -> Seq<Seq<char>> {
    non_empty(split_by(s, |x: char| x == ',').map_values(|x: Seq<char>| trim(x)))
}

/// How a text is cut into pieces.
#[derive(Clone, Copy)]
pub enum Sep {
    /// At each occurrence of one character.
    Char(char),
    /// At each whitespace character.
    Whitespace,
}

/// The views of a list of strings.
pub open spec fn views(v: Seq<String>) -> Seq<Seq<char>> {
    v.map_values(|s: String| s@)
}

/// Whether `c` has the Unicode `White_Space` property.
pub(crate) fn is_whitespace(c: char) -> (r: bool)
    ensures
        r == is_ws(c),
{
    let n = c as u32;
    (0x9 <= n && n <= 0xd) || n == 0x20 || n == 0x85 || n == 0xa0 || n == 0x1680 || (0x2000 <= n
        && n <= 0x200a) || n == 0x2028 || n == 0x2029 || n == 0x202f || n == 0x205f || n == 0x3000
}

/// Whether `c` falls under the separator `sep`.
pub(crate) fn is_sep(c: char, sep: Sep) -> (r: bool)
    ensures
        r == (sep_pred(sep))(c),
{
    match sep {
        Sep::Char(d) => c == d,
        Sep::Whitespace => is_whitespace(c),
    }
}

/// The characters of `s`, in order.
pub(crate) fn chars_of(s: &str) -> (v: Vec<char>)
    ensures
        v@ == s@,
{
    broadcast use vstd::string::group_string_axioms;
    let mut v: Vec<char> = Vec::new();
    for c in it: s.chars()
        invariant
            v@ == it.seq().take(it.index() as int),
    {
        v.push(c);
    }
    v
}

/// The bounds of the trimmed part of `v[lo..hi]`.
pub(crate) fn trim_range(v: &Vec<char>, lo: usize, hi: usize) -> (r: (usize, usize))
    requires
        lo <= hi <= v@.len(),
    ensures
        lo <= r.0 <= r.1 <= hi,
        v@.subrange(r.0 as int, r.1 as int) == trim(v@.subrange(lo as int, hi as int)),
{
    let mut a = lo;
    while a < hi && is_whitespace(v[a])
        invariant
            lo <= a <= hi <= v@.len(),
            trim_start(v@.subrange(lo as int, hi as int)) == trim_start(
                v@.subrange(a as int, hi as int),
            ),
        decreases hi - a,
    {
        assert(v@.subrange(a as int, hi as int).drop_first() =~= v@.subrange(
            a + 1,
            hi as int,
        ));
        a = a + 1;
    }
    assert(trim_start(v@.subrange(a as int, hi as int)) == v@.subrange(a as int, hi as int));
    let mut b = hi;
    while b > a && is_whitespace(v[b - 1])
        invariant
            lo <= a <= b <= hi <= v@.len(),
            trim_end(v@.subrange(a as int, hi as int)) == trim_end(
                v@.subrange(a as int, b as int),
            ),
        decreases b - a,
    {
        assert(v@.subrange(a as int, b as int).drop_last() =~= v@.subrange(
            a as int,
            b - 1,
        ));
        b = b - 1;
    }
    (a, b)
}

/// The texts of the ranges `rs` in `v`.
pub open spec fn range_texts(v: Seq<char>, rs: Seq<(usize, usize)>) -> Seq<Seq<char>> {
    Seq::new(rs.len(), |k: int| v.subrange(rs[k].0 as int, rs[k].1 as int))
}

/// The ranges of the pieces of `v[lo..hi]` cut at `sep`, empty pieces included.
pub(crate) fn split_ranges(v: &Vec<char>, lo: usize, hi: usize, sep: Sep) -> (rs: Vec<(usize, usize)>)
    requires
        lo <= hi <= v@.len(),
    ensures
        forall|k: int| 0 <= k < rs@.len() ==> lo <= #[trigger] rs@[k].0 <= rs@[k].1 <= hi,
        range_texts(v@, rs@) == split_by(v@.subrange(lo as int, hi as int), sep_pred(sep)),
{
    let ghost p = sep_pred(sep);
    let mut rs: Vec<(usize, usize)> = Vec::new();
    let mut start = lo;
    let mut i = lo;
    assert(v@.subrange(lo as int, lo as int) =~= Seq::<char>::empty());
    assert(range_texts(v@, rs@).push(v@.subrange(start as int, i as int)) =~= split_by(
        v@.subrange(lo as int, i as int),
        p,
    ));
    while i < hi
        invariant
            lo <= start <= i <= hi <= v@.len(),
            p == sep_pred(sep),
            forall|k: int| 0 <= k < rs@.len() ==> lo <= #[trigger] rs@[k].0 <= rs@[k].1 <= start,
            range_texts(v@, rs@).push(v@.subrange(start as int, i as int)) == split_by(
                v@.subrange(lo as int, i as int),
                p,
            ),
        decreases hi - i,
    {
        let ghost old_rs = rs@;
        let ghost t = v@.subrange(lo as int, i + 1);
        assert(t.drop_last() =~= v@.subrange(lo as int, i as int));
        assert(t.last() == v@[i as int]);
        if is_sep(v[i], sep) {
            rs.push((start, i));
            assert(range_texts(v@, rs@) =~= range_texts(v@, old_rs).push(
                v@.subrange(start as int, i as int),
            ));
            start = i + 1;
            i = i + 1;
            assert(v@.subrange(start as int, i as int) =~= Seq::<char>::empty());
        } else {
            assert(v@.subrange(start as int, i + 1) =~= v@.subrange(start as int, i as int).push(
                v@[i as int],
            ));
            i = i + 1;
            assert(range_texts(v@, rs@).push(v@.subrange(start as int, i as int)) =~= split_by(
                v@.subrange(lo as int, i as int),
                p,
            ));
        }
    }
    rs.push((start, hi));
    assert(range_texts(v@, rs@) =~= split_by(v@.subrange(lo as int, hi as int), p));
    rs
}

/// Whether `v[lo..hi]` is exactly the text `lit`.
pub(crate) fn range_is(v: &Vec<char>, lo: usize, hi: usize, lit: &str) -> (r: bool)
    requires
        lo <= hi <= v@.len(),
    ensures
        r == (v@.subrange(lo as int, hi as int) == lit@),
{
    let n = lit.unicode_len();
    if hi - lo != n {
        proof {
            if v@.subrange(lo as int, hi as int) == lit@ {
                assert(false);
            }
        }
        return false;
    }
    let mut i: usize = 0;
    while i < n
        invariant
            n == lit@.len(),
            hi - lo == n,
            lo <= hi <= v@.len(),
            i <= n,
            forall|k: int| 0 <= k < i ==> v@[lo + k] == lit@[k],
        decreases n - i,
    {
        if v[lo + i] != lit.get_char(i) {
            proof {
                assert(v@.subrange(lo as int, hi as int)[i as int] != lit@[i as int]);
            }
            return false;
        }
        i = i + 1;
    }
    assert(v@.subrange(lo as int, hi as int) =~= lit@);
    true
}

/// Whether two texts are equal.
pub(crate) fn text_eq(a: &str, b: &str) -> (r: bool)
    ensures
        r == (a@ == b@),
{
    let v = chars_of(a);
    assert(v@.subrange(0, v@.len() as int) =~= v@);
    range_is(&v, 0, v.len(), b)
}

/// A new string holding the characters `lo..hi` of `s`.
pub(crate) fn text_of(s: &str, lo: usize, hi: usize) -> (r: String)
    requires
        lo <= hi <= s@.len(),
    ensures
        r@ == s@.subrange(lo as int, hi as int),
{
    String::from_str(s.substring_char(lo, hi))
}

/// A new string holding `a` followed by `b`.
pub(crate) fn concat2(a: &str, b: &str) -> (r: String)
    ensures
        r@ == a@ + b@,
{
    let mut r = String::from_str(a);
    r.append(b);
    r
}

/// A new string holding `a`, `b` and `c` in turn.
pub(crate) fn concat3(a: &str, b: &str, c: &str) -> (r: String)
    ensures
        r@ == a@ + b@ + c@,
{
    let mut r = String::from_str(a);
    r.append(b);
    r.append(c);
    r
}

/// A new string holding `a`, `b`, `c` and `d` in turn.
pub(crate) fn concat4(a: &str, b: &str, c: &str, d: &str) -> (r: String)
    ensures
        r@ == a@ + b@ + c@ + d@,
{
    let mut r = String::from_str(a);
    r.append(b);
    r.append(c);
    r.append(d);
    r
}

/// A copy of `s`.
pub(crate) fn copy_string(s: &String) -> (r: String)
    ensures
        r@ == s@,
{
    String::from_str(s.as_str())
}

/// Copies of the strings of `v`, in order.
pub(crate) fn copy_strings(v: &Vec<String>) -> (r: Vec<String>)
    ensures
        views(r@) == views(v@),
{
    let mut r: Vec<String> = Vec::new();
    let mut i: usize = 0;
    while i < v.len()
        invariant
            i <= v@.len(),
            views(r@) == views(v@).take(i as int),
        decreases v@.len() - i,
    {
        let c = copy_string(&v[i]);
        let ghost old_r = r@;
        r.push(c);
        assert(views(r@) =~= views(old_r).push(v@[i as int]@));
        i = i + 1;
        assert(views(r@) =~= views(v@).take(i as int));
    }
    assert(views(v@).take(v@.len() as int) =~= views(v@));
    r
}

/// The non-empty pieces of `s` cut at `sep`, each trimmed first when `trim_each`.
pub(crate) fn split_text(s: &str, sep: Sep, trim_each: bool) -> (r: Vec<String>)
    ensures
        views(r@) == non_empty(
            if trim_each {
                split_by(s@, sep_pred(sep)).map_values(|x: Seq<char>| trim(x))
            } else {
                split_by(s@, sep_pred(sep))
            },
        ),
{
    let v = chars_of(s);
    let rs = split_ranges(&v, 0, v.len(), sep);
    assert(v@.subrange(0, v@.len() as int) =~= v@);
    let ghost pieces = if trim_each {
        split_by(s@, sep_pred(sep)).map_values(|x: Seq<char>| trim(x))
    } else {
        split_by(s@, sep_pred(sep))
    };
    let ghost keep = |x: Seq<char>| x.len() > 0;
    assert forall|j: int| 0 <= j < rs@.len() implies #[trigger] pieces[j] == (if trim_each {
        trim(v@.subrange(rs@[j].0 as int, rs@[j].1 as int))
    } else {
        v@.subrange(rs@[j].0 as int, rs@[j].1 as int)
    }) by {
        assert(range_texts(v@, rs@)[j] == v@.subrange(rs@[j].0 as int, rs@[j].1 as int));
    }
    let mut r: Vec<String> = Vec::new();
    let mut k: usize = 0;
    while k < rs.len()
        invariant
            v@ == s@,
            k <= rs@.len(),
            rs@.len() == pieces.len(),
            forall|j: int| 0 <= j < rs@.len() ==> 0 <= #[trigger] rs@[j].0 <= rs@[j].1 <= v@.len(),
            forall|j: int|
                0 <= j < rs@.len() ==> #[trigger] pieces[j] == (if trim_each {
                    trim(v@.subrange(rs@[j].0 as int, rs@[j].1 as int))
                } else {
                    v@.subrange(rs@[j].0 as int, rs@[j].1 as int)
                }),
            keep == (|x: Seq<char>| x.len() > 0),
            views(r@) == pieces.take(k as int).filter(keep),
        decreases rs@.len() - k,
    {
        reveal_with_fuel(Seq::<_>::filter, 1);
        let (a0, b0) = rs[k];
        let (a, b) = if trim_each {
            trim_range(&v, a0, b0)
        } else {
            (a0, b0)
        };
        assert(v@.subrange(a as int, b as int) == pieces[k as int]);
        assert(pieces.take(k + 1).drop_last() =~= pieces.take(k as int));
        if a < b {
            let t = text_of(s, a, b);
            r.push(t);
            assert(views(r@) =~= pieces.take(k as int).filter(keep).push(t@));
        }
        k = k + 1;
    }
    assert(pieces.take(rs@.len() as int) =~= pieces);
    r
}

/// Every piece list that `split_by` gives has at least one piece.
pub proof fn lemma_split_by_nonempty(s: Seq<char>, p: spec_fn(char) -> bool)
    ensures
        split_by(s, p).len() >= 1,
    decreases s.len(),
{
    if s.len() > 0 {
        lemma_split_by_nonempty(s.drop_last(), p);
    }
}

/// A text without separators is a single piece.
pub proof fn lemma_split_by_no_sep(s: Seq<char>, p: spec_fn(char) -> bool)
    requires
        forall|i: int| 0 <= i < s.len() ==> !p(#[trigger] s[i]),
    ensures
        split_by(s, p) == seq![s],
    decreases s.len(),
{
    if s.len() > 0 {
        lemma_split_by_no_sep(s.drop_last(), p);
        assert(s.drop_last().push(s.last()) =~= s);
        assert(split_by(s, p) =~= seq![s]);
    } else {
        assert(s =~= Seq::<char>::empty());
    }
}

/// Cutting `a`, a separator and `b` gives the pieces of `a` followed by those of `b`.
pub proof fn lemma_split_by_concat(a: Seq<char>, c: char, b: Seq<char>, p: spec_fn(char) -> bool)
    requires
        p(c),
    ensures
        split_by(a + seq![c] + b, p) == split_by(a, p) + split_by(b, p),
    decreases b.len(),
{
    let s = a + seq![c] + b;
    if b.len() == 0 {
        assert(s.drop_last() =~= a);
        assert(split_by(s, p) =~= split_by(a, p) + split_by(b, p));
    } else {
        assert(s.drop_last() =~= a + seq![c] + b.drop_last());
        lemma_split_by_concat(a, c, b.drop_last(), p);
        lemma_split_by_nonempty(b.drop_last(), p);
        lemma_split_by_nonempty(a, p);
        assert(split_by(s, p) =~= split_by(a, p) + split_by(b, p));
    }
}

/// No piece of `s` cut at `p` holds a character that `p` cuts at.
pub proof fn lemma_split_by_pieces_free(s: Seq<char>, p: spec_fn(char) -> bool)
    ensures
        forall|k: int, j: int|
            0 <= k < split_by(s, p).len() && 0 <= j < split_by(s, p)[k].len() ==> !p(
                #[trigger] split_by(s, p)[k][j],
            ),
    decreases s.len(),
{
    if s.len() > 0 {
        lemma_split_by_pieces_free(s.drop_last(), p);
        lemma_split_by_nonempty(s.drop_last(), p);
        let r = split_by(s.drop_last(), p);
        if !p(s.last()) {
            let t = split_by(s, p);
            assert forall|k: int, j: int| 0 <= k < t.len() && 0 <= j < t[k].len() implies !p(
                #[trigger] t[k][j],
            ) by {
                if k == r.len() - 1 {
                    if j < r.last().len() {
                        assert(t[k][j] == r[k][j]);
                    }
                } else {
                    assert(t[k] == r[k]);
                }
            }
        } else {
            let t = split_by(s, p);
            assert forall|k: int, j: int| 0 <= k < t.len() && 0 <= j < t[k].len() implies !p(
                #[trigger] t[k][j],
            ) by {
                assert(t[k] == r[k]);
            }
        }
    }
}

/// Every word of `s` is non-empty and holds no whitespace.
pub proof fn lemma_words_hold_no_whitespace(s: Seq<char>)
    ensures
        forall|i: int| 0 <= i < words(s).len() ==> #[trigger] words(s)[i].len() > 0,
        forall|i: int, j: int|
            0 <= i < words(s).len() && 0 <= j < words(s)[i].len() ==> !is_ws(#[trigger] words(s)[i][j]),
{
    let p = |x: char| is_ws(x);
    let keep = |x: Seq<char>| x.len() > 0;
    let pieces = split_by(s, p);
    lemma_split_by_pieces_free(s, p);
    assert forall|i: int| 0 <= i < words(s).len() implies #[trigger] words(s)[i].len() > 0 by {
        pieces.lemma_filter_pred(keep, i);
    }
    assert forall|i: int, j: int|
        0 <= i < words(s).len() && 0 <= j < words(s)[i].len() implies !is_ws(#[trigger] words(s)[i][j]) by {
        let x = words(s)[i];
        assert(pieces.filter(keep).contains(x));
        pieces.lemma_filter_contains_rev(keep, x);
        let k = choose|k: int| 0 <= k < pieces.len() && pieces[k] == x;
        assert(!p(pieces[k][j]));
    }
}

} // verus!
