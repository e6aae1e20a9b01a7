//! Character-level text model: whitespace, trimming, and splitting text into
//! lines the way the formatting pipeline consumes it.

use vstd::prelude::*;

verus! {

/// Whitespace characters recognised when trimming a line, following the
/// Unicode `White_Space` property (the set `str::trim` removes).
pub open spec fn is_ws_char(c: char) -> bool {
    c == ' ' || c == '\t' || c == '\n' || c == '\r' || c == '\u{b}' || c == '\u{c}'
        || c == '\u{85}' || c == '\u{a0}' || c == '\u{1680}' || c == '\u{2000}' || c == '\u{2001}'
        || c == '\u{2002}' || c == '\u{2003}' || c == '\u{2004}' || c == '\u{2005}'
        || c == '\u{2006}' || c == '\u{2007}' || c == '\u{2008}' || c == '\u{2009}'
        || c == '\u{200a}' || c == '\u{2028}' || c == '\u{2029}' || c == '\u{202f}'
        || c == '\u{205f}' || c == '\u{3000}'
}

/// Whether `c` is a whitespace character in the sense of [`is_ws_char`].
pub fn is_ws(c: char) -> (r: bool)
    ensures
        r == is_ws_char(c),
{
    c == ' ' || c == '\t' || c == '\n' || c == '\r' || c == '\u{b}' || c == '\u{c}'
        || c == '\u{85}' || c == '\u{a0}' || c == '\u{1680}' || c == '\u{2000}' || c == '\u{2001}'
        || c == '\u{2002}' || c == '\u{2003}' || c == '\u{2004}' || c == '\u{2005}'
        || c == '\u{2006}' || c == '\u{2007}' || c == '\u{2008}' || c == '\u{2009}'
        || c == '\u{200a}' || c == '\u{2028}' || c == '\u{2029}' || c == '\u{202f}'
        || c == '\u{205f}' || c == '\u{3000}'
}

/// `s` contains no newline character.
pub open spec fn no_nl(s: Seq<char>) -> bool {
    forall|i: int| 0 <= i < s.len() ==> s[i] != '\n'
}

/// `s` with leading whitespace removed.
pub open spec fn trim_start_spec(s: Seq<char>) -> Seq<char>
    decreases s.len(),
{
    if s.len() > 0 && is_ws_char(s[0]) {
        trim_start_spec(s.drop_first())
    } else {
        s
    }
}

/// `s` with trailing whitespace removed.
pub open spec fn trim_end_spec(s: Seq<char>) -> Seq<char>
    decreases s.len(),
{
    if s.len() > 0 && is_ws_char(s.last()) {
        trim_end_spec(s.drop_last())
    } else {
        s
    }
}

/// `s` with both leading and trailing whitespace removed.
pub open spec fn trim_spec(s: Seq<char>) -> Seq<char> {
    trim_end_spec(trim_start_spec(s))
}

/// Index of the first newline in `s`, or `s.len()` if there is none.
pub open spec fn first_nl(s: Seq<char>) -> nat
    decreases s.len(),
{
    if s.len() == 0 {
        0
    } else if s[0] == '\n' {
        0
    } else {
        1 + first_nl(s.drop_first())
    }
}

/// `s` split at every newline; always one more segment than newlines.
pub open spec fn split_all(s: Seq<char>) -> Seq<Seq<char>>
    decreases s.len(),
{
    let i = first_nl(s) as int;
    if i < s.len() {
        seq![s.take(i)] + split_all(s.skip(i + 1))
    } else {
        seq![s]
    }
}

/// The lines of `s`, with Rust's `str::lines` convention for a final
/// newline: a trailing newline ends the last line instead of opening an
/// empty one, and the empty text has no lines.
pub open spec fn lines_spec(s: Seq<char>) -> Seq<Seq<char>> {
    if s.len() == 0 {
        Seq::empty()
    } else if s.last() == '\n' {
        split_all(s.drop_last())
    } else {
        split_all(s)
    }
}

pub proof fn lemma_first_nl_bounds(s: Seq<char>)
    ensures
        first_nl(s) <= s.len(),
        forall|i: int| 0 <= i < first_nl(s) ==> s[i] != '\n',
        first_nl(s) < s.len() ==> s[first_nl(s) as int] == '\n',
    decreases s.len(),
{
    if s.len() > 0 && s[0] != '\n' {
        lemma_first_nl_bounds(s.drop_first());
        assert forall|i: int| 0 <= i < first_nl(s) implies s[i] != '\n' by {
            if i > 0 {
                assert(s.drop_first()[i - 1] == s[i]);
            }
        }
    }
}

pub proof fn lemma_first_nl_no_nl(s: Seq<char>)
    requires
        no_nl(s),
    ensures
        first_nl(s) == s.len(),
{
    lemma_first_nl_bounds(s);
}

pub proof fn lemma_split_all_no_nl(s: Seq<char>)
    requires
        no_nl(s),
    ensures
        split_all(s) == seq![s],
{
    lemma_first_nl_no_nl(s);
}

pub proof fn lemma_first_nl_prepend(a: Seq<char>, b: Seq<char>)
    requires
        no_nl(a),
    ensures
        first_nl(a + seq!['\n'] + b) == a.len(),
    decreases a.len(),
{
    let s = a + seq!['\n'] + b;
    if a.len() == 0 {
        assert(s[0] == '\n');
    } else {
        assert(s[0] == a[0]);
        assert(s.drop_first() =~= a.drop_first() + seq!['\n'] + b);
        lemma_first_nl_prepend(a.drop_first(), b);
    }
}

pub proof fn lemma_split_all_prepend(a: Seq<char>, b: Seq<char>)
    requires
        no_nl(a),
    ensures
        split_all(a + seq!['\n'] + b) == seq![a] + split_all(b),
{
    let s = a + seq!['\n'] + b;
    lemma_first_nl_prepend(a, b);
    assert(s.take(a.len() as int) =~= a);
    assert(s.skip(a.len() as int + 1) =~= b);
}

pub proof fn lemma_lines_prepend(a: Seq<char>, b: Seq<char>)
    requires
        no_nl(a),
    ensures
        lines_spec(a + seq!['\n'] + b) == seq![a] + lines_spec(b),
{
    let s = a + seq!['\n'] + b;
    if b.len() == 0 {
        assert(s.last() == '\n');
        assert(s.drop_last() =~= a);
        lemma_split_all_no_nl(a);
        assert(seq![a] + lines_spec(b) =~= seq![a]);
    } else if b.last() == '\n' {
        assert(s.last() == '\n');
        assert(s.drop_last() =~= a + seq!['\n'] + b.drop_last());
        lemma_split_all_prepend(a, b.drop_last());
    } else {
        assert(s.last() == b.last());
        lemma_split_all_prepend(a, b);
    }
}

pub proof fn lemma_lines_single(s: Seq<char>)
    requires
        no_nl(s),
        s.len() > 0,
    ensures
        lines_spec(s) == seq![s],
{
    lemma_split_all_no_nl(s);
}

pub proof fn lemma_split_all_no_nl_elems(s: Seq<char>)
    ensures
        forall|i: int| 0 <= i < split_all(s).len() ==> no_nl(#[trigger] split_all(s)[i]),
    decreases s.len(),
{
    lemma_first_nl_bounds(s);
    let i = first_nl(s) as int;
    if i < s.len() {
        lemma_split_all_no_nl_elems(s.skip(i + 1));
        assert forall|j: int| 0 <= j < split_all(s).len() implies no_nl(
            #[trigger] split_all(s)[j],
        ) by {
            if j == 0 {
                assert(split_all(s)[0] == s.take(i));
                assert(forall|k: int| 0 <= k < i ==> s.take(i)[k] == s[k]);
            } else {
                assert(split_all(s)[j] == split_all(s.skip(i + 1))[j - 1]);
            }
        }
    }
}

pub proof fn lemma_lines_no_nl_elems(s: Seq<char>)
    ensures
        forall|i: int| 0 <= i < lines_spec(s).len() ==> no_nl(#[trigger] lines_spec(s)[i]),
{
    if s.len() > 0 {
        lemma_split_all_no_nl_elems(s.drop_last());
        lemma_split_all_no_nl_elems(s);
    }
}

pub proof fn lemma_trim_start_props(s: Seq<char>)
    ensures
        trim_start_spec(s).len() <= s.len(),
        trim_start_spec(s).len() > 0 ==> !is_ws_char(trim_start_spec(s)[0]),
        no_nl(s) ==> no_nl(trim_start_spec(s)),
    decreases s.len(),
{
    if s.len() > 0 && is_ws_char(s[0]) {
        lemma_trim_start_props(s.drop_first());
    }
}

pub proof fn lemma_trim_end_props(s: Seq<char>)
    ensures
        trim_end_spec(s).len() <= s.len(),
        forall|i: int| 0 <= i < trim_end_spec(s).len() ==> trim_end_spec(s)[i] == s[i],
        trim_end_spec(s).len() > 0 ==> !is_ws_char(trim_end_spec(s).last()),
    decreases s.len(),
{
    if s.len() > 0 && is_ws_char(s.last()) {
        lemma_trim_end_props(s.drop_last());
        assert forall|i: int| 0 <= i < trim_end_spec(s).len() implies trim_end_spec(s)[i]
            == s[i] by {
            assert(trim_end_spec(s)[i] == s.drop_last()[i]);
        }
    }
}

/// A trimmed line neither starts nor ends with whitespace, and trimming
/// introduces no newline.
pub proof fn lemma_trim_props(s: Seq<char>)
    ensures
        trim_spec(s).len() > 0 ==> !is_ws_char(trim_spec(s)[0]) && !is_ws_char(trim_spec(s).last()),
        no_nl(s) ==> no_nl(trim_spec(s)),
{
    lemma_trim_start_props(s);
    lemma_trim_end_props(trim_start_spec(s));
    let ts = trim_start_spec(s);
    if trim_spec(s).len() > 0 {
        assert(trim_spec(s)[0] == ts[0]);
    }
    if no_nl(s) {
        assert forall|i: int| 0 <= i < trim_spec(s).len() implies trim_spec(s)[i] != '\n' by {
            assert(trim_spec(s)[i] == ts[i]);
        }
    }
}

/// Trimming a value that neither starts nor ends with whitespace is the
/// identity; in particular trimming is idempotent.
pub proof fn lemma_trim_clean(t: Seq<char>)
    requires
        t.len() == 0 || (!is_ws_char(t[0]) && !is_ws_char(t.last())),
    ensures
        trim_spec(t) == t,
{
    assert(trim_start_spec(t) == t);
    assert(trim_end_spec(t) == t);
}

/// A run of `n` spaces.
pub open spec fn spaces(n: nat) -> Seq<char> {
    Seq::new(n, |i: int| ' ')
}

/// A run of `n` newlines.
pub open spec fn newlines(n: nat) -> Seq<char> {
    Seq::new(n, |i: int| '\n')
}

/// Trimming removes an indentation prefix entirely.
pub proof fn lemma_trim_indented(n: nat, t: Seq<char>)
    requires
        t.len() == 0 || (!is_ws_char(t[0]) && !is_ws_char(t.last())),
    ensures
        trim_spec(spaces(n) + t) == t,
    decreases n,
{
    if n == 0 {
        assert(spaces(0) + t =~= t);
        lemma_trim_clean(t);
    } else {
        let s = spaces(n) + t;
        assert(s[0] == ' ');
        assert(s.drop_first() =~= spaces((n - 1) as nat) + t);
        lemma_trim_indented((n - 1) as nat, t);
        assert(trim_start_spec(s) == trim_start_spec(spaces((n - 1) as nat) + t));
    }
}

/// Index of the last occurrence of `c` in `s`, or `-1` if there is none.
pub open spec fn last_index(s: Seq<char>, c: char) -> int
    decreases s.len(),
{
    if s.len() == 0 {
        -1
    } else if s.last() == c {
        s.len() - 1
    } else {
        last_index(s.drop_last(), c)
    }
}

pub proof fn lemma_last_index_bounds(s: Seq<char>, c: char)
    ensures
        -1 <= last_index(s, c) < s.len(),
        last_index(s, c) >= 0 ==> s[last_index(s, c)] == c,
    decreases s.len(),
{
    if s.len() > 0 && s.last() != c {
        lemma_last_index_bounds(s.drop_last(), c);
    }
}

/// Index of the last occurrence of `c` in `s`, if any.
pub fn rfind(s: &str, c: char) -> (r: Option<usize>)
    ensures
        match r {
            Some(i) => last_index(s@, c) == i as int && (i as int) < s@.len(),
            None => last_index(s@, c) == -1,
        },
{
    let n = s.unicode_len();
    let mut i: usize = n;
    proof {
        assert(s@.take(n as int) =~= s@);
    }
    while i > 0
        invariant
            i <= n == s@.len(),
            last_index(s@, c) == last_index(s@.take(i as int), c),
        decreases i,
    {
        let ch = s.get_char(i - 1);
        proof {
            assert(s@.take(i as int).last() == s@[i - 1]);
            assert(s@.take(i as int).drop_last() =~= s@.take(i as int - 1));
        }
        if ch == c {
            return Some(i - 1);
        }
        i = i - 1;
    }
    None
}

/// `s` with leading and trailing whitespace removed, as `str::trim` does.
pub fn trim_str(s: &str) -> (r: String)
    ensures
        r@ == trim_spec(s@),
{
    let n = s.unicode_len();
    let mut a: usize = 0;
    proof {
        assert(s@.skip(0) =~= s@);
    }
    while a < n && is_ws(s.get_char(a))
        invariant
            a <= n,
            n == s@.len(),
            trim_start_spec(s@) == trim_start_spec(s@.skip(a as int)),
        decreases n - a,
    {
        proof {
            assert(s@.skip(a as int)[0] == s@[a as int]);
            assert(s@.skip(a as int).drop_first() =~= s@.skip(a as int + 1));
        }
        a = a + 1;
    }
    proof {
        if a == n {
            assert(s@.skip(a as int) =~= Seq::<char>::empty());
        }
        assert(trim_start_spec(s@) == s@.skip(a as int));
    }
    let mut b: usize = n;
    proof {
        assert(s@.skip(a as int) =~= s@.subrange(a as int, b as int));
    }
    while b > a && is_ws(s.get_char(b - 1))
        invariant
            a <= b <= n,
            n == s@.len(),
            trim_end_spec(s@.skip(a as int)) == trim_end_spec(s@.subrange(a as int, b as int)),
        decreases b,
    {
        proof {
            assert(s@.subrange(a as int, b as int).last() == s@[b - 1]);
            assert(s@.subrange(a as int, b as int).drop_last() =~= s@.subrange(
                a as int,
                b as int - 1,
            ));
        }
        b = b - 1;
    }
    proof {
        if b == a {
            assert(s@.subrange(a as int, b as int) =~= Seq::<char>::empty());
        }
        assert(trim_end_spec(s@.subrange(a as int, b as int)) == s@.subrange(a as int, b as int));
    }
    String::from_str(s.substring_char(a, b))
}

/// The lines of `s`, split as [`lines_spec`] describes.
pub fn split_lines(s: &str) -> (r: Vec<String>)
    ensures
        r@.len() == lines_spec(s@).len(),
        forall|i: int| 0 <= i < r@.len() ==> r@[i]@ == lines_spec(s@)[i],
{
    let total = s.unicode_len();
    if total == 0 {
        let r: Vec<String> = Vec::new();
        return r;
    }
    let n = if s.get_char(total - 1) == '\n' {
        total - 1
    } else {
        total
    };
    proof {
        if s@.last() == '\n' {
            assert(s@.drop_last() =~= s@.take(n as int));
        } else {
            assert(s@ =~= s@.take(n as int));
        }
        assert(lines_spec(s@) == split_all(s@.take(n as int)));
    }
    let mut lines: Vec<String> = Vec::new();
    let ghost mut lv: Seq<Seq<char>> = Seq::empty();
    let mut start: usize = 0;
    let mut i: usize = 0;
    while i < n
        invariant
            start <= i <= n <= total == s@.len(),
            lines@.len() == lv.len(),
            forall|j: int| 0 <= j < lv.len() ==> lines@[j]@ == lv[j],
            no_nl(s@.subrange(start as int, i as int)),
            split_all(s@.take(n as int)) == lv + split_all(
                s@.subrange(start as int, i as int) + s@.subrange(i as int, n as int),
            ),
        decreases n - i,
    {
        let c = s.get_char(i);
        if c == '\n' {
            let ghost cur = s@.subrange(start as int, i as int);
            let piece = String::from_str(s.substring_char(start, i));
            lines.push(piece);
            proof {
                assert(s@.subrange(i as int, n as int) =~= seq!['\n'] + s@.subrange(
                    i as int + 1,
                    n as int,
                ));
                assert(cur + s@.subrange(i as int, n as int) =~= cur + seq!['\n'] + s@.subrange(
                    i as int + 1,
                    n as int,
                ));
                lemma_split_all_prepend(cur, s@.subrange(i as int + 1, n as int));
                lv = lv.push(cur);
                assert(s@.subrange(i as int + 1, i as int + 1) + s@.subrange(
                    i as int + 1,
                    n as int,
                ) =~= s@.subrange(i as int + 1, n as int));
                assert(lv + split_all(s@.subrange(i as int + 1, n as int)) =~= (lv.drop_last()
                    + seq![cur]) + split_all(s@.subrange(i as int + 1, n as int)));
            }
            start = i + 1;
        } else {
            proof {
                assert(s@.subrange(start as int, i as int + 1) + s@.subrange(
                    i as int + 1,
                    n as int,
                ) =~= s@.subrange(start as int, i as int) + s@.subrange(i as int, n as int));
                assert forall|j: int| start <= j < i + 1 implies s@[j] != '\n' by {
                    if j < i {
                        assert(s@.subrange(start as int, i as int)[j - start] == s@[j]);
                    }
                }
                assert(no_nl(s@.subrange(start as int, i as int + 1)));
            }
        }
        i = i + 1;
    }
    let ghost cur = s@.subrange(start as int, n as int);
    let piece = String::from_str(s.substring_char(start, n));
    lines.push(piece);
    proof {
        assert(cur + s@.subrange(n as int, n as int) =~= cur);
        lemma_split_all_no_nl(cur);
        lv = lv.push(cur);
        assert(split_all(s@.take(n as int)) =~= lv);
    }
    lines
}

} // verus!
