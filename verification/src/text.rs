//! Character-sequence helpers shared by the request parser and the
//! response builder: first-occurrence search, line splitting and joining,
//! whitespace trimming, and decimal rendering of lengths.

use vstd::prelude::*;

verus! {

/// The white-space characters, exactly the set `char::is_whitespace` accepts.
pub open spec fn is_ws(c: char) -> bool {
    c == ' ' || c == '\t' || c == '\n' || c == '\r' || c == '\u{000B}' || c == '\u{000C}'
        || c == '\u{0085}' || c == '\u{00A0}' || c == '\u{1680}' || c == '\u{2000}'
        || c == '\u{2001}' || c == '\u{2002}' || c == '\u{2003}' || c == '\u{2004}'
        || c == '\u{2005}' || c == '\u{2006}' || c == '\u{2007}' || c == '\u{2008}'
        || c == '\u{2009}' || c == '\u{200A}' || c == '\u{2028}' || c == '\u{2029}'
        || c == '\u{202F}' || c == '\u{205F}' || c == '\u{3000}'
}

/// Exec mirror of `is_ws`.
pub fn is_ws_char(c: char) -> (r: bool)
    ensures
        r == is_ws(c),
{
    c == ' ' || c == '\t' || c == '\n' || c == '\r' || c == '\u{000B}' || c == '\u{000C}'
        || c == '\u{0085}' || c == '\u{00A0}' || c == '\u{1680}' || c == '\u{2000}'
        || c == '\u{2001}' || c == '\u{2002}' || c == '\u{2003}' || c == '\u{2004}'
        || c == '\u{2005}' || c == '\u{2006}' || c == '\u{2007}' || c == '\u{2008}'
        || c == '\u{2009}' || c == '\u{200A}' || c == '\u{2028}' || c == '\u{2029}'
        || c == '\u{202F}' || c == '\u{205F}' || c == '\u{3000}'
}

/// Index of the first occurrence of `c` in `s`, or `-1` if `c` does not occur.
pub open spec fn find_char(s: Seq<char>, c: char) -> int
    decreases s.len(),
{
    if s.len() == 0 {
        -1
    } else if s[0] == c {
        0
    } else {
        let r = find_char(s.drop_first(), c);
        if r < 0 {
            -1
        } else {
            r + 1
        }
    }
}

/// `find_char` returns the least index holding `c`, or `-1` when `c` is absent.
pub proof fn lemma_find_char(s: Seq<char>, c: char)
    ensures
        find_char(s, c) >= 0 ==> 0 <= find_char(s, c) < s.len() && s[find_char(s, c)] == c
            && (forall|j: int| 0 <= j < find_char(s, c) ==> s[j] != c),
        find_char(s, c) < 0 ==> forall|j: int| 0 <= j < s.len() ==> s[j] != c,
    decreases s.len(),
{
    if s.len() > 0 && s[0] != c {
        let st = s.drop_first();
        lemma_find_char(st, c);
        let r = find_char(st, c);
        if r >= 0 {
            assert(s[r + 1] == st[r]);
            assert forall|j: int| 0 <= j < r + 1 implies s[j] != c by {
                if j > 0 {
                    assert(s[j] == st[j - 1]);
                }
            }
        } else {
            assert forall|j: int| 0 <= j < s.len() implies s[j] != c by {
                if j > 0 {
                    assert(s[j] == st[j - 1]);
                }
            }
        }
    }
}

/// The head/body delimiter holds at index `i` of `s`: the four characters
/// `\r\n\r\n` start there.
pub open spec fn delim_at(s: Seq<char>, i: int) -> bool {
    &&& 0 <= i
    &&& i + 4 <= s.len()
    &&& s[i] == '\r'
    &&& s[i + 1] == '\n'
    &&& s[i + 2] == '\r'
    &&& s[i + 3] == '\n'
}

/// Index of the first occurrence of the head/body delimiter in `s`,
/// or `-1` if it does not occur.
pub open spec fn first_delim_pos(s: Seq<char>) -> int
    decreases s.len(),
{
    if s.len() < 4 {
        -1
    } else if delim_at(s, 0) {
        0
    } else {
        let r = first_delim_pos(s.drop_first());
        if r < 0 {
            -1
        } else {
            r + 1
        }
    }
}

/// `first_delim_pos` returns the least index where the delimiter holds,
/// or `-1` when it holds nowhere.
pub proof fn lemma_first_delim_pos(s: Seq<char>)
    ensures
        first_delim_pos(s) >= 0 ==> delim_at(s, first_delim_pos(s))
            && (forall|j: int| 0 <= j < first_delim_pos(s) ==> !delim_at(s, j)),
        first_delim_pos(s) < 0 ==> forall|j: int| !delim_at(s, j),
    decreases s.len(),
{
    if s.len() >= 4 && !delim_at(s, 0) {
        let st = s.drop_first();
        lemma_first_delim_pos(st);
        assert forall|j: int| 0 <= j ==> (delim_at(s, j + 1) <==> delim_at(st, j)) by {
            if 0 <= j && j + 4 <= st.len() {
                assert(st[j] == s[j + 1]);
                assert(st[j + 1] == s[j + 2]);
                assert(st[j + 2] == s[j + 3]);
                assert(st[j + 3] == s[j + 4]);
            }
        }
        let r = first_delim_pos(st);
        if r >= 0 {
            assert forall|j: int| 0 <= j < r + 1 implies !delim_at(s, j) by {
                if j > 0 {
                    assert(!delim_at(st, j - 1));
                }
            }
        } else {
            assert forall|j: int| !delim_at(s, j) by {
                if j > 0 {
                    assert(!delim_at(st, j - 1));
                }
            }
        }
    }
}

/// `line` with one trailing carriage return removed, if it has one.
pub open spec fn strip_cr(line: Seq<char>) -> Seq<char> {
    if line.len() > 0 && line.last() == '\r' {
        line.drop_last()
    } else {
        line
    }
}

/// The lines of `s`, split as `str::lines` splits them: at each `\n`,
/// with one `\r` stripped from the end of a line that had one, and
/// with no empty final line after a trailing `\n`.
pub open spec fn split_lines(s: Seq<char>) -> Seq<Seq<char>>
    decreases s.len(),
    via split_lines_dec
{
    if s.len() == 0 {
        Seq::empty()
    } else {
        let i = find_char(s, '\n');
        if i < 0 {
            seq![s]
        } else {
            seq![strip_cr(s.subrange(0, i))] + split_lines(s.subrange(i + 1, s.len() as int))
        }
    }
}

#[via_fn]
proof fn split_lines_dec(s: Seq<char>) {
    lemma_find_char(s, '\n');
}

/// The lines of `ls` joined with a single `\n` between each pair.
pub open spec fn join_lines(ls: Seq<Seq<char>>) -> Seq<char>
    decreases ls.len(),
{
    if ls.len() == 0 {
        Seq::empty()
    } else if ls.len() == 1 {
        ls[0]
    } else {
        ls[0] + seq!['\n'] + join_lines(ls.drop_first())
    }
}

/// Appending one more line extends the join by a newline and that line.
pub proof fn lemma_join_lines_push(ls: Seq<Seq<char>>, l: Seq<char>)
    requires
        ls.len() > 0,
    ensures
        join_lines(ls.push(l)) == join_lines(ls) + seq!['\n'] + l,
    decreases ls.len(),
{
    let e = ls.push(l);
    if ls.len() == 1 {
        assert(e.drop_first() =~= seq![l]);
        assert(join_lines(e) == e[0] + seq!['\n'] + join_lines(e.drop_first()));
        assert(join_lines(seq![l]) == l);
    } else {
        lemma_join_lines_push(ls.drop_first(), l);
        assert(e.drop_first() =~= ls.drop_first().push(l));
        assert(join_lines(ls) + seq!['\n'] + l =~= ls[0] + seq!['\n'] + (join_lines(
            ls.drop_first(),
        ) + seq!['\n'] + l));
    }
}

/// No line of `ls` contains a newline, no line ends in a carriage return,
/// and the last line is not empty.
pub open spec fn joinable_lines(ls: Seq<Seq<char>>) -> bool {
    &&& forall|i: int, j: int|
        0 <= i < ls.len() && 0 <= j < ls[i].len() ==> #[trigger] ls[i][j] != '\n'
    &&& forall|i: int| 0 <= i < ls.len() && ls[i].len() > 0 ==> (#[trigger] ls[i]).last() != '\r'
    &&& ls.len() > 0 ==> ls.last().len() > 0
}

/// Splitting a join of well-formed lines gives the lines back.
pub proof fn lemma_split_join(ls: Seq<Seq<char>>)
    requires
        joinable_lines(ls),
    ensures
        split_lines(join_lines(ls)) == ls,
    decreases ls.len(),
{
    let s = join_lines(ls);
    if ls.len() == 0 {
        assert(split_lines(s) =~= ls);
    } else if ls.len() == 1 {
        assert(s == ls[0]);
        assert(s.len() > 0);
        lemma_find_char(s, '\n');
        if find_char(s, '\n') >= 0 {
            assert(ls[0][find_char(s, '\n')] == '\n');
        }
        assert(split_lines(s) =~= ls);
    } else {
        let first = ls[0];
        let rest = ls.drop_first();
        let t = join_lines(rest);
        assert(s == first + seq!['\n'] + t);
        assert(s[first.len() as int] == '\n');
        assert forall|j: int| 0 <= j < first.len() implies s[j] != '\n' by {
            assert(s[j] == first[j]);
        }
        lemma_find_char(s, '\n');
        if find_char(s, '\n') != first.len() {
            let f = find_char(s, '\n');
            assert(f >= 0 ==> s[f] == '\n');
            assert(false);
        }
        let i = first.len() as int;
        assert(s.subrange(0, i) =~= first);
        assert(strip_cr(first) == first);
        assert(s.subrange(i + 1, s.len() as int) =~= t);
        assert forall|a: int|
            0 <= a < rest.len() implies (#[trigger] rest[a]) == ls[a + 1] by {}
        assert(joinable_lines(rest)) by {
            assert forall|a: int, b: int|
                0 <= a < rest.len() && 0 <= b < rest[a].len() implies #[trigger] rest[a][b]
                != '\n' by {
                assert(rest[a] == ls[a + 1]);
            }
            assert forall|a: int|
                0 <= a < rest.len() && rest[a].len() > 0 implies (#[trigger] rest[a]).last()
                != '\r' by {
                assert(rest[a] == ls[a + 1]);
            }
            assert(rest.last() == ls.last());
        }
        lemma_split_join(rest);
        assert(split_lines(s) =~= seq![first] + rest);
        assert(seq![first] + rest =~= ls);
    }
}

/// Finds the first occurrence of `c` in `s`, mirroring `find_char`.
pub fn find_char_in(s: &str, c: char) -> (r: Option<usize>)
    ensures
        match r {
            Some(i) => find_char(s@, c) == i as int && i < s@.len() && s@[i as int] == c,
            None => find_char(s@, c) < 0,
        },
{
    let n = s.unicode_len();
    let mut i: usize = 0;
    while i < n
        invariant
            0 <= i <= n,
            n == s@.len(),
            forall|j: int| 0 <= j < i ==> s@[j] != c,
        decreases n - i,
    {
        if s.get_char(i) == c {
            proof {
                lemma_find_char(s@, c);
            }
            return Some(i);
        }
        i = i + 1;
    }
    proof {
        lemma_find_char(s@, c);
    }
    None
}

/// Finds the first occurrence of the head/body delimiter in `s`,
/// mirroring `first_delim_pos`.
pub fn find_delim_in(s: &str) -> (r: Option<usize>)
    ensures
        match r {
            Some(i) => first_delim_pos(s@) == i as int && i + 4 <= s@.len(),
            None => first_delim_pos(s@) < 0,
        },
{
    let n = s.unicode_len();
    if n < 4 {
        proof {
            lemma_first_delim_pos(s@);
            if first_delim_pos(s@) >= 0 {
                assert(delim_at(s@, first_delim_pos(s@)));
            }
        }
        return None;
    }
    let mut i: usize = 0;
    while i <= n - 4
        invariant
            4 <= n,
            0 <= i <= n,
            n == s@.len(),
            forall|j: int| 0 <= j < i ==> !delim_at(s@, j),
        decreases n - i,
    {
        if s.get_char(i) == '\r' && s.get_char(i + 1) == '\n' && s.get_char(i + 2) == '\r'
            && s.get_char(i + 3) == '\n' {
            proof {
                lemma_first_delim_pos(s@);
                assert(delim_at(s@, i as int));
            }
            return Some(i);
        }
        i = i + 1;
    }
    proof {
        lemma_first_delim_pos(s@);
        if first_delim_pos(s@) >= 0 {
            assert(delim_at(s@, first_delim_pos(s@)));
        }
    }
    None
}

/// Splitting a join of newline-free lines gives the lines back, each
/// but the last with one trailing carriage return stripped, as the line
/// splitting strips it; the last line, not being followed by a newline,
/// comes back whole.
pub proof fn lemma_split_join_strip(ls: Seq<Seq<char>>)
    requires
        forall|i: int, j: int|
            0 <= i < ls.len() && 0 <= j < ls[i].len() ==> #[trigger] ls[i][j] != '\n',
        ls.len() > 0 ==> ls.last().len() > 0,
    ensures
        split_lines(join_lines(ls)).len() == ls.len(),
        forall|i: int|
            0 <= i < ls.len() - 1 ==> #[trigger] split_lines(join_lines(ls))[i] == strip_cr(
                ls[i],
            ),
        ls.len() > 0 ==> split_lines(join_lines(ls)).last() == ls.last(),
    decreases ls.len(),
{
    let s = join_lines(ls);
    if ls.len() == 0 {
        assert(split_lines(s) =~= ls);
    } else if ls.len() == 1 {
        assert(s == ls[0]);
        assert(s.len() > 0);
        lemma_find_char(s, '\n');
        if find_char(s, '\n') >= 0 {
            assert(ls[0][find_char(s, '\n')] == '\n');
        }
        assert(split_lines(s) == seq![s]);
    } else {
        let first = ls[0];
        let rest = ls.drop_first();
        let t = join_lines(rest);
        assert(s == first + seq!['\n'] + t);
        assert(s[first.len() as int] == '\n');
        assert forall|j: int| 0 <= j < first.len() implies s[j] != '\n' by {
            assert(s[j] == first[j]);
        }
        lemma_find_char(s, '\n');
        if find_char(s, '\n') != first.len() {
            let f = find_char(s, '\n');
            assert(f >= 0 ==> s[f] == '\n');
            assert(false);
        }
        let i = first.len() as int;
        assert(s.subrange(0, i) =~= first);
        assert(s.subrange(i + 1, s.len() as int) =~= t);
        assert forall|a: int, b: int|
            0 <= a < rest.len() && 0 <= b < rest[a].len() implies #[trigger] rest[a][b]
            != '\n' by {
            assert(rest[a] == ls[a + 1]);
        }
        assert(rest.last() == ls.last());
        lemma_split_join_strip(rest);
        assert(split_lines(s) == seq![strip_cr(first)] + split_lines(t));
        assert forall|a: int|
            0 <= a < ls.len() - 1 implies #[trigger] split_lines(s)[a] == strip_cr(ls[a]) by {
            if a > 0 {
                assert(split_lines(s)[a] == split_lines(t)[a - 1]);
                assert(rest[a - 1] == ls[a]);
            }
        }
        assert(split_lines(s).last() == split_lines(t).last());
    }
}

/// In a join of newline-free lines of length at least two, no two
/// newlines stand two apart, and the join does not end in one.  So the
/// four-character head/body delimiter, whose newlines stand two apart,
/// cannot begin inside such a join.
pub proof fn lemma_join_newline_gap(ls: Seq<Seq<char>>)
    requires
        forall|i: int, j: int|
            0 <= i < ls.len() && 0 <= j < ls[i].len() ==> #[trigger] ls[i][j] != '\n',
        forall|i: int| 0 <= i < ls.len() ==> (#[trigger] ls[i]).len() >= 2,
    ensures
        forall|a: int|
            0 <= a && a + 2 < join_lines(ls).len() ==> !(#[trigger] join_lines(ls)[a] == '\n'
                && join_lines(ls)[a + 2] == '\n'),
        join_lines(ls).len() > 0 ==> join_lines(ls).last() != '\n',
    decreases ls.len(),
{
    let s = join_lines(ls);
    if ls.len() == 1 {
        assert forall|a: int| 0 <= a < s.len() implies s[a] != '\n' by {
            assert(s[a] == ls[0][a]);
        }
    } else if ls.len() > 1 {
        let rest = ls.drop_first();
        assert forall|a: int, b: int|
            0 <= a < rest.len() && 0 <= b < rest[a].len() implies #[trigger] rest[a][b]
            != '\n' by {
            assert(rest[a] == ls[a + 1]);
        }
        assert forall|a: int| 0 <= a < rest.len() implies (#[trigger] rest[a]).len() >= 2 by {
            assert(rest[a] == ls[a + 1]);
        }
        lemma_join_newline_gap(rest);
        let t = join_lines(rest);
        let w = ls[0].len() as int;
        assert(rest[0].len() >= 2);
        assert(t.len() >= 2) by {
            if rest.len() == 1 {
                assert(t == rest[0]);
            }
        }
        assert(t[1] != '\n') by {
            if rest.len() == 1 {
                assert(t[1] == rest[0][1]);
            } else {
                assert(t[1] == rest[0][1]);
            }
        }
        assert(s.last() == t.last());
        assert forall|a: int|
            0 <= a && a + 2 < s.len() implies !(#[trigger] s[a] == '\n' && s[a + 2]
            == '\n') by {
            if a < w {
                assert(s[a] == ls[0][a]);
            } else if a == w {
                assert(s[a + 2] == t[1]);
            } else {
                assert(s[a] == t[a - w - 1]);
                assert(s[a + 2] == t[a - w + 1]);
                assert(!(t[a - w - 1] == '\n' && t[a - w + 1] == '\n'));
            }
        }
    }
}

/// `s` with leading white space removed.
pub open spec fn trim_start(s: Seq<char>) -> Seq<char>
    decreases s.len(),
{
    if s.len() > 0 && is_ws(s[0]) {
        trim_start(s.drop_first())
    } else {
        s
    }
}

/// `s` with trailing white space removed.
pub open spec fn trim_end(s: Seq<char>) -> Seq<char>
    decreases s.len(),
{
    if s.len() > 0 && is_ws(s.last()) {
        trim_end(s.drop_last())
    } else {
        s
    }
}

/// `s` with leading and trailing white space removed, as `str::trim` does.
pub open spec fn trim_ws(s: Seq<char>) -> Seq<char> {
    trim_end(trim_start(s))
}

/// If the first `i` characters are white space and the one after them is
/// not, trimming the start drops exactly those `i` characters.
pub proof fn lemma_trim_start_at(s: Seq<char>, i: int)
    requires
        0 <= i <= s.len(),
        forall|j: int| 0 <= j < i ==> is_ws(#[trigger] s[j]),
        i < s.len() ==> !is_ws(s[i]),
    ensures
        trim_start(s) == s.subrange(i, s.len() as int),
    decreases i,
{
    if i == 0 {
        assert(s.subrange(0, s.len() as int) =~= s);
    } else {
        let st = s.drop_first();
        assert(is_ws(s[0]));
        assert forall|j: int| 0 <= j < i - 1 implies is_ws(#[trigger] st[j]) by {
            assert(st[j] == s[j + 1]);
        }
        if i - 1 < st.len() {
            assert(st[i - 1] == s[i]);
        }
        lemma_trim_start_at(st, i - 1);
        assert(st.subrange(i - 1, st.len() as int) =~= s.subrange(i, s.len() as int));
    }
}

/// If the characters from `i` on are white space and the one before them
/// is not, trimming the end drops exactly those characters.
pub proof fn lemma_trim_end_at(s: Seq<char>, i: int)
    requires
        0 <= i <= s.len(),
        forall|j: int| i <= j < s.len() ==> is_ws(#[trigger] s[j]),
        i > 0 ==> !is_ws(s[i - 1]),
    ensures
        trim_end(s) == s.subrange(0, i),
    decreases s.len() - i,
{
    if i == s.len() {
        if s.len() > 0 {
            assert(!is_ws(s.last()));
        }
        assert(s.subrange(0, s.len() as int) =~= s);
    } else {
        let st = s.drop_last();
        assert(is_ws(s.last()));
        lemma_trim_end_at(st, i);
        assert(st.subrange(0, i) =~= s.subrange(0, i));
    }
}

/// A value equal to its own trim neither starts nor ends with white space.
pub proof fn lemma_trim_stable_parts(s: Seq<char>)
    requires
        trim_ws(s) == s,
    ensures
        trim_start(s) == s,
        trim_end(s) == s,
        s.len() > 0 ==> !is_ws(s[0]) && !is_ws(s.last()),
{
    lemma_trim_start_len(s);
    lemma_trim_end_len(trim_start(s));
    if s.len() > 0 && is_ws(s[0]) {
        lemma_trim_start_len(s.drop_first());
        lemma_trim_end_len(trim_start(s.drop_first()));
        assert(false);
    }
    if s.len() > 0 && is_ws(s.last()) {
        lemma_trim_end_len(s.drop_last());
        assert(false);
    }
}

/// Trimming the start never lengthens a sequence.
pub proof fn lemma_trim_start_len(s: Seq<char>)
    ensures
        trim_start(s).len() <= s.len(),
    decreases s.len(),
{
    if s.len() > 0 && is_ws(s[0]) {
        lemma_trim_start_len(s.drop_first());
    }
}

/// Trimming the end never lengthens a sequence.
pub proof fn lemma_trim_end_len(s: Seq<char>)
    ensures
        trim_end(s).len() <= s.len(),
    decreases s.len(),
{
    if s.len() > 0 && is_ws(s.last()) {
        lemma_trim_end_len(s.drop_last());
    }
}

/// Exec trim over the characters of `s`, mirroring `trim_ws`.
pub fn trim_str(s: &str) -> (r: String)
    ensures
        r@ == trim_ws(s@),
{
    let n = s.unicode_len();
    let mut i: usize = 0;
    while i < n && is_ws_char(s.get_char(i))
        invariant
            0 <= i <= n,
            n == s@.len(),
            forall|j: int| 0 <= j < i ==> is_ws(#[trigger] s@[j]),
        decreases n - i,
    {
        i = i + 1;
    }
    let mut j: usize = n;
    while j > i && is_ws_char(s.get_char(j - 1))
        invariant
            i <= j <= n,
            n == s@.len(),
            forall|k: int| j <= k < n ==> is_ws(#[trigger] s@[k]),
        decreases j,
    {
        j = j - 1;
    }
    proof {
        lemma_trim_start_at(s@, i as int);
        let t = s@.subrange(i as int, n as int);
        assert forall|k: int| j - i <= k < t.len() implies is_ws(#[trigger] t[k]) by {
            assert(t[k] == s@[k + i]);
        }
        if j > i {
            assert(t[j - i - 1] == s@[j - 1]);
        }
        lemma_trim_end_at(t, j - i);
        assert(t.subrange(0, j - i) =~= s@.subrange(i as int, j as int));
    }
    String::from_str(s.substring_char(i, j))
}

/// The character for the decimal digit `d`.
pub open spec fn digit_char(d: int) -> char {
    if d == 0 {
        '0'
    } else if d == 1 {
        '1'
    } else if d == 2 {
        '2'
    } else if d == 3 {
        '3'
    } else if d == 4 {
        '4'
    } else if d == 5 {
        '5'
    } else if d == 6 {
        '6'
    } else if d == 7 {
        '7'
    } else if d == 8 {
        '8'
    } else {
        '9'
    }
}

/// The decimal rendering of `n`, without leading zeros.
pub open spec fn dec_str_of(n: nat) -> Seq<char>
    decreases n,
{
    if n < 10 {
        seq![digit_char(n as int)]
    } else {
        dec_str_of(n / 10) + seq![digit_char((n % 10) as int)]
    }
}

/// A one-character string for the decimal digit `d`.
fn digit_char_str(d: usize) -> (r: &'static str)
    requires
        d < 10,
    ensures
        r@ == seq![digit_char(d as int)],
{
    let r: &'static str = match d {
        0 => "0",
        1 => "1",
        2 => "2",
        3 => "3",
        4 => "4",
        5 => "5",
        6 => "6",
        7 => "7",
        8 => "8",
        _ => "9",
    };
    proof {
        reveal_strlit("0");
        reveal_strlit("1");
        reveal_strlit("2");
        reveal_strlit("3");
        reveal_strlit("4");
        reveal_strlit("5");
        reveal_strlit("6");
        reveal_strlit("7");
        reveal_strlit("8");
        reveal_strlit("9");
        assert(r@ =~= seq![digit_char(d as int)]);
    }
    r
}

/// Renders `n` in decimal, as the `Content-Length` header needs it.
pub fn usize_to_string(n: usize) -> (r: String)
    ensures
        r@ == dec_str_of(n as nat),
    decreases n,
{
    if n < 10 {
        String::from_str(digit_char_str(n))
    } else {
        let mut s = usize_to_string(n / 10);
        s.append(digit_char_str(n % 10));
        s
    }
}

} // verus!
