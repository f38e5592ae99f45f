//! Whitespace normalization: collapsing inline whitespace runs to single
//! spaces, and the line-level cleanup pass that the renderer applies to its
//! final output.

use vstd::prelude::*;

use crate::chars::{char_is_ws, chars_to_string, is_ws, str_to_chars};

verus! {

broadcast use vstd::std_specs::vec::group_vec_axioms, vstd::seq::group_seq_axioms;

// ----------------------------------------------------------------------------
// Spec: inline whitespace collapsing
// ----------------------------------------------------------------------------

/// The first whitespace position at or after `i`, or the length.
pub open spec fn find_ws(s: Seq<char>, i: int) -> int
    decreases s.len() - i,
{
    if i < 0 || i >= s.len() {
        s.len() as int
    } else if is_ws(s[i]) {
        i
    } else {
        find_ws(s, i + 1)
    }
}

/// The text from position `i` on with every whitespace run replaced by a
/// single space and the ends trimmed; `first` records whether no word has
/// been emitted yet.
pub open spec fn collapse_from(s: Seq<char>, i: int, first: bool) -> Seq<char>
    decreases s.len() - i, 1int,
{
    if i < 0 || i >= s.len() {
        Seq::empty()
    } else if is_ws(s[i]) {
        collapse_from(s, i + 1, first)
    } else {
        let j = find_ws(s, i);
        (if first {
            Seq::<char>::empty()
        } else {
            seq![' ']
        }) + s.subrange(i, j) + collapse_after_word(s, i, first)
    }
}

/// What follows the word that starts at position `i`.
pub open spec fn collapse_after_word(s: Seq<char>, i: int, first: bool) -> Seq<char>
    decreases s.len() - i, 0int,
{
    if i < 0 || i >= s.len() || is_ws(s[i]) {
        Seq::empty()
    } else {
        proof {
            lemma_find_ws_range(s, i);
        }
        collapse_from(s, find_ws(s, i), false)
    }
}

/// The first whitespace position lies beyond `i`, within the text.
pub proof fn lemma_find_ws_range(s: Seq<char>, i: int)
    requires
        0 <= i < s.len(),
        !is_ws(s[i]),
    ensures
        i < find_ws(s, i) <= s.len(),
    decreases s.len() - i,
{
    if i + 1 >= s.len() {
        assert(find_ws(s, i + 1) == s.len());
    } else if is_ws(s[i + 1]) {
        assert(find_ws(s, i + 1) == i + 1);
    } else {
        lemma_find_ws_range(s, i + 1);
    }
}

/// The whole text with whitespace runs collapsed to single spaces and the
/// ends trimmed.
pub open spec fn spec_collapse(s: Seq<char>) -> Seq<char> {
    collapse_from(s, 0, true)
}

/// Collapses every whitespace run to a single space and trims the ends.
pub fn collapse_ws(cs: &Vec<char>) -> (r: Vec<char>)
    ensures
        r@ == spec_collapse(cs@),
{
    let n = cs.len();
    let mut out: Vec<char> = Vec::new();
    let mut i: usize = 0;
    let mut first: bool = true;
    while i < n
        invariant
            n == cs.len(),
            i <= n,
            spec_collapse(cs@) == out@ + collapse_from(cs@, i as int, first),
        decreases n - i,
    {
        if char_is_ws(cs[i]) {
            proof {
                assert(collapse_from(cs@, i as int, first) == collapse_from(
                    cs@,
                    i + 1,
                    first,
                ));
            }
            i += 1;
        } else {
            let ghost w0 = i as int;
            let ghost f0 = first;
            let ghost out0 = out@;
            if !first {
                out.push(' ');
            }
            let ghost out_sep = out@;
            proof {
                assert(out_sep + cs@.subrange(w0, w0) =~= out_sep);
            }
            let mut j: usize = i;
            while j < n && !char_is_ws(cs[j])
                invariant
                    n == cs.len(),
                    0 <= w0 <= j <= n,
                    find_ws(cs@, w0) == find_ws(cs@, j as int),
                    out@ == out_sep + cs@.subrange(w0, j as int),
                decreases n - j,
            {
                proof {
                    assert(find_ws(cs@, j as int) == find_ws(cs@, j + 1));
                }
                out.push(cs[j]);
                proof {
                    assert(cs@.subrange(w0, j + 1) =~= cs@.subrange(w0, j as int).push(
                        cs@[j as int],
                    ));
                }
                j += 1;
            }
            proof {
                if j < n {
                    assert(find_ws(cs@, j as int) == j as int);
                } else {
                    assert(find_ws(cs@, j as int) == n as int);
                }
                assert(find_ws(cs@, w0) == j as int);
                let sep: Seq<char> = if f0 {
                    Seq::<char>::empty()
                } else {
                    seq![' ']
                };
                assert(out_sep =~= out0 + sep);
                assert(collapse_from(cs@, w0, f0) == sep + cs@.subrange(w0, j as int)
                    + collapse_after_word(cs@, w0, f0));
                assert(collapse_after_word(cs@, w0, f0) == collapse_from(cs@, j as int, false));
                assert(out0 + collapse_from(cs@, w0, f0) =~= out@ + collapse_from(
                    cs@,
                    j as int,
                    false,
                ));
            }
            first = false;
            i = j;
        }
    }
    proof {
        assert(collapse_from(cs@, i as int, first) =~= Seq::<char>::empty());
        assert(out@ + Seq::<char>::empty() =~= out@);
    }
    out
}

// ----------------------------------------------------------------------------
// Spec: line-level cleanup
// ----------------------------------------------------------------------------

/// The first newline position at or after `i`, or the length.
pub open spec fn find_nl(s: Seq<char>, i: int) -> int
    decreases s.len() - i,
{
    if i < 0 || i >= s.len() {
        s.len() as int
    } else if s[i] == '\n' {
        i
    } else {
        find_nl(s, i + 1)
    }
}

/// A line with one trailing carriage return removed, as a `\r\n` terminator
/// loses its carriage return along with the newline.
pub open spec fn strip_cr(l: Seq<char>) -> Seq<char> {
    if l.len() > 0 && l.last() == '\r' {
        l.drop_last()
    } else {
        l
    }
}

/// The newline position lies in `[i, len]`.
pub proof fn lemma_find_nl_range(s: Seq<char>, i: int)
    requires
        0 <= i <= s.len(),
    ensures
        i <= find_nl(s, i) <= s.len(),
        find_nl(s, i) < s.len() ==> s[find_nl(s, i)] == '\n',
    decreases s.len() - i,
{
    if i < s.len() && s[i] != '\n' {
        lemma_find_nl_range(s, i + 1);
    }
}

/// The lines of the text from position `i` on: newline-terminated segments
/// lose their terminator and the carriage return of a `\r\n` ending; a
/// final unterminated segment is kept verbatim.
pub open spec fn lines_from(s: Seq<char>, i: int) -> Seq<Seq<char>>
    decreases s.len() - i,
{
    if i < 0 || i >= s.len() {
        Seq::empty()
    } else {
        let j = find_nl(s, i);
        if j >= s.len() {
            seq![s.subrange(i, s.len() as int)]
        } else {
            proof {
                lemma_find_nl_range(s, i);
            }
            seq![strip_cr(s.subrange(i, j))] + lines_from(s, j + 1)
        }
    }
}

/// Whether the line holds only whitespace.
pub open spec fn line_blank(l: Seq<char>) -> bool {
    forall|k: int| 0 <= k < l.len() ==> is_ws(#[trigger] l[k])
}

/// The cleanup pass over a line list: blank lines become at most one empty
/// separator line, never leading; other lines are kept with a newline after
/// each.
pub open spec fn clean_lines(ls: Seq<Seq<char>>, i: int, prev_blank: bool, any_out: bool) -> Seq<
    char,
>
    decreases ls.len() - i,
{
    if i < 0 || i >= ls.len() {
        Seq::empty()
    } else if line_blank(ls[i]) {
        if !prev_blank && any_out {
            seq!['\n'] + clean_lines(ls, i + 1, true, any_out)
        } else {
            clean_lines(ls, i + 1, prev_blank, any_out)
        }
    } else {
        ls[i] + seq!['\n'] + clean_lines(ls, i + 1, false, true)
    }
}

/// The text with every trailing whitespace character removed.
pub open spec fn trim_end_ws(s: Seq<char>) -> Seq<char>
    decreases s.len(),
{
    if s.len() > 0 && is_ws(s.last()) {
        trim_end_ws(s.drop_last())
    } else {
        s
    }
}

/// The cleaned form of a text: its lines passed through the cleanup pass,
/// with trailing whitespace removed.
pub open spec fn spec_clean(s: Seq<char>) -> Seq<char> {
    trim_end_ws(clean_lines(lines_from(s, 0), 0, false, false))
}

// ----------------------------------------------------------------------------
// Executable cleanup
// ----------------------------------------------------------------------------

/// Whether every character of the line is whitespace.
fn line_is_blank(l: &Vec<char>) -> (r: bool)
    ensures
        r == line_blank(l@),
{
    let n = l.len();
    let mut i: usize = 0;
    while i < n
        invariant
            n == l.len(),
            i <= n,
            forall|k: int| 0 <= k < i ==> is_ws(#[trigger] l@[k]),
        decreases n - i,
    {
        if !char_is_ws(l[i]) {
            return false;
        }
        i += 1;
    }
    true
}

/// Splits a text into its lines.
fn split_lines(cs: &Vec<char>) -> (r: Vec<Vec<char>>)
    ensures
        crate::tree::views_of::<Vec<char>>(r@) == lines_from(cs@, 0),
{
    let n = cs.len();
    let mut out: Vec<Vec<char>> = Vec::new();
    let mut i: usize = 0;
    proof {
        assert(crate::tree::views_of::<Vec<char>>(out@) + lines_from(cs@, 0) =~= lines_from(
            cs@,
            0,
        ));
    }
    while i < n
        invariant
            n == cs.len(),
            i <= n,
            lines_from(cs@, 0) == crate::tree::views_of::<Vec<char>>(out@) + lines_from(
                cs@,
                i as int,
            ),
        decreases n - i,
    {
        let ghost l0 = i as int;
        let mut j: usize = i;
        while j < n && cs[j] != '\n'
            invariant
                n == cs.len(),
                0 <= l0 <= j <= n,
                find_nl(cs@, l0) == find_nl(cs@, j as int),
            decreases n - j,
        {
            proof {
                assert(find_nl(cs@, j as int) == find_nl(cs@, j + 1));
            }
            j += 1;
        }
        proof {
            if j < n {
                assert(find_nl(cs@, j as int) == j as int);
            } else {
                assert(find_nl(cs@, j as int) == n as int);
            }
            assert(find_nl(cs@, l0) == j as int);
        }
        let mut line: Vec<char> = Vec::new();
        proof {
            assert(cs@.subrange(l0, l0) =~= Seq::<char>::empty());
        }
        let mut k: usize = i;
        while k < j
            invariant
                n == cs.len(),
                0 <= l0 <= k <= j <= n,
                line@ == cs@.subrange(l0, k as int),
            decreases j - k,
        {
            line.push(cs[k]);
            proof {
                assert(cs@.subrange(l0, k + 1) =~= cs@.subrange(l0, k as int).push(
                    cs@[k as int],
                ));
            }
            k += 1;
        }
        let ghost prev_out = out@;
        if j == n {
            out.push(line);
            proof {
                assert(crate::tree::views_of::<Vec<char>>(out@) =~= crate::tree::views_of::<
                    Vec<char>,
                >(prev_out).push(cs@.subrange(l0, n as int)));
                assert(lines_from(cs@, l0) =~= seq![cs@.subrange(l0, n as int)]);
                assert(lines_from(cs@, n as int) =~= Seq::<Seq<char>>::empty());
                assert(crate::tree::views_of::<Vec<char>>(prev_out) + lines_from(cs@, l0)
                    =~= crate::tree::views_of::<Vec<char>>(out@) + lines_from(cs@, n as int));
            }
            i = n;
        } else {
            let ghost before = line@;
            if line.len() > 0 && line[line.len() - 1] == '\r' {
                line.pop();
                proof {
                    assert(line@ =~= before.drop_last());
                }
            }
            proof {
                assert(line@ == strip_cr(cs@.subrange(l0, j as int)));
            }
            out.push(line);
            proof {
                assert(crate::tree::views_of::<Vec<char>>(out@) =~= crate::tree::views_of::<
                    Vec<char>,
                >(prev_out).push(strip_cr(cs@.subrange(l0, j as int))));
                assert(lines_from(cs@, l0) =~= seq![strip_cr(cs@.subrange(l0, j as int))]
                    + lines_from(cs@, j + 1));
                assert(crate::tree::views_of::<Vec<char>>(prev_out) + lines_from(cs@, l0)
                    =~= crate::tree::views_of::<Vec<char>>(out@) + lines_from(cs@, j + 1));
            }
            i = j + 1;
        }
    }
    proof {
        assert(lines_from(cs@, i as int) =~= Seq::<Seq<char>>::empty());
        assert(crate::tree::views_of::<Vec<char>>(out@) + Seq::<Seq<char>>::empty()
            =~= crate::tree::views_of::<Vec<char>>(out@));
    }
    out
}

/// Cleans a whole text at the character level.
pub fn clean_chars(cs: &Vec<char>) -> (r: Vec<char>)
    ensures
        r@ == spec_clean(cs@),
{
    let lines = split_lines(cs);
    let ghost lv = crate::tree::views_of::<Vec<char>>(lines@);
    let mut out: Vec<char> = Vec::new();
    let mut prev_blank: bool = false;
    let mut any_out: bool = false;
    let n = lines.len();
    let mut i: usize = 0;
    proof {
        assert(out@ + clean_lines(lv, 0, false, false) =~= clean_lines(lv, 0, false, false));
    }
    while i < n
        invariant
            n == lines.len(),
            i <= n,
            lv == crate::tree::views_of::<Vec<char>>(lines@),
            lv.len() == n,
            any_out == (out@.len() > 0),
            clean_lines(lv, 0, false, false) == out@ + clean_lines(
                lv,
                i as int,
                prev_blank,
                any_out,
            ),
        decreases n - i,
    {
        proof {
            assert(lv[i as int] == lines@[i as int]@);
        }
        if line_is_blank(&lines[i]) {
            if !prev_blank && any_out {
                out.push('\n');
                proof {
                    let ghost rest = clean_lines(lv, i + 1, true, any_out);
                    assert(out@ + rest =~= (out@.drop_last() + seq!['\n']) + rest);
                }
                prev_blank = true;
            }
        } else {
            let ghost before = out@;
            crate::chars::append_chars(&mut out, &lines[i]);
            out.push('\n');
            proof {
                assert(out@ =~= before + (lv[i as int] + seq!['\n']));
                let ghost rest = clean_lines(lv, i + 1, false, true);
                assert(before + ((lv[i as int] + seq!['\n']) + rest) =~= out@ + rest);
                assert(out@.len() > 0);
            }
            prev_blank = false;
            any_out = true;
        }
        i += 1;
    }
    proof {
        assert(clean_lines(lv, i as int, prev_blank, any_out) =~= Seq::<char>::empty());
        assert(out@ + Seq::<char>::empty() =~= out@);
    }
    let mut end = out.len();
    proof {
        assert(out@.take(out@.len() as int) =~= out@);
    }
    while end > 0 && char_is_ws(out[end - 1])
        invariant
            end <= out.len(),
            trim_end_ws(out@) == trim_end_ws(out@.take(end as int)),
        decreases end,
    {
        proof {
            assert(out@.take(end - 1) =~= out@.take(end as int).drop_last());
            assert(trim_end_ws(out@.take(end as int)) == trim_end_ws(out@.take(end - 1)));
        }
        end -= 1;
    }
    proof {
        assert(trim_end_ws(out@.take(end as int)) == out@.take(end as int));
    }
    out.truncate(end);
    out
}

/// Cleans up a rendered text: collapses runs of blank lines to single blank
/// separators, drops leading blank lines, and trims trailing whitespace.
pub fn clean_whitespace(s: &str) -> (r: String)
    ensures
        r@ == spec_clean(s@),
{
    let cs = str_to_chars(s);
    let cleaned = clean_chars(&cs);
    chars_to_string(&cleaned)
}


// ----------------------------------------------------------------------------
// Laws
// ----------------------------------------------------------------------------

/// Trimming leaves no trailing whitespace.
proof fn lemma_trim_end_no_ws(s: Seq<char>)
    ensures
        trim_end_ws(s).len() == 0 || !is_ws(trim_end_ws(s)[trim_end_ws(s).len() - 1]),
    decreases s.len(),
{
    if s.len() > 0 && is_ws(s.last()) {
        lemma_trim_end_no_ws(s.drop_last());
    }
}

/// The cleaned form of any text ends without trailing whitespace.
pub proof fn lemma_clean_no_trailing_ws(s: Seq<char>)
    ensures
        spec_clean(s).len() == 0 || !is_ws(spec_clean(s)[spec_clean(s).len() - 1]),
{
    lemma_trim_end_no_ws(clean_lines(lines_from(s, 0), 0, false, false));
}

/// Trimming what is already trimmed changes nothing.
pub proof fn lemma_trim_end_idempotent(s: Seq<char>)
    ensures
        trim_end_ws(trim_end_ws(s)) == trim_end_ws(s),
    decreases s.len(),
{
    if s.len() > 0 && is_ws(s.last()) {
        lemma_trim_end_idempotent(s.drop_last());
    }
}


/// A character sequence without newlines.
pub open spec fn nl_free(l: Seq<char>) -> bool {
    forall|m: int| 0 <= m < l.len() ==> l[m] != '\n'
}

/// No run of three newlines: at most one blank line between content lines.
pub open spec fn no_triple_nl(r: Seq<char>) -> bool {
    forall|k: int|
        0 <= k && k + 2 < r.len() ==> !(#[trigger] r[k] == '\n' && r[k + 1] == '\n' && r[k + 2]
            == '\n')
}

/// At most one newline at the very start.
pub open spec fn at_most_one_lead_nl(r: Seq<char>) -> bool {
    r.len() >= 2 ==> !(r[0] == '\n' && r[1] == '\n')
}

/// Everything before the found newline is not a newline.
proof fn lemma_find_nl_first(s: Seq<char>, i: int)
    requires
        0 <= i <= s.len(),
    ensures
        forall|m: int| i <= m < find_nl(s, i) ==> s[m] != '\n',
    decreases s.len() - i,
{
    if i < s.len() && s[i] != '\n' {
        lemma_find_nl_first(s, i + 1);
        assert forall|m: int| i <= m < find_nl(s, i) implies s[m] != '\n' by {
            if m > i {
                assert(find_nl(s, i) == find_nl(s, i + 1));
            }
        }
    }
}

/// Every line the splitter yields is free of newlines.
proof fn lemma_lines_nl_free(s: Seq<char>, i: int)
    requires
        0 <= i,
    ensures
        forall|k: int| 0 <= k < lines_from(s, i).len() ==> nl_free(#[trigger] lines_from(s, i)[k]),
    decreases s.len() - i,
{
    if 0 <= i < s.len() {
        let j = find_nl(s, i);
        lemma_find_nl_range(s, i);
        lemma_find_nl_first(s, i);
        if j >= s.len() {
            assert(nl_free(s.subrange(i, s.len() as int)));
        } else {
            let head = strip_cr(s.subrange(i, j));
            assert(nl_free(s.subrange(i, j)));
            assert(nl_free(head));
            lemma_lines_nl_free(s, j + 1);
            assert forall|k: int| 0 <= k < lines_from(s, i).len() implies nl_free(
                #[trigger] lines_from(s, i)[k],
            ) by {
                if k > 0 {
                    assert(lines_from(s, i)[k] == lines_from(s, j + 1)[k - 1]);
                }
            }
        }
    }
}

/// The cleanup pass emits no leading newline after content has started or
/// when none has, no double newline at its start, and no newline triple
/// anywhere.
proof fn lemma_clean_lines_shape(ls: Seq<Seq<char>>, i: int, prev_blank: bool, any_out: bool)
    requires
        0 <= i,
        forall|k: int| 0 <= k < ls.len() ==> nl_free(#[trigger] ls[k]),
    ensures
        no_triple_nl(clean_lines(ls, i, prev_blank, any_out)),
        at_most_one_lead_nl(clean_lines(ls, i, prev_blank, any_out)),
        prev_blank ==> (clean_lines(ls, i, prev_blank, any_out).len() > 0 ==> clean_lines(
            ls,
            i,
            prev_blank,
            any_out,
        )[0] != '\n'),
        !any_out ==> (clean_lines(ls, i, prev_blank, any_out).len() > 0 ==> clean_lines(
            ls,
            i,
            prev_blank,
            any_out,
        )[0] != '\n'),
    decreases ls.len() - i,
{
    if i < ls.len() {
        let r = clean_lines(ls, i, prev_blank, any_out);
        if line_blank(ls[i]) {
            if !prev_blank && any_out {
                let rest = clean_lines(ls, i + 1, true, any_out);
                lemma_clean_lines_shape(ls, i + 1, true, any_out);
                assert(r == seq!['\n'] + rest);
                assert(r[0] == '\n');
                assert forall|k: int|
                    0 <= k && k + 2 < r.len() implies !(#[trigger] r[k] == '\n' && r[k + 1]
                    == '\n' && r[k + 2] == '\n') by {
                    if k == 0 {
                        assert(r[1] == rest[0]);
                    } else {
                        assert(r[k] == rest[k - 1]);
                        assert(r[k + 1] == rest[k]);
                        assert(r[k + 2] == rest[k + 1]);
                    }
                }
            } else {
                lemma_clean_lines_shape(ls, i + 1, prev_blank, any_out);
            }
        } else {
            let l = ls[i];
            let rest = clean_lines(ls, i + 1, false, true);
            lemma_clean_lines_shape(ls, i + 1, false, true);
            assert(r == l + seq!['\n'] + rest);
            assert(!line_blank(l));
            assert(l.len() > 0) by {
                if l.len() == 0 {
                    assert(line_blank(l));
                }
            }
            assert(nl_free(l));
            assert((l + seq!['\n'])[0] == l[0]);
            assert(r[0] == l[0]);
            assert(r[0] != '\n');
            assert forall|k: int|
                0 <= k && k + 2 < r.len() implies !(#[trigger] r[k] == '\n' && r[k + 1] == '\n'
                && r[k + 2] == '\n') by {
                let ll = l.len() as int;
                if k + 2 < ll {
                    assert(r[k] == l[k]);
                } else if k < ll {
                    // The window touches the line's last characters, which
                    // are not newlines.
                    if k + 2 == ll {
                        assert(r[k] == l[k]);
                    } else if k + 1 == ll {
                        assert(r[k] == l[k]);
                    } else {
                        // k == ll: the separating newline, then the tail.
                        assert(r[k + 1] == rest[0]);
                        assert(r[k + 2] == rest[1]);
                        if rest.len() >= 2 && rest[0] == '\n' {
                            assert(!(rest[0] == '\n' && rest[1] == '\n'));
                        }
                    }
                } else if k == ll {
                    assert(r[k + 1] == rest[0]);
                    assert(r[k + 2] == rest[1]);
                    if rest.len() >= 2 && rest[0] == '\n' {
                        assert(!(rest[0] == '\n' && rest[1] == '\n'));
                    }
                } else {
                    assert(r[k] == rest[k - ll - 1]);
                    assert(r[k + 1] == rest[k - ll]);
                    assert(r[k + 2] == rest[k - ll + 1]);
                }
            }
        }
    }
}

/// Trimming yields a prefix.
proof fn lemma_trim_end_prefix(s: Seq<char>)
    ensures
        trim_end_ws(s).len() <= s.len(),
        forall|k: int| 0 <= k < trim_end_ws(s).len() ==> #[trigger] trim_end_ws(s)[k] == s[k],
    decreases s.len(),
{
    if s.len() > 0 && is_ws(s.last()) {
        lemma_trim_end_prefix(s.drop_last());
    }
}

/// The cleaned form of any text holds no run of two blank lines: no three
/// consecutive newlines, and not even two at its very start.
pub proof fn lemma_clean_no_blank_run(s: Seq<char>)
    ensures
        no_triple_nl(spec_clean(s)),
        at_most_one_lead_nl(spec_clean(s)),
{
    lemma_lines_nl_free(s, 0);
    lemma_clean_lines_shape(lines_from(s, 0), 0, false, false);
    let pre = clean_lines(lines_from(s, 0), 0, false, false);
    lemma_trim_end_prefix(pre);
    let r = spec_clean(s);
    assert forall|k: int|
        0 <= k && k + 2 < r.len() implies !(#[trigger] r[k] == '\n' && r[k + 1] == '\n' && r[k
        + 2] == '\n') by {
        assert(r[k] == pre[k]);
        assert(r[k + 1] == pre[k + 1]);
        assert(r[k + 2] == pre[k + 2]);
    }
    if r.len() >= 2 {
        assert(r[0] == pre[0]);
        assert(r[1] == pre[1]);
    }
}

/// The cleaned form of any text never begins with a blank line.
pub proof fn lemma_clean_no_leading_newline(s: Seq<char>)
    ensures
        spec_clean(s).len() > 0 ==> spec_clean(s)[0] != '\n',
{
    lemma_lines_nl_free(s, 0);
    lemma_clean_lines_shape(lines_from(s, 0), 0, false, false);
    let pre = clean_lines(lines_from(s, 0), 0, false, false);
    lemma_trim_end_prefix(pre);
    if spec_clean(s).len() > 0 {
        assert(spec_clean(s)[0] == pre[0]);
    }
}

} // verus!
