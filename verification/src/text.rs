//! Character-level ground work for the DSL parser: whitespace splitting of a
//! line into tokens, splitting of input text into lines, and decimal numbers.
//!
//! The spec functions here are the mathematical model that the parser's
//! contracts are stated over; the exec functions are proved against them.

use vstd::prelude::*;

verus! {

/// Characters that separate tokens within one line.  A carriage return is
/// treated as blank so that input with Windows line endings parses cleanly.
pub open spec fn is_blank(c: char) -> bool {
    c == ' ' || c == '\t' || c == '\r'
}

/// Length of the longest all-blank prefix of `s`.
pub open spec fn blank_len(s: Seq<char>) -> nat
    decreases s.len(),
{
    if s.len() > 0 && is_blank(s[0]) {
        (1 + blank_len(s.drop_first())) as nat
    } else {
        0
    }
}

/// Length of the longest prefix of `s` without a blank character.
pub open spec fn word_len(s: Seq<char>) -> nat
    decreases s.len(),
{
    if s.len() > 0 && !is_blank(s[0]) {
        (1 + word_len(s.drop_first())) as nat
    } else {
        0
    }
}

pub proof fn lemma_blank_len(s: Seq<char>)
    ensures
        blank_len(s) <= s.len(),
        forall|k: int| 0 <= k < blank_len(s) ==> is_blank(#[trigger] s[k]),
        blank_len(s) < s.len() ==> !is_blank(s[blank_len(s) as int]),
    decreases s.len(),
{
    if s.len() > 0 && is_blank(s[0]) {
        lemma_blank_len(s.drop_first());
        assert forall|k: int| 0 <= k < blank_len(s) implies is_blank(#[trigger] s[k]) by {
            if k > 0 {
                assert(s[k] == s.drop_first()[k - 1]);
            }
        }
        if blank_len(s) < s.len() {
            assert(s[blank_len(s) as int] == s.drop_first()[blank_len(s.drop_first()) as int]);
        }
    }
}

pub proof fn lemma_word_len(s: Seq<char>)
    ensures
        word_len(s) <= s.len(),
        forall|k: int| 0 <= k < word_len(s) ==> !is_blank(#[trigger] s[k]),
        word_len(s) < s.len() ==> is_blank(s[word_len(s) as int]),
    decreases s.len(),
{
    if s.len() > 0 && !is_blank(s[0]) {
        lemma_word_len(s.drop_first());
        assert forall|k: int| 0 <= k < word_len(s) implies !is_blank(#[trigger] s[k]) by {
            if k > 0 {
                assert(s[k] == s.drop_first()[k - 1]);
            }
        }
        if word_len(s) < s.len() {
            assert(s[word_len(s) as int] == s.drop_first()[word_len(s.drop_first()) as int]);
        }
    }
}

/// The converse of `lemma_blank_len`: a prefix that scans as blank up to a
/// boundary pins the value of `blank_len`.
pub proof fn lemma_blank_len_is(s: Seq<char>, n: int)
    requires
        0 <= n <= s.len(),
        forall|k: int| 0 <= k < n ==> is_blank(#[trigger] s[k]),
        n < s.len() ==> !is_blank(s[n]),
    ensures
        blank_len(s) == n,
    decreases s.len(),
{
    if s.len() > 0 && is_blank(s[0]) {
        lemma_blank_len_is(s.drop_first(), n - 1);
    }
}

pub proof fn lemma_word_len_is(s: Seq<char>, n: int)
    requires
        0 <= n <= s.len(),
        forall|k: int| 0 <= k < n ==> !is_blank(#[trigger] s[k]),
        n < s.len() ==> is_blank(s[n]),
    ensures
        word_len(s) == n,
    decreases s.len(),
{
    if s.len() > 0 && !is_blank(s[0]) {
        lemma_word_len_is(s.drop_first(), n - 1);
    }
}

/// The blank-separated tokens of one line, in order.
pub open spec fn tokens_of(s: Seq<char>) -> Seq<Seq<char>>
    decreases s.len(), via tokens_of_decreases
{
    if blank_len(s) == s.len() {
        Seq::empty()
    } else {
        let rest = s.skip(blank_len(s) as int);
        seq![rest.take(word_len(rest) as int)] + tokens_of(rest.skip(word_len(rest) as int))
    }
}

#[via_fn]
proof fn tokens_of_decreases(s: Seq<char>) {
    lemma_blank_len(s);
    if blank_len(s) != s.len() {
        let rest = s.skip(blank_len(s) as int);
        lemma_word_len(rest);
        assert(!is_blank(rest[0]));
        assert(word_len(rest) >= 1);
    }
}

/// Every token produced by `tokens_of` is non-empty and free of blanks.
pub proof fn lemma_tokens_wf(s: Seq<char>)
    ensures
        forall|i: int|
            0 <= i < tokens_of(s).len() ==> (#[trigger] tokens_of(s)[i]).len() > 0
                && forall|k: int| 0 <= k < tokens_of(s)[i].len() ==> !is_blank(
                #[trigger] tokens_of(s)[i][k],
            ),
    decreases s.len(),
{
    lemma_blank_len(s);
    if blank_len(s) != s.len() {
        let rest = s.skip(blank_len(s) as int);
        lemma_word_len(rest);
        lemma_tokens_wf(rest.skip(word_len(rest) as int));
        let first = rest.take(word_len(rest) as int);
        assert(!is_blank(rest[0]));
        assert(first.len() > 0);
        assert(forall|k: int| 0 <= k < first.len() ==> !is_blank(#[trigger] first[k]));
        assert forall|i: int|
            0 <= i < tokens_of(s).len() implies (#[trigger] tokens_of(s)[i]).len() > 0
            && forall|k: int| 0 <= k < tokens_of(s)[i].len() ==> !is_blank(
            #[trigger] tokens_of(s)[i][k],
        ) by {
            if i > 0 {
                assert(tokens_of(s)[i] == tokens_of(rest.skip(word_len(rest) as int))[i - 1]);
            }
        }
    }
}

fn blank(c: char) -> (r: bool)
    ensures
        r == is_blank(c),
{
    c == ' ' || c == '\t' || c == '\r'
}

/// First position at or after `i` holding a non-blank character, or `n`.
fn scan_blanks(line: &str, n: usize, i: usize) -> (j: usize)
    requires
        n == line@.len(),
        i <= n,
    ensures
        i <= j <= n,
        blank_len(line@.skip(i as int)) == j - i,
{
    let mut j = i;
    while j < n && blank(line.get_char(j))
        invariant
            n == line@.len(),
            i <= j <= n,
            forall|m: int| i <= m < j ==> is_blank(#[trigger] line@[m]),
        decreases n - j,
    {
        j = j + 1;
    }
    proof {
        assert forall|k: int| 0 <= k < j - i implies is_blank(
            #[trigger] line@.skip(i as int)[k],
        ) by {
            assert(line@.skip(i as int)[k] == line@[i + k]);
        }
        if (j as int) - (i as int) < line@.skip(i as int).len() {
            assert(line@.skip(i as int)[j - i] == line@[j as int]);
        }
        lemma_blank_len_is(line@.skip(i as int), j - i);
    }
    j
}

/// First position at or after `i` holding a blank character, or `n`.
fn scan_word(line: &str, n: usize, i: usize) -> (j: usize)
    requires
        n == line@.len(),
        i <= n,
    ensures
        i <= j <= n,
        word_len(line@.skip(i as int)) == j - i,
{
    let mut j = i;
    while j < n && !blank(line.get_char(j))
        invariant
            n == line@.len(),
            i <= j <= n,
            forall|m: int| i <= m < j ==> !is_blank(#[trigger] line@[m]),
        decreases n - j,
    {
        j = j + 1;
    }
    proof {
        assert forall|k: int| 0 <= k < j - i implies !is_blank(
            #[trigger] line@.skip(i as int)[k],
        ) by {
            assert(line@.skip(i as int)[k] == line@[i + k]);
        }
        if (j as int) - (i as int) < line@.skip(i as int).len() {
            assert(line@.skip(i as int)[j - i] == line@[j as int]);
        }
        lemma_word_len_is(line@.skip(i as int), j - i);
    }
    j
}

/// Splits one line into its blank-separated tokens.
pub fn tokenize(line: &str) -> (toks: Vec<String>)
    ensures
        toks.deep_view() == tokens_of(line@),
{
    let n = line.unicode_len();
    let mut toks: Vec<String> = Vec::new();
    let mut i: usize = 0;
    proof {
        assert(line@.skip(0) =~= line@);
    }
    while i < n
        invariant
            n == line@.len(),
            i <= n,
            tokens_of(line@) == toks.deep_view() + tokens_of(line@.skip(i as int)),
        decreases n - i,
    {
        let j = scan_blanks(line, n, i);
        if j == n {
            proof {
                assert(line@.skip(i as int).len() == n - i);
                assert(tokens_of(line@.skip(i as int)) =~= Seq::<Seq<char>>::empty());
                assert(tokens_of(line@) =~= toks.deep_view());
            }
            i = n;
        } else {
            let k = scan_word(line, n, j);
            let tok = line.substring_char(j, k).to_owned();
            let ghost old_toks = toks.deep_view();
            toks.push(tok);
            proof {
                let s_i = line@.skip(i as int);
                let rest = s_i.skip(blank_len(s_i) as int);
                assert(rest =~= line@.skip(j as int));
                assert(word_len(rest) == k - j);
                assert(rest.take(word_len(rest) as int) =~= line@.subrange(j as int, k as int));
                assert(rest.skip(word_len(rest) as int) =~= line@.skip(k as int));
                assert(tokens_of(s_i) == seq![line@.subrange(j as int, k as int)] + tokens_of(
                    line@.skip(k as int),
                ));
                assert(toks.deep_view() =~= old_toks + seq![line@.subrange(j as int, k as int)]);
                assert(tokens_of(line@) =~= toks.deep_view() + tokens_of(line@.skip(k as int)));
            }
            i = k;
        }
    }
    proof {
        assert(line@.skip(i as int).len() == 0);
        assert(tokens_of(line@.skip(i as int)) =~= Seq::<Seq<char>>::empty());
        assert(tokens_of(line@) =~= toks.deep_view());
    }
    toks
}

/// Length of the first line of `s`: the prefix before the first newline.
pub open spec fn line_len(s: Seq<char>) -> nat
    decreases s.len(),
{
    if s.len() > 0 && s[0] != '\n' {
        (1 + line_len(s.drop_first())) as nat
    } else {
        0
    }
}

pub proof fn lemma_line_len(s: Seq<char>)
    ensures
        line_len(s) <= s.len(),
        forall|k: int| 0 <= k < line_len(s) ==> #[trigger] s[k] != '\n',
        line_len(s) < s.len() ==> s[line_len(s) as int] == '\n',
    decreases s.len(),
{
    if s.len() > 0 && s[0] != '\n' {
        lemma_line_len(s.drop_first());
        assert forall|k: int| 0 <= k < line_len(s) implies #[trigger] s[k] != '\n' by {
            if k > 0 {
                assert(s[k] == s.drop_first()[k - 1]);
            }
        }
        if line_len(s) < s.len() {
            assert(s[line_len(s) as int] == s.drop_first()[line_len(s.drop_first()) as int]);
        }
    }
}

pub proof fn lemma_line_len_is(s: Seq<char>, n: int)
    requires
        0 <= n <= s.len(),
        forall|k: int| 0 <= k < n ==> #[trigger] s[k] != '\n',
        n < s.len() ==> s[n] == '\n',
    ensures
        line_len(s) == n,
    decreases s.len(),
{
    if s.len() > 0 && s[0] != '\n' {
        lemma_line_len_is(s.drop_first(), n - 1);
    }
}

/// The lines of `s`, split on `'\n'`.  There is always at least one line;
/// a trailing newline contributes a final empty line, as `str::split` does.
pub open spec fn split_lines(s: Seq<char>) -> Seq<Seq<char>>
    decreases s.len(), via split_lines_decreases
{
    let l = line_len(s) as int;
    if l == s.len() {
        seq![s]
    } else {
        seq![s.take(l)] + split_lines(s.skip(l + 1))
    }
}

#[via_fn]
proof fn split_lines_decreases(s: Seq<char>) {
    lemma_line_len(s);
}

/// The inverse of `split_lines`: the lines joined with `'\n'` between them.
pub open spec fn join_lines(ls: Seq<Seq<char>>) -> Seq<char>
    decreases ls.len(),
{
    if ls.len() == 0 {
        Seq::empty()
    } else if ls.len() == 1 {
        ls[0]
    } else {
        ls[0] + seq!['\n'] + join_lines(ls.drop_first())
    }
}

pub proof fn lemma_join_lines_push(ls: Seq<Seq<char>>, x: Seq<char>)
    ensures
        join_lines(ls.push(x)) == if ls.len() == 0 {
            x
        } else {
            join_lines(ls) + seq!['\n'] + x
        },
    decreases ls.len(),
{
    if ls.len() == 0 {
        assert(ls.push(x)[0] =~= x);
        assert(join_lines(ls.push(x)) == x);
    } else if ls.len() == 1 {
        assert(ls.push(x).drop_first() =~= seq![x]);
        assert(join_lines(seq![x]) == seq![x][0]);
        assert(seq![x][0] == x);
        assert(ls.push(x)[0] == ls[0]);
        assert(join_lines(ls.push(x)) == ls.push(x)[0] + seq!['\n'] + join_lines(
            ls.push(x).drop_first(),
        ));
        assert(join_lines(ls.push(x)) == ls[0] + seq!['\n'] + x);
        assert(join_lines(ls) == ls[0]);
    } else {
        lemma_join_lines_push(ls.drop_first(), x);
        assert(ls.push(x).drop_first() =~= ls.drop_first().push(x));
    }
}

fn not_newline(c: char) -> (r: bool)
    ensures
        r == (c != '\n'),
{
    c != '\n'
}

/// First position at or after `i` holding a newline, or `n`.
fn scan_line(input: &str, n: usize, i: usize) -> (j: usize)
    requires
        n == input@.len(),
        i <= n,
    ensures
        i <= j <= n,
        line_len(input@.skip(i as int)) == j - i,
{
    let mut j = i;
    while j < n && not_newline(input.get_char(j))
        invariant
            n == input@.len(),
            i <= j <= n,
            forall|m: int| i <= m < j ==> #[trigger] input@[m] != '\n',
        decreases n - j,
    {
        j = j + 1;
    }
    proof {
        assert forall|k: int| 0 <= k < j - i implies #[trigger] input@.skip(i as int)[k]
            != '\n' by {
            assert(input@.skip(i as int)[k] == input@[i + k]);
        }
        if (j as int) - (i as int) < input@.skip(i as int).len() {
            assert(input@.skip(i as int)[j - i] == input@[j as int]);
        }
        lemma_line_len_is(input@.skip(i as int), j - i);
    }
    j
}

/// Splits input text into its lines, on `'\n'`.
pub fn split_into_lines(input: &str) -> (lines: Vec<String>)
    ensures
        lines.deep_view() == split_lines(input@),
        lines@.len() > 0,
{
    let n = input.unicode_len();
    let mut lines: Vec<String> = Vec::new();
    let mut i: usize = 0;
    let mut more = true;
    proof {
        assert(input@.skip(0) =~= input@);
    }
    while more
        invariant
            n == input@.len(),
            more ==> i <= n,
            more ==> split_lines(input@) == lines.deep_view() + split_lines(
                input@.skip(i as int),
            ),
            !more ==> split_lines(input@) == lines.deep_view(),
            !more ==> lines@.len() > 0,
        decreases n - i + (if more { 1int } else { 0int }),
    {
        let j = scan_line(input, n, i);
        let line = input.substring_char(i, j).to_owned();
        let ghost old_lines = lines.deep_view();
        lines.push(line);
        proof {
            let s_i = input@.skip(i as int);
            assert(s_i.take((j - i) as int) =~= input@.subrange(i as int, j as int));
            assert(lines.deep_view() =~= old_lines + seq![input@.subrange(i as int, j as int)]);
        }
        if j == n {
            proof {
                let s_i = input@.skip(i as int);
                assert(s_i =~= input@.subrange(i as int, j as int));
                assert(split_lines(s_i) == seq![s_i]);
                assert(split_lines(input@) =~= lines.deep_view());
            }
            more = false;
        } else {
            proof {
                let s_i = input@.skip(i as int);
                let l = line_len(s_i) as int;
                assert(s_i.skip(l + 1) =~= input@.skip(j + 1));
                assert(split_lines(s_i) == seq![input@.subrange(i as int, j as int)]
                    + split_lines(input@.skip(j + 1)));
                assert(split_lines(input@) =~= lines.deep_view() + split_lines(
                    input@.skip(j + 1),
                ));
            }
            i = j + 1;
        }
    }
    lines
}

/// Joins `lines[start..]` back together with `'\n'`, undoing `split_into_lines`.
pub fn join_from(lines: &Vec<String>, start: usize) -> (out: String)
    requires
        start <= lines@.len(),
    ensures
        out@ == join_lines(lines.deep_view().skip(start as int)),
{
    let mut out = String::new();
    let mut i = start;
    while i < lines.len()
        invariant
            start <= i <= lines@.len(),
            out@ == join_lines(lines.deep_view().subrange(start as int, i as int)),
        decreases lines@.len() - i,
    {
        if i > start {
            out.append("\n");
            proof {
                reveal_strlit("\n");
                assert("\n"@ =~= seq!['\n']);
            }
        }
        out.append(lines[i].as_str());
        proof {
            let deep = lines.deep_view();
            let prev = deep.subrange(start as int, i as int);
            lemma_join_lines_push(prev, deep[i as int]);
            assert(deep.subrange(start as int, i + 1) =~= prev.push(deep[i as int]));
        }
        i = i + 1;
    }
    proof {
        assert(lines.deep_view().subrange(start as int, lines.deep_view().len() as int)
            =~= lines.deep_view().skip(start as int));
    }
    out
}

/// Characters that trimming removes: line blanks and the newline itself.
pub open spec fn is_space(c: char) -> bool {
    is_blank(c) || c == '\n'
}

/// Whether text trims away to nothing.
pub open spec fn all_space(s: Seq<char>) -> bool {
    forall|k: int| 0 <= k < s.len() ==> is_space(#[trigger] s[k])
}

/// Whether `s` is empty after trimming.
pub fn str_all_space(s: &str) -> (r: bool)
    ensures
        r == all_space(s@),
{
    let n = s.unicode_len();
    let mut i: usize = 0;
    while i < n
        invariant
            n == s@.len(),
            i <= n,
            forall|k: int| 0 <= k < i ==> is_space(#[trigger] s@[k]),
        decreases n - i,
    {
        let c = s.get_char(i);
        if !(c == ' ' || c == '\t' || c == '\r' || c == '\n') {
            return false;
        }
        i = i + 1;
    }
    true
}

pub open spec fn is_digit(c: char) -> bool {
    '0' as u32 <= c as u32 && c as u32 <= '9' as u32
}

pub open spec fn digit_val(c: char) -> nat {
    (c as u32 - '0' as u32) as nat
}

/// A non-empty run of decimal digits: the only form the DSL accepts for the
/// `ttl` and `priority` fields.
pub open spec fn all_digits(s: Seq<char>) -> bool {
    s.len() > 0 && forall|k: int| 0 <= k < s.len() ==> is_digit(#[trigger] s[k])
}

/// The value of a digit string read as a decimal number.
pub open spec fn dec_val(s: Seq<char>) -> nat
    decreases s.len(),
{
    if s.len() == 0 {
        0
    } else {
        dec_val(s.drop_last()) * 10 + digit_val(s.last())
    }
}

/// A longer digit string never has a smaller value than its prefix.
proof fn lemma_dec_val_prefix_le(s: Seq<char>, j: int)
    requires
        0 <= j <= s.len(),
    ensures
        dec_val(s.take(j)) <= dec_val(s),
    decreases s.len() - j,
{
    if j < s.len() {
        lemma_dec_val_prefix_le(s, j + 1);
        assert(s.take(j + 1).drop_last() =~= s.take(j));
        assert(dec_val(s.take(j + 1)) == dec_val(s.take(j)) * 10 + digit_val(s.take(j + 1).last()));
    } else {
        assert(s.take(j) =~= s);
    }
}

/// Reads a token as a non-negative decimal integer.  Returns `None` when the
/// token is empty, holds a non-digit, or does not fit in `usize`.
pub fn parse_usize(tok: &str) -> (r: Option<usize>)
    ensures
        match r {
            Some(v) => all_digits(tok@) && v == dec_val(tok@),
            None => !(all_digits(tok@) && dec_val(tok@) <= usize::MAX),
        },
{
    let n = tok.unicode_len();
    if n == 0 {
        return None;
    }
    let mut val: usize = 0;
    let mut i: usize = 0;
    while i < n
        invariant
            n == tok@.len(),
            0 < n,
            i <= n,
            forall|k: int| 0 <= k < i ==> is_digit(#[trigger] tok@[k]),
            val == dec_val(tok@.take(i as int)),
        decreases n - i,
    {
        let c = tok.get_char(i);
        let cu = c as u32;
        if cu < '0' as u32 || cu > '9' as u32 {
            proof {
                assert(!is_digit(tok@[i as int]));
            }
            return None;
        }
        let d = (cu - '0' as u32) as usize;
        let shifted = match val.checked_mul(10) {
            Some(s) => s,
            None => {
                proof {
                    overflow_means_too_big(tok@, i as int);
                }
                return None;
            },
        };
        let next = match shifted.checked_add(d) {
            Some(s) => s,
            None => {
                proof {
                    overflow_means_too_big(tok@, i as int);
                }
                return None;
            },
        };
        proof {
            assert(tok@.take(i + 1).drop_last() =~= tok@.take(i as int));
            assert(tok@.take(i + 1).last() == tok@[i as int]);
        }
        val = next;
        i = i + 1;
    }
    proof {
        assert(tok@.take(n as int) =~= tok@);
    }
    Some(val)
}

/// When one more digit no longer fits in `usize`, the whole string's value
/// is out of range as well.
proof fn overflow_means_too_big(s: Seq<char>, i: int)
    requires
        0 <= i < s.len(),
        is_digit(s[i]),
        dec_val(s.take(i)) * 10 + digit_val(s[i]) > usize::MAX,
    ensures
        dec_val(s) > usize::MAX,
{
    assert(s.take(i + 1).drop_last() =~= s.take(i));
    assert(s.take(i + 1).last() == s[i]);
    assert(dec_val(s.take(i + 1)) == dec_val(s.take(i)) * 10 + digit_val(s[i]));
    lemma_dec_val_prefix_le(s, i + 1);
}


} // verus!
