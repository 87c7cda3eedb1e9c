use vstd::prelude::*;

verus! {

/// ASCII whitespace, the separator class used when tokenizing a request line.
pub open spec fn is_ws(c: char) -> bool {
    c == ' ' || c == '\t' || c == '\n' || c == '\r' || c == '\u{c}'
}

/// Index of the first newline in `s`, or `s.len()` when there is none.
pub open spec fn find_nl(s: Seq<char>) -> int
    decreases s.len(),
{
    if s.len() == 0 {
        0
    } else if s[0] == '\n' {
        0
    } else {
        1 + find_nl(s.drop_first())
    }
}

pub proof fn lemma_find_nl_bounds(s: Seq<char>)
    ensures
        0 <= find_nl(s) <= s.len(),
        find_nl(s) < s.len() ==> s[find_nl(s)] == '\n',
        forall|k: int| 0 <= k < find_nl(s) ==> s[k] != '\n',
    decreases s.len(),
{
    if s.len() > 0 && s[0] != '\n' {
        lemma_find_nl_bounds(s.drop_first());
        assert forall|k: int| 0 <= k < find_nl(s) implies s[k] != '\n' by {
            if k > 0 {
                assert(s.drop_first()[k - 1] != '\n');
            }
        }
    }
}

/// `find_nl` is the one index that is a newline with none before it (or the
/// length when no newline occurs at all).
pub proof fn lemma_find_nl_is(s: Seq<char>, i: int)
    requires
        0 <= i <= s.len(),
        forall|k: int| 0 <= k < i ==> s[k] != '\n',
        i < s.len() ==> s[i] == '\n',
    ensures
        find_nl(s) == i,
    decreases s.len(),
{
    if i == 0 {
        if s.len() > 0 && s[0] != '\n' {
            assert(i < s.len());
        }
    } else {
        assert(s[0] != '\n');
        lemma_find_nl_is(s.drop_first(), i - 1);
    }
}

/// Index of the first character of `s` that is not ASCII whitespace, or
/// `s.len()` when all of it is.
pub open spec fn find_non_ws(s: Seq<char>) -> int
    decreases s.len(),
{
    if s.len() == 0 {
        0
    } else if !is_ws(s[0]) {
        0
    } else {
        1 + find_non_ws(s.drop_first())
    }
}

pub proof fn lemma_find_non_ws_bounds(s: Seq<char>)
    ensures
        0 <= find_non_ws(s) <= s.len(),
        find_non_ws(s) < s.len() ==> !is_ws(s[find_non_ws(s)]),
        forall|k: int| 0 <= k < find_non_ws(s) ==> is_ws(s[k]),
    decreases s.len(),
{
    if s.len() > 0 && is_ws(s[0]) {
        lemma_find_non_ws_bounds(s.drop_first());
        assert forall|k: int| 0 <= k < find_non_ws(s) implies is_ws(s[k]) by {
            if k > 0 {
                assert(is_ws(s.drop_first()[k - 1]));
            }
        }
    }
}

pub proof fn lemma_find_non_ws_is(s: Seq<char>, i: int)
    requires
        0 <= i <= s.len(),
        forall|k: int| 0 <= k < i ==> is_ws(s[k]),
        i < s.len() ==> !is_ws(s[i]),
    ensures
        find_non_ws(s) == i,
    decreases s.len(),
{
    if i == 0 {
        if s.len() > 0 && is_ws(s[0]) {
            assert(i < s.len());
        }
    } else {
        assert(is_ws(s[0]));
        lemma_find_non_ws_is(s.drop_first(), i - 1);
    }
}

/// Index of the first ASCII whitespace character of `s`, or `s.len()` when
/// there is none.
pub open spec fn find_ws(s: Seq<char>) -> int
    decreases s.len(),
{
    if s.len() == 0 {
        0
    } else if is_ws(s[0]) {
        0
    } else {
        1 + find_ws(s.drop_first())
    }
}

pub proof fn lemma_find_ws_bounds(s: Seq<char>)
    ensures
        0 <= find_ws(s) <= s.len(),
        find_ws(s) < s.len() ==> is_ws(s[find_ws(s)]),
        forall|k: int| 0 <= k < find_ws(s) ==> !is_ws(s[k]),
    decreases s.len(),
{
    if s.len() > 0 && !is_ws(s[0]) {
        lemma_find_ws_bounds(s.drop_first());
        assert forall|k: int| 0 <= k < find_ws(s) implies !is_ws(s[k]) by {
            if k > 0 {
                assert(!is_ws(s.drop_first()[k - 1]));
            }
        }
    }
}

pub proof fn lemma_find_ws_is(s: Seq<char>, i: int)
    requires
        0 <= i <= s.len(),
        forall|k: int| 0 <= k < i ==> !is_ws(s[k]),
        i < s.len() ==> is_ws(s[i]),
    ensures
        find_ws(s) == i,
    decreases s.len(),
{
    if i == 0 {
        if s.len() > 0 && !is_ws(s[0]) {
            assert(i < s.len());
        }
    } else {
        assert(!is_ws(s[0]));
        lemma_find_ws_is(s.drop_first(), i - 1);
    }
}

/// The whitespace-separated tokens of `s`, in order; runs of whitespace act
/// as one separator and contribute no empty tokens.
pub open spec fn tokens(s: Seq<char>) -> Seq<Seq<char>>
    decreases s.len(),
    via tokens_decreases
{
    let i = find_non_ws(s);
    if i == s.len() {
        Seq::empty()
    } else {
        let rest = s.skip(i);
        let j = find_ws(rest);
        seq![rest.take(j)] + tokens(rest.skip(j))
    }
}

#[via_fn]
proof fn tokens_decreases(s: Seq<char>) {
    lemma_find_non_ws_bounds(s);
    if find_non_ws(s) < s.len() {
        lemma_find_ws_bounds(s.skip(find_non_ws(s)));
        assert(find_ws(s.skip(find_non_ws(s))) >= 1);
    }
}

/// A sequence of nothing but whitespace has no tokens.
pub proof fn lemma_tokens_all_ws(s: Seq<char>)
    requires
        forall|k: int| 0 <= k < s.len() ==> is_ws(s[k]),
    ensures
        tokens(s) =~= Seq::<Seq<char>>::empty(),
{
    lemma_find_non_ws_is(s, s.len() as int);
}

/// Unfolds `tokens` by one token: with whitespace up to `i`, a token from `i`
/// to `j`, and whitespace (or the end) at `j`, the tokens of `s` are
/// `s[i..j]` followed by the tokens of the rest.
pub proof fn lemma_tokens_step(s: Seq<char>, i: int, j: int)
    requires
        0 <= i < j <= s.len(),
        forall|k: int| 0 <= k < i ==> is_ws(s[k]),
        forall|k: int| i <= k < j ==> !is_ws(s[k]),
        j < s.len() ==> is_ws(s[j]),
    ensures
        tokens(s) =~= seq![s.subrange(i, j)] + tokens(s.skip(j)),
{
    lemma_find_non_ws_is(s, i);
    let rest = s.skip(i);
    lemma_find_ws_is(rest, j - i);
    assert(rest.take(j - i) =~= s.subrange(i, j));
    assert(rest.skip(j - i) =~= s.skip(j));
}

/// The lines of `s`, split on the newline character. Splitting always yields
/// at least one (possibly empty) line; the separators themselves are dropped.
pub open spec fn line_split(s: Seq<char>) -> Seq<Seq<char>>
    decreases s.len(),
    via line_split_decreases
{
    let i = find_nl(s);
    if i == s.len() {
        seq![s]
    } else {
        seq![s.take(i)] + line_split(s.skip(i + 1))
    }
}

#[via_fn]
proof fn line_split_decreases(s: Seq<char>) {
    lemma_find_nl_bounds(s);
}

pub proof fn lemma_line_split_nonempty(s: Seq<char>)
    ensures
        line_split(s).len() >= 1,
{
    lemma_find_nl_bounds(s);
}

/// Everything up to (not including) the first newline, or all of `s` when it
/// has none: the first element of `line_split(s)`.
pub open spec fn first_line(s: Seq<char>) -> Seq<char> {
    s.take(find_nl(s))
}

/// The given lines joined back together with a newline between neighbours and
/// nothing after the last.
pub open spec fn join_nl(ls: Seq<Seq<char>>) -> Seq<char>
    decreases ls.len(),
{
    if ls.len() == 0 {
        Seq::empty()
    } else if ls.len() == 1 {
        ls[0]
    } else {
        ls[0] + seq!['\n'] + join_nl(ls.drop_first())
    }
}

/// The literal `Host: ` header prefix, as a character sequence.
pub open spec fn host_prefix() -> Seq<char> {
    seq!['H', 'o', 's', 't', ':', ' ']
}

/// Whether the line contains the `Host: ` prefix anywhere in it.
pub open spec fn has_host(line: Seq<char>) -> bool {
    exists|i: int| 0 <= i && i + 6 <= line.len() && #[trigger] line.subrange(i, i + 6) == host_prefix()
}

/// What one line becomes before being forwarded upstream: a line that
/// mentions a host is replaced wholesale by a host line naming `proxy`; any
/// other line passes unchanged.
pub open spec fn rewrite_line(line: Seq<char>, proxy: Seq<char>) -> Seq<char> {
    if has_host(line) {
        host_prefix() + proxy
    } else {
        line
    }
}

/// The rewritten lines of one chunk, in order.
pub open spec fn forwarded_lines(s: Seq<char>, proxy: Seq<char>) -> Seq<Seq<char>> {
    line_split(s).map_values(|l: Seq<char>| rewrite_line(l, proxy))
}

/// The text forwarded upstream for one chunk of client input: every line
/// rewritten, original line breaks kept, and no newline added after the last
/// line of the chunk.
pub open spec fn chunk_forward(s: Seq<char>, proxy: Seq<char>) -> Seq<char> {
    join_nl(forwarded_lines(s, proxy))
}

/// Splitting a text into lines and joining them back with newlines
/// reproduces the text exactly.
pub proof fn lemma_join_split(s: Seq<char>)
    ensures
        join_nl(line_split(s)) =~= s,
    decreases s.len(),
{
    lemma_find_nl_bounds(s);
    let i = find_nl(s);
    if i == s.len() {
    } else {
        let rest = s.skip(i + 1);
        lemma_line_split_nonempty(rest);
        lemma_join_split(rest);
        assert((seq![s.take(i)] + line_split(rest)).drop_first() =~= line_split(rest));
        assert(s.take(i) + seq!['\n'] + rest =~= s);
    }
}

/// Host rewrite, line by line: the line that mentions a host is forwarded as
/// the host prefix followed by the upstream address, and every other line is
/// forwarded unchanged.
pub proof fn lemma_host_rewrite(s: Seq<char>, proxy: Seq<char>, i: int)
    requires
        0 <= i < line_split(s).len(),
    ensures
        forwarded_lines(s, proxy).len() == line_split(s).len(),
        has_host(line_split(s)[i]) ==> forwarded_lines(s, proxy)[i] == host_prefix() + proxy,
        !has_host(line_split(s)[i]) ==> forwarded_lines(s, proxy)[i] == line_split(s)[i],
        chunk_forward(s, proxy) == join_nl(forwarded_lines(s, proxy)),
{
}

/// Round-trip fidelity of the request path: a chunk none of whose lines
/// mentions a host is forwarded exactly as it arrived.
pub proof fn lemma_forward_no_host_identity(s: Seq<char>, proxy: Seq<char>)
    requires
        forall|i: int| 0 <= i < line_split(s).len() ==> !has_host(#[trigger] line_split(s)[i]),
    ensures
        chunk_forward(s, proxy) =~= s,
{
    assert(forwarded_lines(s, proxy) =~= line_split(s));
    lemma_join_split(s);
}

/// Unfolds `chunk_forward` by one line when the chunk has a newline.
pub proof fn lemma_chunk_forward_step(s: Seq<char>, proxy: Seq<char>)
    requires
        find_nl(s) < s.len(),
    ensures
        chunk_forward(s, proxy) =~= rewrite_line(first_line(s), proxy) + seq!['\n'] + chunk_forward(
            s.skip(find_nl(s) + 1),
            proxy,
        ),
{
    lemma_find_nl_bounds(s);
    let rest = s.skip(find_nl(s) + 1);
    lemma_line_split_nonempty(rest);
    assert(forwarded_lines(s, proxy) =~= seq![rewrite_line(first_line(s), proxy)]
        + forwarded_lines(rest, proxy));
    assert(forwarded_lines(s, proxy).drop_first() =~= forwarded_lines(rest, proxy));
}

/// `chunk_forward` on a chunk without a newline is just the one rewritten
/// line.
pub proof fn lemma_chunk_forward_last(s: Seq<char>, proxy: Seq<char>)
    requires
        find_nl(s) == s.len(),
    ensures
        chunk_forward(s, proxy) =~= rewrite_line(s, proxy),
{
    assert(s.take(s.len() as int) =~= s);
}

/// Executable test for the whitespace class of [`is_ws`].
pub fn is_ws_char(c: char) -> (b: bool)
    ensures
        b == is_ws(c),
{
    c == ' ' || c == '\t' || c == '\n' || c == '\r' || c == '\u{c}'
}

/// Index of the first newline at or after `from`, or `n` when there is none;
/// `n` must be the character length of `s`.
pub fn scan_to_nl(s: &str, from: usize, n: usize) -> (j: usize)
    requires
        n == s@.len(),
        from <= n,
    ensures
        from <= j <= n,
        forall|k: int| from <= k < j ==> s@[k] != '\n',
        j < n ==> s@[j as int] == '\n',
{
    let mut j = from;
    while j < n && s.get_char(j) != '\n'
        invariant
            n == s@.len(),
            from <= j <= n,
            forall|k: int| from <= k < j ==> s@[k] != '\n',
        decreases n - j,
    {
        j = j + 1;
    }
    j
}

/// The character of [`host_prefix`] at index `k`.
fn prefix_char(k: usize) -> (c: char)
    requires
        k < 6,
    ensures
        c == host_prefix()[k as int],
{
    if k == 0 {
        'H'
    } else if k == 1 {
        'o'
    } else if k == 2 {
        's'
    } else if k == 3 {
        't'
    } else if k == 4 {
        ':'
    } else {
        ' '
    }
}

/// Whether `host_prefix` occurs in `line` exactly at index `i`.
fn host_at(line: &str, i: usize, n: usize) -> (b: bool)
    requires
        n == line@.len(),
        i + 6 <= n,
    ensures
        b == (line@.subrange(i as int, i as int + 6) == host_prefix()),
{
    let ghost sub = line@.subrange(i as int, i as int + 6);
    let mut k: usize = 0;
    while k < 6
        invariant
            n == line@.len(),
            i + 6 <= n,
            k <= 6,
            sub == line@.subrange(i as int, i as int + 6),
            forall|kk: int| 0 <= kk < k ==> sub[kk] == host_prefix()[kk],
        ensures
            k <= 6,
            k == 6 ==> sub =~= host_prefix(),
            k < 6 ==> sub[k as int] != host_prefix()[k as int],
        decreases 6 - k,
    {
        if line.get_char(i + k) != prefix_char(k) {
            assert(sub[k as int] == line@[i + k as int]);
            break ;
        }
        assert(sub[k as int] == line@[i + k as int]);
        k = k + 1;
    }
    k == 6
}

/// Whether the line contains the `Host: ` prefix anywhere:
/// an executable decision for [`has_host`].
pub fn line_has_host(line: &str) -> (b: bool)
    ensures
        b == has_host(line@),
{
    let n = line.unicode_len();
    if n < 6 {
        return false;
    }
    let mut i: usize = 0;
    while i <= n - 6
        invariant
            n == line@.len(),
            6 <= n,
            i <= n,
            forall|ii: int| 0 <= ii < i ==> #[trigger] line@.subrange(ii, ii + 6) != host_prefix(),
        ensures
            n == line@.len(),
            i + 6 > n,
            forall|ii: int| 0 <= ii < i ==> #[trigger] line@.subrange(ii, ii + 6) != host_prefix(),
        decreases n - i,
    {
        if host_at(line, i, n) {
            assert(has_host(line@));
            return true;
        }
        i = i + 1;
    }
    assert(!has_host(line@));
    false
}

/// The token views named by a vector of index pairs.
pub open spec fn tok_views(s: Seq<char>, toks: Seq<(usize, usize)>) -> Seq<Seq<char>> {
    toks.map_values(|t: (usize, usize)| s.subrange(t.0 as int, t.1 as int))
}

/// The index bounds of the whitespace-separated tokens of `line`, in order:
/// token `t` of `tokens(line@)` is `line@[toks[t].0 .. toks[t].1]`.
pub fn token_bounds(line: &str) -> (toks: Vec<(usize, usize)>)
    ensures
        tok_views(line@, toks@) =~= tokens(line@),
        forall|t: int| 0 <= t < toks@.len() ==> 0 <= #[trigger] toks@[t].0 < toks@[t].1
            <= line@.len(),
{
    let n = line.unicode_len();
    let mut toks: Vec<(usize, usize)> = Vec::new();
    let mut pos: usize = 0;
    proof {
        assert(line@.skip(0) =~= line@);
        assert(tok_views(line@, toks@) + tokens(line@) =~= tokens(line@));
    }
    while pos < n
        invariant
            n == line@.len(),
            pos <= n,
            tokens(line@) =~= tok_views(line@, toks@) + tokens(line@.skip(pos as int)),
            forall|t: int| 0 <= t < toks@.len() ==> 0 <= #[trigger] toks@[t].0 < toks@[t].1
                <= line@.len(),
        ensures
            n == line@.len(),
            pos <= n,
            tokens(line@) =~= tok_views(line@, toks@) + tokens(line@.skip(pos as int)),
            forall|k: int| pos <= k < n ==> is_ws(line@[k]),
            forall|t: int| 0 <= t < toks@.len() ==> 0 <= #[trigger] toks@[t].0 < toks@[t].1
                <= line@.len(),
        decreases n - pos,
    {
        let mut i = pos;
        while i < n && is_ws_char(line.get_char(i))
            invariant
                n == line@.len(),
                pos <= i <= n,
                forall|k: int| pos <= k < i ==> is_ws(line@[k]),
            decreases n - i,
        {
            i = i + 1;
        }
        if i == n {
            break ;
        }
        let mut j = i + 1;
        while j < n && !is_ws_char(line.get_char(j))
            invariant
                n == line@.len(),
                i < j <= n,
                forall|k: int| i <= k < j ==> !is_ws(line@[k]),
            decreases n - j,
        {
            j = j + 1;
        }
        proof {
            let suffix = line@.skip(pos as int);
            lemma_tokens_step(suffix, i - pos, j - pos);
            assert(suffix.subrange(i - pos, j - pos) =~= line@.subrange(i as int, j as int));
            assert(suffix.skip(j - pos) =~= line@.skip(j as int));
            assert(tok_views(line@, toks@.push((i, j))) =~= tok_views(line@, toks@) + seq![
                line@.subrange(i as int, j as int),
            ]);
        }
        toks.push((i, j));
        pos = j;
    }
    proof {
        lemma_tokens_all_ws(line@.skip(pos as int));
        assert(tok_views(line@, toks@) + tokens(line@.skip(pos as int)) =~= tok_views(
            line@,
            toks@,
        ));
    }
    toks
}

} // verus!
