use vstd::prelude::*;
use vstd::std_specs::iter::IteratorSpec;

verus! {

broadcast use vstd::string::group_string_axioms;

/// Relies on `String::push`: the character is appended at the end.
pub assume_specification[ std::string::String::push ](s: &mut std::string::String, ch: char)
    ensures
        final(s)@ == old(s)@.push(ch),
;

/// The characters of `s`, in order.
pub fn chars_of(s: &str) -> (r: Vec<char>)
    ensures
        r@ == s@,
{
    let mut v: Vec<char> = Vec::new();
    let mut it = s.chars();
    loop
        invariant
            it.obeys_prophetic_iter_laws(),
            v@ + it.remaining() == s@,
            it.decrease() is Some,
        decreases it.decrease()->0,
    {
        match it.next() {
            Some(c) => {
                v.push(c);
                assert(v@ + it.remaining() == s@);
            },
            None => {
                assert(it.remaining().len() == 0);
                assert(v@ == v@ + it.remaining());
                return v;
            },
        }
    }
}

pub fn string_of(v: &Vec<char>, start: usize, end: usize) -> (r: String)
    requires
        start <= end <= v@.len(),
    ensures
        r@ == v@.subrange(start as int, end as int),
{
    let mut s = String::new();
    let mut i = start;
    while i < end
        invariant
            start <= i <= end <= v@.len(),
            s@ == v@.subrange(start as int, i as int),
        decreases end - i,
    {
        s.push(v[i]);
        assert(s@ == v@.subrange(start as int, i + 1));
        i = i + 1;
    }
    s
}

pub fn range_is(v: &Vec<char>, start: usize, end: usize, word: &str) -> (r: bool)
    requires
        start <= end <= v@.len(),
    ensures
        r == (v@.subrange(start as int, end as int) == word@),
{
    let n = word.unicode_len();
    if n != end - start {
        return false;
    }
    let mut i: usize = 0;
    while i < n
        invariant
            n == end - start,
            n == word@.len(),
            start <= end <= v@.len(),
            i <= n,
            forall|j: int| 0 <= j < i ==> v@[start + j] == word@[j],
        decreases n - i,
    {
        if v[start + i] != word.get_char(i) {
            assert(v@.subrange(start as int, end as int)[i as int] != word@[i as int]);
            return false;
        }
        i = i + 1;
    }
    assert(v@.subrange(start as int, end as int) =~= word@);
    true
}

} // verus!

verus! {

pub open spec fn is_sep(c: char) -> bool {
    c == ' ' || c == '\t'
}

pub open spec fn skip_seps(s: Seq<char>) -> Seq<char>
    decreases s.len(),
{
    if s.len() > 0 && is_sep(s[0]) {
        skip_seps(s.drop_first())
    } else {
        s
    }
}

pub open spec fn word_len(s: Seq<char>) -> nat
    decreases s.len(),
{
    if s.len() > 0 && !is_sep(s[0]) {
        1 + word_len(s.drop_first())
    } else {
        0
    }
}

/// The next token of `s` and what follows it.
pub open spec fn next_token(s: Seq<char>) -> (Option<Seq<char>>, Seq<char>) {
    let t = skip_seps(s);
    if t.len() == 0 {
        (None, t)
    } else {
        (Some(t.take(word_len(t) as int)), t.skip(word_len(t) as int))
    }
}

pub open spec fn trim_end(s: Seq<char>) -> Seq<char>
    decreases s.len(),
{
    if s.len() > 0 && is_sep(s.last()) {
        trim_end(s.drop_last())
    } else {
        s
    }
}

pub open spec fn trim(s: Seq<char>) -> Seq<char> {
    trim_end(skip_seps(s))
}

pub proof fn lemma_skip_seps_len(s: Seq<char>)
    ensures
        skip_seps(s).len() <= s.len(),
        skip_seps(s) == s.skip(s.len() - skip_seps(s).len()),
        skip_seps(s).len() > 0 ==> !is_sep(skip_seps(s)[0]),
    decreases s.len(),
{
    if s.len() > 0 && is_sep(s[0]) {
        lemma_skip_seps_len(s.drop_first());
        assert(s.drop_first().skip(s.len() - 1 - skip_seps(s).len()) =~= s.skip(
            s.len() - skip_seps(s).len(),
        ));
    } else {
        assert(s.skip(0) =~= s);
    }
}

pub proof fn lemma_word_len(s: Seq<char>)
    ensures
        word_len(s) <= s.len(),
        forall|i: int| 0 <= i < word_len(s) ==> !is_sep(#[trigger] s[i]),
        word_len(s) < s.len() ==> is_sep(s[word_len(s) as int]),
    decreases s.len(),
{
    if s.len() > 0 && !is_sep(s[0]) {
        lemma_word_len(s.drop_first());
        assert forall|i: int| 0 <= i < word_len(s) implies !is_sep(#[trigger] s[i]) by {
            if i > 0 {
                assert(s[i] == s.drop_first()[i - 1]);
            }
        }
    }
}

pub proof fn lemma_trim_end(s: Seq<char>)
    ensures
        trim_end(s).len() <= s.len(),
        trim_end(s) == s.take(trim_end(s).len() as int),
        trim_end(s).len() > 0 ==> !is_sep(trim_end(s).last()),
        forall|i: int| trim_end(s).len() <= i < s.len() ==> is_sep(#[trigger] s[i]),
    decreases s.len(),
{
    if s.len() > 0 && is_sep(s.last()) {
        lemma_trim_end(s.drop_last());
        assert(s.drop_last().take(trim_end(s).len() as int) =~= s.take(trim_end(s).len() as int));
        assert forall|i: int| trim_end(s).len() <= i < s.len() implies is_sep(#[trigger] s[i]) by {
            if i < s.len() - 1 {
                assert(s[i] == s.drop_last()[i]);
            }
        }
    } else {
        assert(s.take(s.len() as int) =~= s);
    }
}

/// Skips separators from `pos` on.
pub fn skip_seps_at(line: &Vec<char>, pos: usize) -> (r: usize)
    requires
        pos <= line@.len(),
    ensures
        pos <= r <= line@.len(),
        skip_seps(line@.skip(pos as int)) == line@.skip(r as int),
{
    let mut i = pos;
    while i < line.len() && (line[i] == ' ' || line[i] == '\t')
        invariant
            pos <= i <= line@.len(),
            skip_seps(line@.skip(pos as int)) == skip_seps(line@.skip(i as int)),
        decreases line@.len() - i,
    {
        assert(line@.skip(i as int).drop_first() =~= line@.skip(i + 1));
        i = i + 1;
    }
    i
}

/// The end of the run of non-separators starting at `pos`.
pub fn word_end(line: &Vec<char>, pos: usize) -> (r: usize)
    requires
        pos <= line@.len(),
    ensures
        pos <= r <= line@.len(),
        r == pos + word_len(line@.skip(pos as int)),
{
    let mut i = pos;
    while i < line.len() && !(line[i] == ' ' || line[i] == '\t')
        invariant
            pos <= i <= line@.len(),
            word_len(line@.skip(pos as int)) == (i - pos) + word_len(line@.skip(i as int)),
        decreases line@.len() - i,
    {
        assert(line@.skip(i as int).drop_first() =~= line@.skip(i + 1));
        i = i + 1;
    }
    i
}

/// Reads the next token from `pos`: its bounds, and where the rest starts.
pub fn read_token(line: &Vec<char>, pos: usize) -> (r: (Option<(usize, usize)>, usize))
    requires
        pos <= line@.len(),
    ensures
        r.1 <= line@.len(),
        next_token(line@.skip(pos as int)).1 == line@.skip(r.1 as int),
        match r.0 {
            Some((a, b)) => pos <= a < b == r.1 && next_token(line@.skip(pos as int)).0 == Some(
                line@.subrange(a as int, b as int),
            ),
            None => next_token(line@.skip(pos as int)).0 is None && r.1 == line@.len(),
        },
{
    let a = skip_seps_at(line, pos);
    if a == line.len() {
        return (None, a);
    }
    let b = word_end(line, a);
    proof {
        let t = line@.skip(a as int);
        assert(t[0] == line@[a as int]);
        assert(word_len(t) > 0) by {
            lemma_skip_seps_len(line@.skip(pos as int));
        }
        assert(t.take(word_len(t) as int) =~= line@.subrange(a as int, b as int));
        assert(t.skip(word_len(t) as int) =~= line@.skip(b as int));
    }
    (Some((a, b)), b)
}

} // verus!

verus! {

/// Which token ends a free-form run of text.
#[derive(Clone, Copy, PartialEq, Eq, Debug)]
pub enum Stop {
    Never,
    Value,
    Moves,
    Type,
    DefaultOrVar,
}

pub open spec fn stops_at(stop: Stop, tok: Seq<char>) -> bool {
    match stop {
        Stop::Never => false,
        Stop::Value => tok == "value"@,
        Stop::Moves => tok == "moves"@,
        Stop::Type => tok == "type"@,
        Stop::DefaultOrVar => tok == "default"@ || tok == "var"@,
    }
}

/// The first separator at or after `i` that is followed by a stopping token,
/// or the length of `t` when there is none.
pub open spec fn stop_index(t: Seq<char>, i: int, stop: Stop) -> int
    decreases t.len() - i,
{
    if i < 0 || i >= t.len() {
        t.len() as int
    } else if is_sep(t[i]) && (next_token(t.skip(i)).0 matches Some(w) && stops_at(stop, w)) {
        i
    } else {
        stop_index(t, i + 1, stop)
    }
}

/// The text up to (not including) the next stopping token, without the
/// separators around it, and what follows it.
pub open spec fn take_until(s: Seq<char>, stop: Stop) -> (Option<Seq<char>>, Seq<char>) {
    let t = skip_seps(s);
    if t.len() == 0 {
        (None, Seq::empty())
    } else {
        let j = stop_index(t, 0, stop);
        if j < t.len() {
            (Some(trim_end(t.take(j))), t.skip(j))
        } else {
            (Some(trim_end(t)), Seq::empty())
        }
    }
}

pub fn stops_at_range(stop: Stop, line: &Vec<char>, a: usize, b: usize) -> (r: bool)
    requires
        a <= b <= line@.len(),
    ensures
        r == stops_at(stop, line@.subrange(a as int, b as int)),
{
    match stop {
        Stop::Never => false,
        Stop::Value => range_is(line, a, b, "value"),
        Stop::Moves => range_is(line, a, b, "moves"),
        Stop::Type => range_is(line, a, b, "type"),
        Stop::DefaultOrVar => range_is(line, a, b, "default") || range_is(line, a, b, "var"),
    }
}

/// The end of `line[a..j]` without its trailing separators.
pub fn trim_end_at(line: &Vec<char>, a: usize, j: usize) -> (r: usize)
    requires
        a <= j <= line@.len(),
    ensures
        a <= r <= j,
        trim_end(line@.subrange(a as int, j as int)) == line@.subrange(a as int, r as int),
{
    let mut e = j;
    while e > a && (line[e - 1] == ' ' || line[e - 1] == '\t')
        invariant
            a <= e <= j <= line@.len(),
            trim_end(line@.subrange(a as int, j as int)) == trim_end(
                line@.subrange(a as int, e as int),
            ),
        decreases e,
    {
        assert(line@.subrange(a as int, e as int).drop_last() =~= line@.subrange(
            a as int,
            e - 1,
        ));
        e = e - 1;
    }
    e
}

/// Reads free-form text from `pos` up to the next stopping token.
pub fn take_until_at(line: &Vec<char>, pos: usize, stop: Stop) -> (r: (
    Option<(usize, usize)>,
    usize,
))
    requires
        pos <= line@.len(),
    ensures
        r.1 <= line@.len(),
        take_until(line@.skip(pos as int), stop).1 == line@.skip(r.1 as int),
        match r.0 {
            Some((a, b)) => pos <= a <= b <= r.1 && take_until(line@.skip(pos as int), stop).0
                == Some(line@.subrange(a as int, b as int)),
            None => take_until(line@.skip(pos as int), stop).0 is None,
        },
{
    let a = skip_seps_at(line, pos);
    if a == line.len() {
        assert(line@.skip(a as int) =~= Seq::<char>::empty());
        return (None, a);
    }
    let ghost t = line@.skip(a as int);
    let mut j = a;
    while j < line.len()
        invariant
            a <= j <= line@.len(),
            t == line@.skip(a as int),
            stop_index(t, 0, stop) == stop_index(t, j - a, stop),
        ensures
            a <= j <= line@.len(),
            stop_index(t, 0, stop) == j - a,
        decreases line@.len() - j,
    {
        if line[j] == ' ' || line[j] == '\t' {
            let (tok, _) = read_token(line, j);
            assert(t.skip(j - a) =~= line@.skip(j as int));
            if let Some((ta, tb)) = tok {
                if stops_at_range(stop, line, ta, tb) {
                    assert(t[j - a] == line@[j as int]);
                    break;
                }
            }
        }
        assert(t[j - a] == line@[j as int]);
        assert(t.skip(j - a) =~= line@.skip(j as int));
        j = j + 1;
    }
    proof {
        assert(t.take(j - a) =~= line@.subrange(a as int, j as int));
        assert(t.skip(j - a) =~= line@.skip(j as int));
    }
    let e = trim_end_at(line, a, j);
    if j < line.len() {
        (Some((a, e)), j)
    } else {
        assert(line@.skip(j as int) =~= Seq::<char>::empty());
        assert(t =~= line@.subrange(a as int, j as int));
        (Some((a, e)), j)
    }
}

} // verus!

verus! {

pub open spec fn opt_text(o: Option<String>) -> Option<Seq<char>> {
    match o {
        Some(s) => Some(s@),
        None => None,
    }
}

/// The next token of `s` and the text after it.
pub fn read(s: &str) -> (r: (Option<String>, String))
    ensures
        (opt_text(r.0), r.1@) == next_token(s@),
{
    let cs = chars_of(s);
    let (t, p) = read_token(&cs, 0);
    assert(cs@.skip(0) =~= cs@);
    let rest = string_of(&cs, p, cs.len());
    assert(cs@.subrange(p as int, cs@.len() as int) =~= cs@.skip(p as int));
    match t {
        Some((a, b)) => (Some(string_of(&cs, a, b)), rest),
        None => (None, rest),
    }
}

/// The text of `s` up to the next token that `stop` ends it at, and the
/// text from there on.
pub fn read_until(s: &str, stop: Stop) -> (r: (Option<String>, String))
    ensures
        (opt_text(r.0), r.1@) == take_until(s@, stop),
{
    let cs = chars_of(s);
    let (t, p) = take_until_at(&cs, 0, stop);
    assert(cs@.skip(0) =~= cs@);
    let rest = string_of(&cs, p, cs.len());
    assert(cs@.subrange(p as int, cs@.len() as int) =~= cs@.skip(p as int));
    match t {
        Some((a, b)) => (Some(string_of(&cs, a, b)), rest),
        None => (None, rest),
    }
}

} // verus!

verus! {

pub open spec fn all_seps(w: Seq<char>) -> bool {
    forall|i: int| 0 <= i < w.len() ==> is_sep(#[trigger] w[i])
}

pub proof fn lemma_skip_seps_append(s: Seq<char>, w: Seq<char>)
    ensures
        skip_seps(s).len() > 0 ==> skip_seps(s + w) == skip_seps(s) + w,
        skip_seps(s).len() == 0 ==> skip_seps(s + w) == skip_seps(w),
    decreases s.len(),
{
    if s.len() == 0 {
        assert(s + w =~= w);
    } else if is_sep(s[0]) {
        assert((s + w).drop_first() =~= s.drop_first() + w);
        lemma_skip_seps_append(s.drop_first(), w);
    } else {
        assert((s + w)[0] == s[0]);
    }
}

pub proof fn lemma_skip_seps_all(w: Seq<char>)
    requires
        all_seps(w),
    ensures
        skip_seps(w).len() == 0,
    decreases w.len(),
{
    if w.len() > 0 {
        assert(is_sep(w[0]));
        lemma_skip_seps_all(w.drop_first());
    }
}

pub proof fn lemma_trim_end_append(t: Seq<char>, w: Seq<char>)
    requires
        all_seps(w),
    ensures
        trim_end(t + w) == trim_end(t),
    decreases w.len(),
{
    if w.len() > 0 {
        assert(is_sep((t + w).last()));
        assert((t + w).drop_last() =~= t + w.drop_last());
        lemma_trim_end_append(t, w.drop_last());
    } else {
        assert(t + w =~= t);
    }
}

/// Separators added at either end of a line do not change what it holds.
pub proof fn lemma_trim_padded(s: Seq<char>, before: Seq<char>, after: Seq<char>)
    requires
        all_seps(before),
        all_seps(after),
    ensures
        trim(before + s + after) == trim(s),
{
    assert(before + s + after =~= before + (s + after));
    lemma_skip_seps_append(before, s + after);
    lemma_skip_seps_all(before);
    lemma_skip_seps_append(s, after);
    if skip_seps(s).len() > 0 {
        lemma_trim_end_append(skip_seps(s), after);
    } else {
        lemma_skip_seps_all(after);
        lemma_skip_seps_all(skip_seps(s));
    }
}

} // verus!
