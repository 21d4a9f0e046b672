use vstd::prelude::*;

use crate::text::{
    is_sep, lemma_skip_seps_len, lemma_trim_end, lemma_word_len, next_token, skip_seps, stop_index,
    stops_at, take_until, trim, trim_end, word_len, Stop,
};

verus! {

/// No separator anywhere in `t`.
pub open spec fn no_seps(t: Seq<char>) -> bool {
    forall|i: int| 0 <= i < t.len() ==> !is_sep(#[trigger] t[i])
}

/// A token: a non-empty run without separators.
pub open spec fn is_word(t: Seq<char>) -> bool {
    t.len() > 0 && no_seps(t)
}

pub open spec fn sep_or_empty(r: Seq<char>) -> bool {
    r.len() == 0 || is_sep(r[0])
}

/// Neither a carriage return nor a line feed in `t`.
pub open spec fn no_breaks(t: Seq<char>) -> bool {
    forall|i: int| 0 <= i < t.len() ==> (#[trigger] t[i]) != '\r' && t[i] != '\n'
}

/// Free text that reads back whole: non-empty, without separators at
/// either end, and without a stopping token after any separator.
pub open spec fn is_text(t: Seq<char>, stop: Stop) -> bool {
    &&& t.len() > 0
    &&& !is_sep(t[0])
    &&& !is_sep(t.last())
    &&& forall|i: int|
        0 <= i < t.len() && is_sep(t[i]) ==> !(next_token(#[trigger] t.skip(i)).0 matches Some(w)
            && stops_at(stop, w))
}

/// What may follow free text that ends at a stopping token.
pub open spec fn ends_text(r: Seq<char>, stop: Stop) -> bool {
    r.len() == 0 || (is_sep(r[0]) && (next_token(r).0 matches Some(w) && stops_at(stop, w)))
}

pub proof fn lemma_word_len_append(x: Seq<char>, r: Seq<char>)
    requires
        sep_or_empty(r),
    ensures
        word_len(x + r) == word_len(x),
    decreases x.len(),
{
    if x.len() == 0 {
        assert(x + r =~= r);
    } else {
        assert((x + r)[0] == x[0]);
        if !is_sep(x[0]) {
            assert((x + r).drop_first() =~= x.drop_first() + r);
            lemma_word_len_append(x.drop_first(), r);
        }
    }
}

pub proof fn lemma_word_len_word(w: Seq<char>)
    requires
        no_seps(w),
    ensures
        word_len(w) == w.len(),
    decreases w.len(),
{
    if w.len() > 0 {
        assert(!is_sep(w[0]));
        lemma_word_len_word(w.drop_first());
    }
}

/// A token followed by a separator or by nothing reads back.
pub proof fn lemma_token(w: Seq<char>, r: Seq<char>)
    requires
        is_word(w),
        sep_or_empty(r),
    ensures
        next_token(w + r) == (Some(w), r),
{
    let x = w + r;
    assert(x[0] == w[0]);
    assert(skip_seps(x) == x);
    lemma_word_len_append(w, r);
    lemma_word_len_word(w);
    assert(x.take(w.len() as int) =~= w);
    assert(x.skip(w.len() as int) =~= r);
}

/// The same, after a separator.
pub proof fn lemma_token_sp(w: Seq<char>, r: Seq<char>)
    requires
        is_word(w),
        sep_or_empty(r),
    ensures
        next_token(seq![' '] + (w + r)) == (Some(w), r),
{
    let x = seq![' '] + (w + r);
    assert(x.drop_first() =~= w + r);
    assert(skip_seps(x) == skip_seps(w + r));
    lemma_token(w, r);
}

/// Nothing is left to read.
pub proof fn lemma_empty()
    ensures
        next_token(Seq::<char>::empty()).0 is None,
        take_until(Seq::<char>::empty(), Stop::Never).0 is None,
{
}

proof fn lemma_skip_seps_nonempty(a: Seq<char>)
    requires
        a.len() > 0,
        !is_sep(a.last()),
    ensures
        skip_seps(a).len() > 0,
    decreases a.len(),
{
    if is_sep(a[0]) {
        assert(a.drop_first().last() == a.last());
        lemma_skip_seps_nonempty(a.drop_first());
    }
}

/// The token after a separator inside text that ends with a non-separator
/// lies within the text.
proof fn lemma_token_within(a: Seq<char>, r: Seq<char>)
    requires
        a.len() > 0,
        !is_sep(a.last()),
        sep_or_empty(r),
    ensures
        next_token(a + r).0 == next_token(a).0,
{
    lemma_skip_seps_nonempty(a);
    crate::text::lemma_skip_seps_append(a, r);
    lemma_word_len_append(skip_seps(a), r);
    lemma_word_len(skip_seps(a));
    let x = skip_seps(a);
    assert((x + r).take(word_len(x) as int) =~= x.take(word_len(x) as int));
}

proof fn lemma_stop_walk(t: Seq<char>, r: Seq<char>, stop: Stop, i: int)
    requires
        is_text(t, stop),
        ends_text(r, stop),
        0 <= i <= t.len(),
    ensures
        stop_index(t + r, i, stop) == t.len(),
    decreases t.len() - i,
{
    let x = t + r;
    if i < t.len() {
        assert(x[i] == t[i]);
        if is_sep(t[i]) {
            assert(x.skip(i) =~= t.skip(i) + r);
            assert(t.skip(i).last() == t.last());
            lemma_token_within(t.skip(i), r);
            assert(!(next_token(t.skip(i)).0 matches Some(w) && stops_at(stop, w)));
        }
        lemma_stop_walk(t, r, stop, i + 1);
    } else if r.len() > 0 {
        assert(x.skip(i) =~= r);
        assert(x[i] == r[0]);
    } else {
        assert(x =~= t);
    }
}

/// Free text after a separator reads back, up to what follows it.
pub proof fn lemma_text_sp(t: Seq<char>, r: Seq<char>, stop: Stop)
    requires
        is_text(t, stop),
        ends_text(r, stop),
    ensures
        take_until(seq![' '] + (t + r), stop) == (Some(t), r),
{
    let x = seq![' '] + (t + r);
    assert(x.drop_first() =~= t + r);
    assert((t + r)[0] == t[0]);
    assert(is_sep(x[0]));
    assert(skip_seps(x) == skip_seps(x.drop_first()));
    assert(skip_seps(t + r) == t + r);
    assert(skip_seps(x) == t + r);
    lemma_stop_walk(t, r, stop, 0);
    assert((t + r).take(t.len() as int) =~= t);
    assert((t + r).skip(t.len() as int) =~= r);
    lemma_trim_end(t);
    if trim_end(t).len() < t.len() {
        assert(is_sep(t[t.len() - 1]));
    }
    assert(trim_end(t) =~= t);
    if r.len() == 0 {
        assert(t + r =~= t);
    }
}

} // verus!

verus! {

pub open spec fn stops_after(t: Seq<char>, i: int, stop: Stop) -> bool {
    is_sep(t[i]) && (next_token(t.skip(i)).0 matches Some(w) && stops_at(stop, w))
}

proof fn lemma_stop_index_min(t: Seq<char>, k: int, stop: Stop)
    requires
        0 <= k <= t.len(),
    ensures
        k <= stop_index(t, k, stop) <= t.len(),
        forall|i: int| k <= i < stop_index(t, k, stop) ==> !#[trigger] stops_after(t, i, stop),
        stop_index(t, k, stop) < t.len() ==> stops_after(t, stop_index(t, k, stop), stop),
    decreases t.len() - k,
{
    if k < t.len() && !stops_after(t, k, stop) {
        lemma_stop_index_min(t, k + 1, stop);
    }
}

pub proof fn lemma_no_breaks_sub(s: Seq<char>, a: int, b: int)
    requires
        no_breaks(s),
        0 <= a <= b <= s.len(),
    ensures
        no_breaks(s.subrange(a, b)),
{
    assert forall|i: int| 0 <= i < b - a implies (#[trigger] s.subrange(a, b)[i]) != '\r'
        && s.subrange(a, b)[i] != '\n' by {
        assert(s.subrange(a, b)[i] == s[a + i]);
    }
}

/// A token read from a line is a token, followed by a separator or by
/// nothing, and holds no line break when the line holds none.
pub proof fn lemma_token_sound(s: Seq<char>)
    requires
        next_token(s).0 is Some,
    ensures
        is_word(next_token(s).0->0),
        sep_or_empty(next_token(s).1),
        next_token(s).1.len() < s.len(),
        no_breaks(s) ==> no_breaks(next_token(s).0->0) && no_breaks(next_token(s).1),
{
    let t = skip_seps(s);
    lemma_skip_seps_len(s);
    lemma_word_len(t);
    let n = word_len(t);
    assert(n > 0);
    let w = t.take(n as int);
    assert forall|i: int| 0 <= i < w.len() implies !is_sep(#[trigger] w[i]) by {
        assert(w[i] == t[i]);
    }
    if n < t.len() {
        assert(t.skip(n as int)[0] == t[n as int]);
    }
    if no_breaks(s) {
        let off = s.len() - t.len();
        assert(t =~= s.subrange(off, s.len() as int));
        lemma_no_breaks_sub(s, off, s.len() as int);
        lemma_no_breaks_sub(t, 0, n as int);
        lemma_no_breaks_sub(t, n as int, t.len() as int);
        assert(w =~= t.subrange(0, n as int));
        assert(t.skip(n as int) =~= t.subrange(n as int, t.len() as int));
    }
}

/// Free text read from a line reads back whole, and holds no line break
/// when the line holds none.
pub proof fn lemma_text_sound(s: Seq<char>, stop: Stop)
    requires
        take_until(s, stop).0 is Some,
    ensures
        is_text(take_until(s, stop).0->0, stop),
        ends_text(take_until(s, stop).1, stop),
        take_until(s, stop).1.len() < s.len(),
        no_breaks(s) ==> no_breaks(take_until(s, stop).0->0) && no_breaks(take_until(s, stop).1),
{
    let tt = skip_seps(s);
    lemma_skip_seps_len(s);
    lemma_stop_index_min(tt, 0, stop);
    let j = stop_index(tt, 0, stop);
    assert(!stops_after(tt, 0, stop));
    assert(j >= 1);
    let head = tt.take(j);
    if j == tt.len() {
        assert(head =~= tt);
    }
    lemma_trim_end(head);
    let t = trim_end(head);
    assert(take_until(s, stop).0->0 == t);
    assert(head[0] == tt[0]);
    if t.len() == 0 {
        assert(is_sep(head[0]));
    }
    assert(t[0] == tt[0]);
    let rest = tt.skip(t.len() as int);
    assert(sep_or_empty(rest)) by {
        if t.len() < tt.len() {
            assert(rest[0] == tt[t.len() as int]);
            if t.len() < j {
                assert(head[t.len() as int] == tt[t.len() as int]);
            } else {
                assert(stops_after(tt, j, stop));
            }
        }
    }
    assert forall|i: int|
        0 <= i < t.len() && is_sep(t[i]) implies !(next_token(#[trigger] t.skip(i)).0 matches Some(
        w,
    ) && stops_at(stop, w)) by {
        assert(t[i] == tt[i]);
        assert(tt.skip(i) =~= t.skip(i) + rest);
        assert(t.skip(i).last() == t.last());
        lemma_token_within(t.skip(i), rest);
        assert(!stops_after(tt, i, stop));
    }
    if j < tt.len() {
        assert(stops_after(tt, j, stop));
        assert(take_until(s, stop).1 == tt.skip(j));
        assert(tt.skip(j)[0] == tt[j]);
    }
    if no_breaks(s) {
        let off = s.len() - tt.len();
        assert(tt =~= s.subrange(off, s.len() as int));
        lemma_no_breaks_sub(s, off, s.len() as int);
        lemma_no_breaks_sub(tt, 0, t.len() as int);
        assert(t =~= tt.subrange(0, t.len() as int));
        if j == tt.len() {
            assert(take_until(s, stop).1.len() == 0);
        }
        if j < tt.len() {
            lemma_no_breaks_sub(tt, j, tt.len() as int);
            assert(tt.skip(j) =~= tt.subrange(j, tt.len() as int));
        }
    }
}

} // verus!

verus! {

pub open spec fn move_list(ms: Seq<Seq<char>>) -> bool {
    forall|i: int| 0 <= i < ms.len() ==> is_word(#[trigger] ms[i]) && crate::uci::is_uci_move(ms[i])
}

pub open spec fn no_breaks_all(ms: Seq<Seq<char>>) -> bool {
    forall|i: int| 0 <= i < ms.len() ==> no_breaks(#[trigger] ms[i])
}

/// What may follow a list of moves that ends where it should.
pub open spec fn moves_end(r: Seq<char>) -> bool {
    r.len() == 0 || (is_sep(r[0]) && (next_token(r).0 matches Some(k) && !crate::uci::is_uci_move(k)))
}

pub proof fn lemma_space()
    ensures
        " "@ == seq![' '],
{
    reveal_strlit(" ");
    assert(" "@ =~= seq![' ']);
}

pub proof fn lemma_moves_text_start(ms: Seq<Seq<char>>)
    ensures
        ms.len() > 0 ==> crate::encode::moves_text(ms).len() > 0 && crate::encode::moves_text(ms)[0]
            == ' ',
        ms.len() == 0 ==> crate::encode::moves_text(ms) == Seq::<char>::empty(),
{
    lemma_space();
}

pub proof fn lemma_moves_complete(ms: Seq<Seq<char>>, r: Seq<char>)
    requires
        move_list(ms),
        moves_end(r),
    ensures
        crate::parser::p_moves(crate::encode::moves_text(ms) + r) == (ms, r),
    decreases ms.len(),
{
    let x = crate::encode::moves_text(ms) + r;
    if ms.len() == 0 {
        assert(x =~= r);
        assert(ms =~= Seq::<Seq<char>>::empty());
    } else {
        let rest = ms.drop_first();
        assert(move_list(rest)) by {
            assert forall|i: int| 0 <= i < rest.len() implies is_word(#[trigger] rest[i])
                && crate::uci::is_uci_move(rest[i]) by {
                assert(rest[i] == ms[i + 1]);
            }
        }
        let tail = crate::encode::moves_text(rest) + r;
        lemma_moves_text_start(rest);
        if rest.len() > 0 {
            assert(tail[0] == ' ');
        } else {
            assert(tail =~= r);
        }
        assert(is_word(ms[0]) && crate::uci::is_uci_move(ms[0]));
        lemma_space();
        assert(x =~= seq![' '] + (ms[0] + tail));
        lemma_token_sp(ms[0], tail);
        lemma_moves_complete(rest, r);
        assert(seq![ms[0]] + rest =~= ms);
    }
}

pub proof fn lemma_all_moves_complete(ms: Seq<Seq<char>>)
    requires
        move_list(ms),
    ensures
        crate::parser::p_all_moves(crate::encode::moves_text(ms)) == Ok::<_, crate::uci::ProtocolError>(ms),
    decreases ms.len(),
{
    let x = crate::encode::moves_text(ms);
    if ms.len() == 0 {
        assert(ms =~= Seq::<Seq<char>>::empty());
    } else {
        let rest = ms.drop_first();
        assert(move_list(rest)) by {
            assert forall|i: int| 0 <= i < rest.len() implies is_word(#[trigger] rest[i])
                && crate::uci::is_uci_move(rest[i]) by {
                assert(rest[i] == ms[i + 1]);
            }
        }
        let tail = crate::encode::moves_text(rest);
        lemma_moves_text_start(rest);
        assert(is_word(ms[0]));
        lemma_space();
        assert(x =~= seq![' '] + (ms[0] + tail));
        lemma_token_sp(ms[0], tail);
        lemma_all_moves_complete(rest);
        assert(seq![ms[0]] + rest =~= ms);
    }
}

pub proof fn lemma_moves_sound(s: Seq<char>)
    ensures
        move_list(crate::parser::p_moves(s).0),
        no_breaks(s) ==> no_breaks_all(crate::parser::p_moves(s).0) && no_breaks(
            crate::parser::p_moves(s).1,
        ),
    decreases s.len(),
{
    let ms = crate::parser::p_moves(s).0;
    if next_token(s).0 is Some {
        let t = next_token(s).0->0;
        if crate::uci::is_uci_move(t) && next_token(s).1.len() < s.len() {
            lemma_token_sound(s);
            lemma_moves_sound(next_token(s).1);
            let rest = crate::parser::p_moves(next_token(s).1).0;
            assert(ms == seq![t] + rest);
            assert forall|i: int| 0 <= i < ms.len() implies is_word(#[trigger] ms[i])
                && crate::uci::is_uci_move(ms[i]) by {
                if i > 0 {
                    assert(ms[i] == rest[i - 1]);
                }
            }
            if no_breaks(s) {
                assert forall|i: int| 0 <= i < ms.len() implies no_breaks(#[trigger] ms[i]) by {
                    if i > 0 {
                        assert(ms[i] == rest[i - 1]);
                    }
                }
            }
        }
    }
}

pub proof fn lemma_all_moves_sound(s: Seq<char>)
    requires
        crate::parser::p_all_moves(s) is Ok,
    ensures
        move_list(crate::parser::p_all_moves(s)->Ok_0),
        no_breaks(s) ==> no_breaks_all(crate::parser::p_all_moves(s)->Ok_0),
    decreases s.len(),
{
    let ms = crate::parser::p_all_moves(s)->Ok_0;
    if next_token(s).0 is Some {
        let t = next_token(s).0->0;
        lemma_token_sound(s);
        lemma_all_moves_sound(next_token(s).1);
        let rest = crate::parser::p_all_moves(next_token(s).1)->Ok_0;
        assert(ms == seq![t] + rest);
        assert forall|i: int| 0 <= i < ms.len() implies is_word(#[trigger] ms[i])
            && crate::uci::is_uci_move(ms[i]) by {
            if i > 0 {
                assert(ms[i] == rest[i - 1]);
            }
        }
        if no_breaks(s) {
            assert forall|i: int| 0 <= i < ms.len() implies no_breaks(#[trigger] ms[i]) by {
                if i > 0 {
                    assert(ms[i] == rest[i - 1]);
                }
            }
        }
    }
}

} // verus!

verus! {

pub proof fn lemma_trim_word_start(x: Seq<char>)
    requires
        x.len() > 0,
        !is_sep(x[0]),
        !is_sep(x.last()),
    ensures
        trim(x) == x,
{
    assert(skip_seps(x) == x);
    assert(trim_end(x) == x);
}

pub proof fn lemma_no_breaks_concat(a: Seq<char>, b: Seq<char>)
    requires
        no_breaks(a),
        no_breaks(b),
    ensures
        no_breaks(a + b),
{
    assert forall|i: int| 0 <= i < (a + b).len() implies (#[trigger] (a + b)[i]) != '\r' && (a
        + b)[i] != '\n' by {
        if i < a.len() {
            assert((a + b)[i] == a[i]);
        } else {
            assert((a + b)[i] == b[i - a.len()]);
        }
    }
}

pub proof fn lemma_no_breaks_lit(s: Seq<char>)
    requires
        forall|i: int| 0 <= i < s.len() ==> 'a' <= #[trigger] s[i] <= 'z' || s[i] == ' ',
    ensures
        no_breaks(s),
{
}

/// What a command that was read satisfies, so that it reads back.
pub open spec fn wf_in(v: crate::uci::InModel) -> bool {
    match v {
        crate::uci::InModel::Setoption { name, value } => is_text(name, Stop::Value) && no_breaks(
            name,
        ) && match value {
            None => true,
            Some(x) => (x.len() == 0 || is_text(x, Stop::Never)) && no_breaks(x),
        },
        crate::uci::InModel::Position { fen, moves } => (match fen {
            Some(f) => is_text(f, Stop::Moves) && no_breaks(f) && crate::uci::fen_is_valid(f),
            None => true,
        }) && move_list(moves) && no_breaks_all(moves),
        crate::uci::InModel::Go(g) => match g.searchmoves {
            Some(ms) => move_list(ms) && no_breaks_all(ms),
            None => true,
        },
        _ => true,
    }
}

proof fn lemma_setoption_sound(s: Seq<char>)
    requires
        no_breaks(s),
        crate::parser::setoption_spec(s) is Ok,
    ensures
        wf_in(crate::parser::setoption_spec(s)->Ok_0),
{
    lemma_token_sound(s);
    let r1 = next_token(s).1;
    lemma_text_sound(r1, Stop::Value);
    let r2 = take_until(r1, Stop::Value).1;
    if next_token(r2).0 is Some {
        lemma_token_sound(r2);
        let r3 = next_token(r2).1;
        if take_until(r3, Stop::Never).0 is Some {
            lemma_text_sound(r3, Stop::Never);
        }
    }
}

proof fn lemma_setoption_complete(name: Seq<char>, value: Option<Seq<char>>)
    requires
        wf_in(crate::uci::InModel::Setoption { name, value }),
    ensures
        no_breaks(crate::encode::encode_in(crate::uci::InModel::Setoption { name, value })),
        crate::parser::in_spec(
            trim(crate::encode::encode_in(crate::uci::InModel::Setoption { name, value })),
        ) == Ok::<_, crate::uci::ProtocolError>(
            Some(crate::uci::InModel::Setoption { name, value }),
        ),
{
    reveal_strlit("setoption name ");
    reveal_strlit(" value ");
    reveal_strlit("setoption");
    reveal_strlit("name");
    reveal_strlit("value");
    reveal_strlit("uci");
    reveal_strlit("isready");
    reveal_strlit("ucinewgame");
    reveal_strlit("stop");
    reveal_strlit("ponderhit");
    let v = crate::uci::InModel::Setoption { name, value };
    let e = crate::encode::encode_in(v);
    let head = "setoption name "@;
    lemma_no_breaks_lit(head);
    lemma_no_breaks_concat(head, name);
    assert(is_word("setoption"@));
    assert(is_word("name"@));
    assert(is_word("value"@));
    match value {
        None => {
            assert(e =~= "setoption"@ + (seq![' '] + ("name"@ + (seq![' '] + (name + Seq::empty())))));
            assert(e =~= head + name);
            assert(e.last() == name.last());
            lemma_trim_word_start(e);
            lemma_token("setoption"@, seq![' '] + ("name"@ + (seq![' '] + (name + Seq::empty()))));
            lemma_token_sp("name"@, seq![' '] + (name + Seq::empty()));
            lemma_text_sp(name, Seq::empty(), Stop::Value);
        },
        Some(x) => {
            lemma_no_breaks_lit(" value "@);
            lemma_no_breaks_concat(head + name, " value "@);
            lemma_no_breaks_concat(head + name + " value "@, x);
            assert(e =~= head + name + " value "@ + x);
            if x.len() == 0 {
                let t = "setoption"@ + (seq![' '] + ("name"@ + (seq![' '] + (name + (seq![' '] + (
                "value"@ + Seq::empty()))))));
                assert(skip_seps(e) == e);
                assert(e.drop_last() =~= t);
                assert(is_sep(e.last()));
                assert(trim_end(e) == trim_end(t));
                assert(t.last() == 'e');
                assert(trim_end(t) == t);
                lemma_token("setoption"@, seq![' '] + ("name"@ + (seq![' '] + (name + (seq![' '] + (
                "value"@ + Seq::empty()))))));
                lemma_token_sp("name"@, seq![' '] + (name + (seq![' '] + ("value"@ + Seq::empty()))));
                lemma_token_sp("value"@, Seq::empty());
                assert(seq![' '] + ("value"@ + Seq::<char>::empty()) =~= seq![' '] + "value"@);
                lemma_token_sp("value"@, Seq::<char>::empty());
                assert(next_token(seq![' '] + "value"@).0 == Some("value"@));
                lemma_text_sp(name, seq![' '] + ("value"@ + Seq::empty()), Stop::Value);
                assert(next_token(Seq::<char>::empty()).0 is None);
            } else {
                let t = "setoption"@ + (seq![' '] + ("name"@ + (seq![' '] + (name + (seq![' '] + (
                "value"@ + (seq![' '] + (x + Seq::empty()))))))));
                assert(e =~= t);
                assert(e.last() == x.last());
                lemma_trim_word_start(e);
                lemma_token("setoption"@, seq![' '] + ("name"@ + (seq![' '] + (name + (seq![' '] + (
                "value"@ + (seq![' '] + (x + Seq::empty()))))))));
                lemma_token_sp("name"@, seq![' '] + (name + (seq![' '] + ("value"@ + (seq![' '] + (x
                    + Seq::empty()))))));
                lemma_token_sp("value"@, seq![' '] + (x + Seq::empty()));
                lemma_text_sp(name, seq![' '] + ("value"@ + (seq![' '] + (x + Seq::empty()))), Stop::Value);
                lemma_text_sp(x, Seq::empty(), Stop::Never);
            }
        },
    }
}

} // verus!

verus! {

pub proof fn lemma_moves_text_last(ms: Seq<Seq<char>>)
    requires
        move_list(ms),
        ms.len() > 0,
    ensures
        crate::encode::moves_text(ms).len() > 0,
        !is_sep(crate::encode::moves_text(ms).last()),
    decreases ms.len(),
{
    let rest = ms.drop_first();
    assert(is_word(ms[0]));
    if rest.len() > 0 {
        assert(move_list(rest)) by {
            assert forall|i: int| 0 <= i < rest.len() implies is_word(#[trigger] rest[i])
                && crate::uci::is_uci_move(rest[i]) by {
                assert(rest[i] == ms[i + 1]);
            }
        }
        lemma_moves_text_last(rest);
        let m = crate::encode::moves_text(ms);
        assert(m.last() == crate::encode::moves_text(rest).last());
    } else {
        lemma_moves_text_start(rest);
        let m = crate::encode::moves_text(ms);
        assert(m.last() == ms[0].last());
        assert(!is_sep(ms[0][ms[0].len() - 1]));
    }
}

pub proof fn lemma_moves_text_no_breaks(ms: Seq<Seq<char>>)
    requires
        no_breaks_all(ms),
    ensures
        no_breaks(crate::encode::moves_text(ms)),
    decreases ms.len(),
{
    if ms.len() > 0 {
        let rest = ms.drop_first();
        assert(no_breaks_all(rest)) by {
            assert forall|i: int| 0 <= i < rest.len() implies no_breaks(#[trigger] rest[i]) by {
                assert(rest[i] == ms[i + 1]);
            }
        }
        lemma_moves_text_no_breaks(rest);
        lemma_space();
        lemma_no_breaks_lit(" "@);
        assert(no_breaks(ms[0]));
        lemma_no_breaks_concat(" "@, ms[0]);
        lemma_no_breaks_concat(" "@ + ms[0], crate::encode::moves_text(rest));
    }
}

proof fn lemma_position_sound(s: Seq<char>)
    requires
        no_breaks(s),
        crate::parser::position_spec(s) is Ok,
    ensures
        wf_in(crate::parser::position_spec(s)->Ok_0),
{
    lemma_token_sound(s);
    let r1 = next_token(s).1;
    let t = next_token(s).0->0;
    let tail = if t == "startpos"@ {
        r1
    } else {
        lemma_text_sound(r1, Stop::Moves);
        take_until(r1, Stop::Moves).1
    };
    if next_token(tail).0 is Some {
        lemma_token_sound(tail);
        lemma_all_moves_sound(next_token(tail).1);
    } else {
        assert(move_list(Seq::<Seq<char>>::empty()));
    }
}

proof fn lemma_position_complete(fen: Option<Seq<char>>, moves: Seq<Seq<char>>)
    requires
        wf_in(crate::uci::InModel::Position { fen, moves }),
    ensures
        no_breaks(crate::encode::encode_in(crate::uci::InModel::Position { fen, moves })),
        crate::parser::in_spec(
            trim(crate::encode::encode_in(crate::uci::InModel::Position { fen, moves })),
        ) == Ok::<_, crate::uci::ProtocolError>(
            Some(crate::uci::InModel::Position { fen, moves }),
        ),
{
    reveal_strlit("position fen ");
    reveal_strlit("position startpos");
    reveal_strlit(" moves");
    reveal_strlit("position");
    reveal_strlit("startpos");
    reveal_strlit("fen");
    reveal_strlit("moves");
    reveal_strlit("uci");
    reveal_strlit("isready");
    reveal_strlit("ucinewgame");
    reveal_strlit("stop");
    reveal_strlit("ponderhit");
    reveal_strlit("setoption");
    let v = crate::uci::InModel::Position { fen, moves };
    let e = crate::encode::encode_in(v);
    let tail = if moves.len() > 0 {
        " moves"@ + crate::encode::moves_text(moves)
    } else {
        Seq::empty()
    };
    assert(is_word("position"@));
    assert(is_word("startpos"@));
    assert(is_word("fen"@));
    assert(is_word("moves"@));
    lemma_moves_text_start(moves);
    lemma_moves_text_no_breaks(moves);
    if moves.len() > 0 {
        lemma_moves_text_last(moves);
        assert(tail =~= seq![' '] + ("moves"@ + crate::encode::moves_text(moves)));
        lemma_token_sp("moves"@, crate::encode::moves_text(moves));
        lemma_all_moves_complete(moves);
        assert(tail.last() == crate::encode::moves_text(moves).last());
        lemma_no_breaks_lit(" moves"@);
        lemma_no_breaks_concat(" moves"@, crate::encode::moves_text(moves));
        assert(ends_text(tail, Stop::Moves));
    } else {
        assert(moves =~= Seq::<Seq<char>>::empty());
        assert(ends_text(tail, Stop::Moves));
    }
    assert(sep_or_empty(tail));
    match fen {
        None => {
            let rest = seq![' '] + ("startpos"@ + tail);
            assert(e =~= "position"@ + rest);
            lemma_no_breaks_lit("position startpos"@);
            lemma_no_breaks_concat("position startpos"@, tail);
            assert(e =~= "position startpos"@ + tail);
            if moves.len() > 0 {
                assert(e.last() == tail.last());
            } else {
                assert(e.last() == 's');
            }
            lemma_trim_word_start(e);
            lemma_token("position"@, rest);
            lemma_token_sp("startpos"@, tail);
        },
        Some(f) => {
            let rest = seq![' '] + ("fen"@ + (seq![' '] + (f + tail)));
            assert(e =~= "position"@ + rest);
            lemma_no_breaks_lit("position fen "@);
            lemma_no_breaks_concat("position fen "@, f);
            lemma_no_breaks_concat("position fen "@ + f, tail);
            assert(e =~= "position fen "@ + f + tail);
            if moves.len() > 0 {
                assert(e.last() == tail.last());
            } else {
                assert(e.last() == f.last());
            }
            lemma_trim_word_start(e);
            lemma_token("position"@, rest);
            lemma_token_sp("fen"@, seq![' '] + (f + tail));
            lemma_text_sp(f, tail, Stop::Moves);
        },
    }
}

} // verus!

verus! {

pub open spec fn go_part(g: crate::uci::GoModel, k: int) -> Seq<char> {
    if k == 0 {
        match g.searchmoves {
            Some(ms) => " searchmoves"@ + crate::encode::moves_text(ms),
            None => Seq::empty(),
        }
    } else if k == 1 {
        crate::encode::flag_text(" ponder"@, g.ponder)
    } else if k == 2 {
        crate::encode::num_text(" wtime "@, crate::encode::opt64(g.wtime))
    } else if k == 3 {
        crate::encode::num_text(" btime "@, crate::encode::opt64(g.btime))
    } else if k == 4 {
        crate::encode::num_text(" winc "@, crate::encode::opt64(g.winc))
    } else if k == 5 {
        crate::encode::num_text(" binc "@, crate::encode::opt64(g.binc))
    } else if k == 6 {
        crate::encode::num_text(" movestogo "@, crate::encode::opt32(g.movestogo))
    } else if k == 7 {
        crate::encode::num_text(" depth "@, crate::encode::opt32(g.depth))
    } else if k == 8 {
        crate::encode::num_text(" nodes "@, crate::encode::opt64(g.nodes))
    } else if k == 9 {
        crate::encode::num_text(" mate "@, crate::encode::opt32(g.mate))
    } else if k == 10 {
        crate::encode::num_text(" movetime "@, crate::encode::opt64(g.movetime))
    } else {
        crate::encode::flag_text(" infinite"@, g.infinite)
    }
}

pub open spec fn go_suffix(g: crate::uci::GoModel, k: int) -> Seq<char>
    decreases 12 - k,
{
    if k >= 12 {
        Seq::empty()
    } else {
        go_part(g, k) + go_suffix(g, k + 1)
    }
}

/// The parameters before the `k`-th, the rest left at their defaults.
pub open spec fn go_upto(g: crate::uci::GoModel, k: int) -> crate::uci::GoModel {
    crate::uci::GoModel {
        searchmoves: if k > 0 {
            g.searchmoves
        } else {
            None
        },
        ponder: k > 1 && g.ponder,
        wtime: if k > 2 {
            g.wtime
        } else {
            None
        },
        btime: if k > 3 {
            g.btime
        } else {
            None
        },
        winc: if k > 4 {
            g.winc
        } else {
            None
        },
        binc: if k > 5 {
            g.binc
        } else {
            None
        },
        movestogo: if k > 6 {
            g.movestogo
        } else {
            None
        },
        depth: if k > 7 {
            g.depth
        } else {
            None
        },
        nodes: if k > 8 {
            g.nodes
        } else {
            None
        },
        mate: if k > 9 {
            g.mate
        } else {
            None
        },
        movetime: if k > 10 {
            g.movetime
        } else {
            None
        },
        infinite: k > 11 && g.infinite,
    }
}

/// A keyword, then a number, reads back.
proof fn lemma_num_part(kw: Seq<char>, word: Seq<char>, n: nat, hi: int, rest: Seq<char>)
    requires
        is_word(kw),
        word == seq![' '] + kw + seq![' '],
        n <= hi,
        sep_or_empty(rest),
    ensures
        next_token(word + crate::number::dec_text(n) + rest) == (
            Some(kw),
            seq![' '] + (crate::number::dec_text(n) + rest),
        ),
        crate::parser::p_unsigned(seq![' '] + (crate::number::dec_text(n) + rest), 0, hi) == Ok::<
            _,
            crate::uci::ProtocolError,
        >((n as int, rest)),
{
    crate::number::lemma_dec_text(n);
    let d = crate::number::dec_text(n);
    assert(is_word(d)) by {
        assert forall|i: int| 0 <= i < d.len() implies !is_sep(#[trigger] d[i]) by {
            assert(crate::number::is_digit(d[i]));
        }
    }
    assert(word + d + rest =~= seq![' '] + (kw + (seq![' '] + (d + rest))));
    lemma_token_sp(kw, seq![' '] + (d + rest));
    lemma_token_sp(d, rest);
    crate::number::lemma_unsigned_round_trip(n);
}

/// A flag reads back.
proof fn lemma_flag_part(kw: Seq<char>, word: Seq<char>, rest: Seq<char>)
    requires
        is_word(kw),
        word == seq![' '] + kw,
        sep_or_empty(rest),
    ensures
        next_token(word + rest) == (Some(kw), rest),
{
    assert(word + rest =~= seq![' '] + (kw + rest));
    lemma_token_sp(kw, rest);
}

pub open spec fn go_keyword(k: int) -> Seq<char> {
    if k == 0 {
        "searchmoves"@
    } else if k == 1 {
        "ponder"@
    } else if k == 2 {
        "wtime"@
    } else if k == 3 {
        "btime"@
    } else if k == 4 {
        "winc"@
    } else if k == 5 {
        "binc"@
    } else if k == 6 {
        "movestogo"@
    } else if k == 7 {
        "depth"@
    } else if k == 8 {
        "nodes"@
    } else if k == 9 {
        "mate"@
    } else if k == 10 {
        "movetime"@
    } else {
        "infinite"@
    }
}

proof fn lemma_go_keywords()
    ensures
        forall|k: int| 0 <= k < 12 ==> is_word(#[trigger] go_keyword(k)) && !crate::uci::is_uci_move(
            go_keyword(k),
        ),
{
    reveal_strlit("searchmoves");
    reveal_strlit("ponder");
    reveal_strlit("wtime");
    reveal_strlit("btime");
    reveal_strlit("winc");
    reveal_strlit("binc");
    reveal_strlit("movestogo");
    reveal_strlit("depth");
    reveal_strlit("nodes");
    reveal_strlit("mate");
    reveal_strlit("movetime");
    reveal_strlit("infinite");
    assert forall|k: int| 0 <= k < 12 implies is_word(#[trigger] go_keyword(k))
        && !crate::uci::is_uci_move(go_keyword(k)) by {
        if k == 2 {
            assert(go_keyword(k)[3] == 'm');
        } else if k == 3 {
            assert(go_keyword(k)[3] == 'm');
        } else if k == 4 {
            assert(go_keyword(k)[2] == 'n');
        } else if k == 5 {
            assert(go_keyword(k)[2] == 'n');
        } else if k == 7 {
            assert(go_keyword(k)[2] == 'p');
        } else if k == 8 {
            assert(go_keyword(k)[3] == 'e');
        } else if k == 9 {
            assert(go_keyword(k)[2] == 't');
        }
    }
}

/// Each part of a `go` line is empty or starts with a separator and its
/// keyword.
proof fn lemma_go_part_shape(g: crate::uci::GoModel, k: int, rest: Seq<char>)
    requires
        0 <= k < 12,
        sep_or_empty(rest),
        g.searchmoves matches Some(ms) ==> move_list(ms),
    ensures
        go_part(g, k).len() == 0 || (go_part(g, k)[0] == ' ' && next_token(go_part(g, k) + rest).0
            == Some(go_keyword(k))),
{
    reveal_strlit(" searchmoves");
    reveal_strlit(" ponder");
    reveal_strlit(" wtime ");
    reveal_strlit(" btime ");
    reveal_strlit(" winc ");
    reveal_strlit(" binc ");
    reveal_strlit(" movestogo ");
    reveal_strlit(" depth ");
    reveal_strlit(" nodes ");
    reveal_strlit(" mate ");
    reveal_strlit(" movetime ");
    reveal_strlit(" infinite");
    reveal_strlit("searchmoves");
    reveal_strlit("ponder");
    reveal_strlit("wtime");
    reveal_strlit("btime");
    reveal_strlit("winc");
    reveal_strlit("binc");
    reveal_strlit("movestogo");
    reveal_strlit("depth");
    reveal_strlit("nodes");
    reveal_strlit("mate");
    reveal_strlit("movetime");
    reveal_strlit("infinite");
    lemma_go_keywords();
    let p = go_part(g, k);
    let kw = go_keyword(k);
    assert(is_word(kw));
    if p.len() > 0 {
        if k == 0 {
            let ms = g.searchmoves->0;
            lemma_moves_text_start(ms);
            let m = crate::encode::moves_text(ms);
            assert(p + rest =~= seq![' '] + (kw + (m + rest)));
            lemma_token_sp(kw, m + rest);
        } else if k == 1 || k == 11 {
            assert(p + rest =~= seq![' '] + (kw + rest));
            lemma_token_sp(kw, rest);
        } else {
            let n = if k == 6 || k == 7 || k == 9 {
                match (if k == 6 { g.movestogo } else if k == 7 { g.depth } else { g.mate }) {
                    Some(x) => x as nat,
                    None => 0,
                }
            } else {
                match (if k == 2 { g.wtime } else if k == 3 { g.btime } else if k == 4 { g.winc } else if k == 5 { g.binc } else if k == 8 { g.nodes } else { g.movetime }) {
                    Some(x) => x as nat,
                    None => 0,
                }
            };
            let d = crate::number::dec_text(n);
            assert(p == seq![' '] + kw + seq![' '] + d);
            lemma_num_part(kw, seq![' '] + kw + seq![' '], n, n as int, rest);
            assert(p + rest =~= seq![' '] + kw + seq![' '] + d + rest);
        }
    }
}

} // verus!

verus! {

proof fn lemma_go_suffix_shape(g: crate::uci::GoModel, k: int)
    requires
        0 <= k <= 12,
        g.searchmoves matches Some(ms) ==> move_list(ms),
    ensures
        sep_or_empty(go_suffix(g, k)),
        k >= 1 ==> moves_end(go_suffix(g, k)),
    decreases 12 - k,
{
    if k < 12 {
        lemma_go_suffix_shape(g, k + 1);
        lemma_go_part_shape(g, k, go_suffix(g, k + 1));
        lemma_go_keywords();
        let p = go_part(g, k);
        if p.len() == 0 {
            assert(go_suffix(g, k) =~= go_suffix(g, k + 1));
        } else {
            assert(go_suffix(g, k)[0] == p[0]);
            assert(!crate::uci::is_uci_move(go_keyword(k)));
        }
    }
}

proof fn lemma_go_step_wtime(g: crate::uci::GoModel, s1: Seq<char>)
    requires
        g.wtime is Some,
        sep_or_empty(s1),
    ensures
        crate::parser::go_loop(go_part(g, 2) + s1, go_upto(g, 2)) == crate::parser::go_loop(
            s1,
            go_upto(g, 3),
        ),
{
    reveal_strlit(" wtime ");
    reveal_strlit("searchmoves");
    reveal_strlit("ponder");
    reveal_strlit("wtime");
    reveal_strlit("btime");
    reveal_strlit("winc");
    reveal_strlit("binc");
    reveal_strlit("movestogo");
    reveal_strlit("depth");
    reveal_strlit("nodes");
    reveal_strlit("mate");
    reveal_strlit("movetime");
    reveal_strlit("infinite");
    lemma_go_keywords();
    let kw = go_keyword(2);
    assert(kw == "wtime"@);
    let x = g.wtime->0;
    let d = crate::number::dec_text(x as nat);
    let p = go_part(g, 2);
    assert(" wtime "@ =~= seq![' '] + kw + seq![' ']);
    assert(p =~= seq![' '] + kw + seq![' '] + d);
    lemma_num_part(kw, seq![' '] + kw + seq![' '], x as nat, u64::MAX as int, s1);
    assert(p + s1 =~= seq![' '] + kw + seq![' '] + d + s1);
    assert(go_upto(g, 3) == crate::uci::GoModel { wtime: Some(x), ..go_upto(g, 2) });
    assert(crate::parser::go_key(kw, seq![' '] + (d + s1), go_upto(g, 2)) == Ok::<_, crate::uci::ProtocolError>((go_upto(g, 3), s1)));
}

proof fn lemma_go_step_btime(g: crate::uci::GoModel, s1: Seq<char>)
    requires
        g.btime is Some,
        sep_or_empty(s1),
    ensures
        crate::parser::go_loop(go_part(g, 3) + s1, go_upto(g, 3)) == crate::parser::go_loop(
            s1,
            go_upto(g, 4),
        ),
{
    reveal_strlit(" btime ");
    reveal_strlit("searchmoves");
    reveal_strlit("ponder");
    reveal_strlit("wtime");
    reveal_strlit("btime");
    reveal_strlit("winc");
    reveal_strlit("binc");
    reveal_strlit("movestogo");
    reveal_strlit("depth");
    reveal_strlit("nodes");
    reveal_strlit("mate");
    reveal_strlit("movetime");
    reveal_strlit("infinite");
    lemma_go_keywords();
    let kw = go_keyword(3);
    assert(kw == "btime"@);
    assert(kw[0] == 'b' && "wtime"@[0] == 'w');
    assert(kw != "wtime"@);
    let x = g.btime->0;
    let d = crate::number::dec_text(x as nat);
    let p = go_part(g, 3);
    assert(" btime "@ =~= seq![' '] + kw + seq![' ']);
    assert(p =~= seq![' '] + kw + seq![' '] + d);
    lemma_num_part(kw, seq![' '] + kw + seq![' '], x as nat, u64::MAX as int, s1);
    assert(p + s1 =~= seq![' '] + kw + seq![' '] + d + s1);
    assert(go_upto(g, 4) == crate::uci::GoModel { btime: Some(x), ..go_upto(g, 3) });
    assert(crate::parser::go_key(kw, seq![' '] + (d + s1), go_upto(g, 3)) == Ok::<_, crate::uci::ProtocolError>((go_upto(g, 4), s1)));
}

proof fn lemma_go_step_winc(g: crate::uci::GoModel, s1: Seq<char>)
    requires
        g.winc is Some,
        sep_or_empty(s1),
    ensures
        crate::parser::go_loop(go_part(g, 4) + s1, go_upto(g, 4)) == crate::parser::go_loop(
            s1,
            go_upto(g, 5),
        ),
{
    reveal_strlit(" winc ");
    reveal_strlit("searchmoves");
    reveal_strlit("ponder");
    reveal_strlit("wtime");
    reveal_strlit("btime");
    reveal_strlit("winc");
    reveal_strlit("binc");
    reveal_strlit("movestogo");
    reveal_strlit("depth");
    reveal_strlit("nodes");
    reveal_strlit("mate");
    reveal_strlit("movetime");
    reveal_strlit("infinite");
    lemma_go_keywords();
    let kw = go_keyword(4);
    assert(kw == "winc"@);
    let x = g.winc->0;
    let d = crate::number::dec_text(x as nat);
    let p = go_part(g, 4);
    assert(" winc "@ =~= seq![' '] + kw + seq![' ']);
    assert(p =~= seq![' '] + kw + seq![' '] + d);
    lemma_num_part(kw, seq![' '] + kw + seq![' '], x as nat, u64::MAX as int, s1);
    assert(p + s1 =~= seq![' '] + kw + seq![' '] + d + s1);
    assert(go_upto(g, 5) == crate::uci::GoModel { winc: Some(x), ..go_upto(g, 4) });
    assert(crate::parser::go_key(kw, seq![' '] + (d + s1), go_upto(g, 4)) == Ok::<_, crate::uci::ProtocolError>((go_upto(g, 5), s1)));
}

proof fn lemma_go_step_binc(g: crate::uci::GoModel, s1: Seq<char>)
    requires
        g.binc is Some,
        sep_or_empty(s1),
    ensures
        crate::parser::go_loop(go_part(g, 5) + s1, go_upto(g, 5)) == crate::parser::go_loop(
            s1,
            go_upto(g, 6),
        ),
{
    reveal_strlit(" binc ");
    reveal_strlit("searchmoves");
    reveal_strlit("ponder");
    reveal_strlit("wtime");
    reveal_strlit("btime");
    reveal_strlit("winc");
    reveal_strlit("binc");
    reveal_strlit("movestogo");
    reveal_strlit("depth");
    reveal_strlit("nodes");
    reveal_strlit("mate");
    reveal_strlit("movetime");
    reveal_strlit("infinite");
    lemma_go_keywords();
    let kw = go_keyword(5);
    assert(kw == "binc"@);
    assert(kw[0] == 'b' && "winc"@[0] == 'w');
    assert(kw != "winc"@);
    let x = g.binc->0;
    let d = crate::number::dec_text(x as nat);
    let p = go_part(g, 5);
    assert(" binc "@ =~= seq![' '] + kw + seq![' ']);
    assert(p =~= seq![' '] + kw + seq![' '] + d);
    lemma_num_part(kw, seq![' '] + kw + seq![' '], x as nat, u64::MAX as int, s1);
    assert(p + s1 =~= seq![' '] + kw + seq![' '] + d + s1);
    assert(go_upto(g, 6) == crate::uci::GoModel { binc: Some(x), ..go_upto(g, 5) });
    assert(crate::parser::go_key(kw, seq![' '] + (d + s1), go_upto(g, 5)) == Ok::<_, crate::uci::ProtocolError>((go_upto(g, 6), s1)));
}

proof fn lemma_go_step_movestogo(g: crate::uci::GoModel, s1: Seq<char>)
    requires
        g.movestogo is Some,
        sep_or_empty(s1),
    ensures
        crate::parser::go_loop(go_part(g, 6) + s1, go_upto(g, 6)) == crate::parser::go_loop(
            s1,
            go_upto(g, 7),
        ),
{
    reveal_strlit(" movestogo ");
    reveal_strlit("searchmoves");
    reveal_strlit("ponder");
    reveal_strlit("wtime");
    reveal_strlit("btime");
    reveal_strlit("winc");
    reveal_strlit("binc");
    reveal_strlit("movestogo");
    reveal_strlit("depth");
    reveal_strlit("nodes");
    reveal_strlit("mate");
    reveal_strlit("movetime");
    reveal_strlit("infinite");
    lemma_go_keywords();
    let kw = go_keyword(6);
    assert(kw == "movestogo"@);
    let x = g.movestogo->0;
    let d = crate::number::dec_text(x as nat);
    let p = go_part(g, 6);
    assert(" movestogo "@ =~= seq![' '] + kw + seq![' ']);
    assert(p =~= seq![' '] + kw + seq![' '] + d);
    lemma_num_part(kw, seq![' '] + kw + seq![' '], x as nat, u32::MAX as int, s1);
    assert(p + s1 =~= seq![' '] + kw + seq![' '] + d + s1);
    assert(go_upto(g, 7) == crate::uci::GoModel { movestogo: Some(x), ..go_upto(g, 6) });
    assert(crate::parser::go_key(kw, seq![' '] + (d + s1), go_upto(g, 6)) == Ok::<_, crate::uci::ProtocolError>((go_upto(g, 7), s1)));
}

proof fn lemma_go_step_depth(g: crate::uci::GoModel, s1: Seq<char>)
    requires
        g.depth is Some,
        sep_or_empty(s1),
    ensures
        crate::parser::go_loop(go_part(g, 7) + s1, go_upto(g, 7)) == crate::parser::go_loop(
            s1,
            go_upto(g, 8),
        ),
{
    reveal_strlit(" depth ");
    reveal_strlit("searchmoves");
    reveal_strlit("ponder");
    reveal_strlit("wtime");
    reveal_strlit("btime");
    reveal_strlit("winc");
    reveal_strlit("binc");
    reveal_strlit("movestogo");
    reveal_strlit("depth");
    reveal_strlit("nodes");
    reveal_strlit("mate");
    reveal_strlit("movetime");
    reveal_strlit("infinite");
    lemma_go_keywords();
    let kw = go_keyword(7);
    assert(kw == "depth"@);
    let x = g.depth->0;
    let d = crate::number::dec_text(x as nat);
    let p = go_part(g, 7);
    assert(" depth "@ =~= seq![' '] + kw + seq![' ']);
    assert(p =~= seq![' '] + kw + seq![' '] + d);
    lemma_num_part(kw, seq![' '] + kw + seq![' '], x as nat, u32::MAX as int, s1);
    assert(p + s1 =~= seq![' '] + kw + seq![' '] + d + s1);
    assert(go_upto(g, 8) == crate::uci::GoModel { depth: Some(x), ..go_upto(g, 7) });
    assert(crate::parser::go_key(kw, seq![' '] + (d + s1), go_upto(g, 7)) == Ok::<_, crate::uci::ProtocolError>((go_upto(g, 8), s1)));
}

proof fn lemma_go_step_nodes(g: crate::uci::GoModel, s1: Seq<char>)
    requires
        g.nodes is Some,
        sep_or_empty(s1),
    ensures
        crate::parser::go_loop(go_part(g, 8) + s1, go_upto(g, 8)) == crate::parser::go_loop(
            s1,
            go_upto(g, 9),
        ),
{
    reveal_strlit(" nodes ");
    reveal_strlit("searchmoves");
    reveal_strlit("ponder");
    reveal_strlit("wtime");
    reveal_strlit("btime");
    reveal_strlit("winc");
    reveal_strlit("binc");
    reveal_strlit("movestogo");
    reveal_strlit("depth");
    reveal_strlit("nodes");
    reveal_strlit("mate");
    reveal_strlit("movetime");
    reveal_strlit("infinite");
    lemma_go_keywords();
    let kw = go_keyword(8);
    assert(kw == "nodes"@);
    let x = g.nodes->0;
    let d = crate::number::dec_text(x as nat);
    let p = go_part(g, 8);
    assert(" nodes "@ =~= seq![' '] + kw + seq![' ']);
    assert(p =~= seq![' '] + kw + seq![' '] + d);
    lemma_num_part(kw, seq![' '] + kw + seq![' '], x as nat, u64::MAX as int, s1);
    assert(p + s1 =~= seq![' '] + kw + seq![' '] + d + s1);
    assert(go_upto(g, 9) == crate::uci::GoModel { nodes: Some(x), ..go_upto(g, 8) });
    assert(crate::parser::go_key(kw, seq![' '] + (d + s1), go_upto(g, 8)) == Ok::<_, crate::uci::ProtocolError>((go_upto(g, 9), s1)));
}

proof fn lemma_go_step_mate(g: crate::uci::GoModel, s1: Seq<char>)
    requires
        g.mate is Some,
        sep_or_empty(s1),
    ensures
        crate::parser::go_loop(go_part(g, 9) + s1, go_upto(g, 9)) == crate::parser::go_loop(
            s1,
            go_upto(g, 10),
        ),
{
    reveal_strlit(" mate ");
    reveal_strlit("searchmoves");
    reveal_strlit("ponder");
    reveal_strlit("wtime");
    reveal_strlit("btime");
    reveal_strlit("winc");
    reveal_strlit("binc");
    reveal_strlit("movestogo");
    reveal_strlit("depth");
    reveal_strlit("nodes");
    reveal_strlit("mate");
    reveal_strlit("movetime");
    reveal_strlit("infinite");
    lemma_go_keywords();
    let kw = go_keyword(9);
    assert(kw == "mate"@);
    let x = g.mate->0;
    let d = crate::number::dec_text(x as nat);
    let p = go_part(g, 9);
    assert(" mate "@ =~= seq![' '] + kw + seq![' ']);
    assert(p =~= seq![' '] + kw + seq![' '] + d);
    lemma_num_part(kw, seq![' '] + kw + seq![' '], x as nat, u32::MAX as int, s1);
    assert(p + s1 =~= seq![' '] + kw + seq![' '] + d + s1);
    assert(go_upto(g, 10) == crate::uci::GoModel { mate: Some(x), ..go_upto(g, 9) });
    assert(crate::parser::go_key(kw, seq![' '] + (d + s1), go_upto(g, 9)) == Ok::<_, crate::uci::ProtocolError>((go_upto(g, 10), s1)));
}

proof fn lemma_go_step_movetime(g: crate::uci::GoModel, s1: Seq<char>)
    requires
        g.movetime is Some,
        sep_or_empty(s1),
    ensures
        crate::parser::go_loop(go_part(g, 10) + s1, go_upto(g, 10)) == crate::parser::go_loop(
            s1,
            go_upto(g, 11),
        ),
{
    reveal_strlit(" movetime ");
    reveal_strlit("searchmoves");
    reveal_strlit("ponder");
    reveal_strlit("wtime");
    reveal_strlit("btime");
    reveal_strlit("winc");
    reveal_strlit("binc");
    reveal_strlit("movestogo");
    reveal_strlit("depth");
    reveal_strlit("nodes");
    reveal_strlit("mate");
    reveal_strlit("movetime");
    reveal_strlit("infinite");
    lemma_go_keywords();
    let kw = go_keyword(10);
    assert(kw == "movetime"@);
    assert(kw[0] == 'm' && "infinite"@[0] == 'i');
    assert(kw != "infinite"@);
    let x = g.movetime->0;
    let d = crate::number::dec_text(x as nat);
    let p = go_part(g, 10);
    assert(" movetime "@ =~= seq![' '] + kw + seq![' ']);
    assert(p =~= seq![' '] + kw + seq![' '] + d);
    lemma_num_part(kw, seq![' '] + kw + seq![' '], x as nat, u64::MAX as int, s1);
    assert(p + s1 =~= seq![' '] + kw + seq![' '] + d + s1);
    assert(go_upto(g, 11) == crate::uci::GoModel { movetime: Some(x), ..go_upto(g, 10) });
    assert(crate::parser::go_key(kw, seq![' '] + (d + s1), go_upto(g, 10)) == Ok::<_, crate::uci::ProtocolError>((go_upto(g, 11), s1)));
}

proof fn lemma_go_step_ponder(g: crate::uci::GoModel, s1: Seq<char>)
    requires
        g.ponder,
        sep_or_empty(s1),
    ensures
        crate::parser::go_loop(go_part(g, 1) + s1, go_upto(g, 1)) == crate::parser::go_loop(
            s1,
            go_upto(g, 2),
        ),
{
    reveal_strlit(" ponder");
    reveal_strlit("searchmoves");
    reveal_strlit("ponder");
    reveal_strlit("wtime");
    reveal_strlit("btime");
    reveal_strlit("winc");
    reveal_strlit("binc");
    reveal_strlit("movestogo");
    reveal_strlit("depth");
    reveal_strlit("nodes");
    reveal_strlit("mate");
    reveal_strlit("movetime");
    reveal_strlit("infinite");
    lemma_go_keywords();
    let kw = go_keyword(1);
    assert(kw == "ponder"@);
    let p = go_part(g, 1);
    assert(p =~= seq![' '] + kw);
    assert(p + s1 =~= seq![' '] + (kw + s1));
    lemma_token_sp(kw, s1);
    assert(go_upto(g, 2) == crate::uci::GoModel { ponder: true, ..go_upto(g, 1) });
    assert(crate::parser::go_key(kw, s1, go_upto(g, 1)) == Ok::<_, crate::uci::ProtocolError>((go_upto(g, 2), s1)));
}

proof fn lemma_go_step_infinite(g: crate::uci::GoModel, s1: Seq<char>)
    requires
        g.infinite,
        sep_or_empty(s1),
    ensures
        crate::parser::go_loop(go_part(g, 11) + s1, go_upto(g, 11)) == crate::parser::go_loop(
            s1,
            go_upto(g, 12),
        ),
{
    reveal_strlit(" infinite");
    reveal_strlit("searchmoves");
    reveal_strlit("ponder");
    reveal_strlit("wtime");
    reveal_strlit("btime");
    reveal_strlit("winc");
    reveal_strlit("binc");
    reveal_strlit("movestogo");
    reveal_strlit("depth");
    reveal_strlit("nodes");
    reveal_strlit("mate");
    reveal_strlit("movetime");
    reveal_strlit("infinite");
    lemma_go_keywords();
    let kw = go_keyword(11);
    assert(kw == "infinite"@);
    let p = go_part(g, 11);
    assert(p =~= seq![' '] + kw);
    assert(p + s1 =~= seq![' '] + (kw + s1));
    lemma_token_sp(kw, s1);
    assert(go_upto(g, 12) == crate::uci::GoModel { infinite: true, ..go_upto(g, 11) });
    assert(crate::parser::go_key(kw, s1, go_upto(g, 11)) == Ok::<_, crate::uci::ProtocolError>((go_upto(g, 12), s1)));
}

proof fn lemma_go_step_searchmoves(g: crate::uci::GoModel, s1: Seq<char>)
    requires
        g.searchmoves matches Some(ms) && move_list(ms),
        moves_end(s1),
    ensures
        crate::parser::go_loop(go_part(g, 0) + s1, go_upto(g, 0)) == crate::parser::go_loop(
            s1,
            go_upto(g, 1),
        ),
{
    reveal_strlit(" searchmoves");
    reveal_strlit("searchmoves");
    reveal_strlit("ponder");
    reveal_strlit("wtime");
    reveal_strlit("btime");
    reveal_strlit("winc");
    reveal_strlit("binc");
    reveal_strlit("movestogo");
    reveal_strlit("depth");
    reveal_strlit("nodes");
    reveal_strlit("mate");
    reveal_strlit("movetime");
    reveal_strlit("infinite");
    lemma_go_keywords();
    let kw = go_keyword(0);
    assert(kw == "searchmoves"@);
    let ms = g.searchmoves->0;
    let m = crate::encode::moves_text(ms);
    let p = go_part(g, 0);
    lemma_moves_text_start(ms);
    assert(p + s1 =~= seq![' '] + (kw + (m + s1)));
    assert(sep_or_empty(m + s1)) by {
        if ms.len() > 0 {
            assert((m + s1)[0] == m[0]);
        } else {
            assert(m + s1 =~= s1);
        }
    }
    lemma_token_sp(kw, m + s1);
    lemma_moves_complete(ms, s1);
    assert(go_upto(g, 1) == crate::uci::GoModel { searchmoves: Some(ms), ..go_upto(g, 0) });
    assert(crate::parser::go_key(kw, m + s1, go_upto(g, 0)) == Ok::<_, crate::uci::ProtocolError>((go_upto(g, 1), s1)));
}

proof fn lemma_go_step(g: crate::uci::GoModel, k: int)
    requires
        0 <= k < 12,
        g.searchmoves matches Some(ms) ==> move_list(ms),
    ensures
        crate::parser::go_loop(go_suffix(g, k), go_upto(g, k)) == crate::parser::go_loop(
            go_suffix(g, k + 1),
            go_upto(g, k + 1),
        ),
{
    lemma_go_suffix_shape(g, k + 1);
    reveal_strlit(" searchmoves");
    reveal_strlit(" ponder");
    reveal_strlit(" wtime ");
    reveal_strlit(" btime ");
    reveal_strlit(" winc ");
    reveal_strlit(" binc ");
    reveal_strlit(" movestogo ");
    reveal_strlit(" depth ");
    reveal_strlit(" nodes ");
    reveal_strlit(" mate ");
    reveal_strlit(" movetime ");
    reveal_strlit(" infinite");
    let p = go_part(g, k);
    let s1 = go_suffix(g, k + 1);
    assert(go_suffix(g, k) == p + s1);
    if p.len() == 0 {
        assert(p + s1 =~= s1);
        assert(go_upto(g, k) == go_upto(g, k + 1));
    } else if k == 0 {
        lemma_go_step_searchmoves(g, s1);
    } else if k == 1 {
        lemma_go_step_ponder(g, s1);
    } else if k == 2 {
        lemma_go_step_wtime(g, s1);
    } else if k == 3 {
        lemma_go_step_btime(g, s1);
    } else if k == 4 {
        lemma_go_step_winc(g, s1);
    } else if k == 5 {
        lemma_go_step_binc(g, s1);
    } else if k == 6 {
        lemma_go_step_movestogo(g, s1);
    } else if k == 7 {
        lemma_go_step_depth(g, s1);
    } else if k == 8 {
        lemma_go_step_nodes(g, s1);
    } else if k == 9 {
        lemma_go_step_mate(g, s1);
    } else if k == 10 {
        lemma_go_step_movetime(g, s1);
    } else {
        lemma_go_step_infinite(g, s1);
    }
}

} // verus!

verus! {

pub open spec fn go_wf(g: crate::uci::GoModel) -> bool {
    g.searchmoves matches Some(ms) ==> move_list(ms) && no_breaks_all(ms)
}

proof fn lemma_go_all(g: crate::uci::GoModel, k: int)
    requires
        0 <= k <= 12,
        go_wf(g),
    ensures
        crate::parser::go_loop(go_suffix(g, k), go_upto(g, k)) == Ok::<_, crate::uci::ProtocolError>(g),
    decreases 12 - k,
{
    if k == 12 {
        assert(go_upto(g, 12) == g);
    } else {
        lemma_go_step(g, k);
        lemma_go_all(g, k + 1);
    }
}

proof fn lemma_go_suffix_tail(g: crate::uci::GoModel, k: int)
    requires
        0 <= k <= 12,
        go_wf(g),
    ensures
        go_suffix(g, k).len() == 0 || !is_sep(go_suffix(g, k).last()),
        no_breaks(go_suffix(g, k)),
    decreases 12 - k,
{
    reveal_strlit(" searchmoves");
    reveal_strlit(" ponder");
    reveal_strlit(" wtime ");
    reveal_strlit(" btime ");
    reveal_strlit(" winc ");
    reveal_strlit(" binc ");
    reveal_strlit(" movestogo ");
    reveal_strlit(" depth ");
    reveal_strlit(" nodes ");
    reveal_strlit(" mate ");
    reveal_strlit(" movetime ");
    reveal_strlit(" infinite");
    if k < 12 {
        lemma_go_suffix_tail(g, k + 1);
        let p = go_part(g, k);
        let s1 = go_suffix(g, k + 1);
        assert(go_suffix(g, k) == p + s1);
        assert(p.len() == 0 || !is_sep(p.last()) && no_breaks(p)) by {
            if p.len() > 0 {
                if k == 0 {
                    let ms = g.searchmoves->0;
                    lemma_moves_text_no_breaks(ms);
                    lemma_no_breaks_lit(" searchmoves"@);
                    lemma_no_breaks_concat(" searchmoves"@, crate::encode::moves_text(ms));
                    if ms.len() > 0 {
                        lemma_moves_text_last(ms);
                        assert(p.last() == crate::encode::moves_text(ms).last());
                    } else {
                        lemma_moves_text_start(ms);
                        assert(p =~= " searchmoves"@);
                    }
                } else if k == 1 || k == 11 {
                    lemma_no_breaks_lit(p);
                } else {
                    let n: nat = if k == 6 {
                        g.movestogo->0 as nat
                    } else if k == 7 {
                        g.depth->0 as nat
                    } else if k == 9 {
                        g.mate->0 as nat
                    } else if k == 2 {
                        g.wtime->0 as nat
                    } else if k == 3 {
                        g.btime->0 as nat
                    } else if k == 4 {
                        g.winc->0 as nat
                    } else if k == 5 {
                        g.binc->0 as nat
                    } else if k == 8 {
                        g.nodes->0 as nat
                    } else {
                        g.movetime->0 as nat
                    };
                    let d = crate::number::dec_text(n);
                    crate::number::lemma_dec_text(n);
                    let w = p.subrange(0, p.len() - d.len());
                    assert(p =~= w + d);
                    assert(no_breaks(d)) by {
                        assert forall|i: int| 0 <= i < d.len() implies (#[trigger] d[i]) != '\r'
                            && d[i] != '\n' by {
                            assert(crate::number::is_digit(d[i]));
                        }
                    }
                    lemma_no_breaks_lit(w);
                    lemma_no_breaks_concat(w, d);
                    assert(p.last() == d.last());
                    assert(crate::number::is_digit(d[d.len() - 1]));
                }
            }
        }
        lemma_no_breaks_concat(p, s1);
        if s1.len() > 0 {
            assert((p + s1).last() == s1.last());
        } else {
            assert(p + s1 =~= p);
        }
    }
}

proof fn lemma_assoc(x: Seq<char>, y: Seq<char>, z: Seq<char>)
    ensures
        (x + y) + z == x + (y + z),
{
    assert((x + y) + z =~= x + (y + z));
}

proof fn lemma_go_tail_text(g: crate::uci::GoModel)
    ensures
        crate::encode::go_tail_text(g) == go_suffix(g, 6),
{
    let part6 = go_part(g, 6);
    let part7 = go_part(g, 7);
    let part8 = go_part(g, 8);
    let part9 = go_part(g, 9);
    let part10 = go_part(g, 10);
    let part11 = go_part(g, 11);
    assert(go_suffix(g, 12) == Seq::<char>::empty());
    assert(go_suffix(g, 11) =~= part11);
    assert(go_suffix(g, 10) == part10 + part11);
    assert(go_suffix(g, 9) == part9 + (part10 + part11));
    assert(go_suffix(g, 8) == part8 + (part9 + (part10 + part11)));
    assert(go_suffix(g, 7) == part7 + (part8 + (part9 + (part10 + part11))));
    assert(go_suffix(g, 6) == part6 + (part7 + (part8 + (part9 + (part10 + part11)))));
    assert(crate::encode::go_tail_text(g) == ((((part6 + part7) + part8) + part9) + part10) + part11);
    lemma_assoc((((part6 + part7) + part8) + part9), part10, part11);
    lemma_assoc(((part6 + part7) + part8), part9, part10 + part11);
    lemma_assoc((part6 + part7), part8, part9 + (part10 + part11));
    lemma_assoc(part6, part7, part8 + (part9 + (part10 + part11)));
}

proof fn lemma_go_head_text(g: crate::uci::GoModel)
    ensures
        go_suffix(g, 0) == crate::encode::go_head_text(g) + go_suffix(g, 6),
{
    let part0 = go_part(g, 0);
    let part1 = go_part(g, 1);
    let part2 = go_part(g, 2);
    let part3 = go_part(g, 3);
    let part4 = go_part(g, 4);
    let part5 = go_part(g, 5);
    let t = go_suffix(g, 6);
    assert(go_suffix(g, 5) == part5 + t);
    assert(go_suffix(g, 4) == part4 + (part5 + t));
    assert(go_suffix(g, 3) == part3 + (part4 + (part5 + t)));
    assert(go_suffix(g, 2) == part2 + (part3 + (part4 + (part5 + t))));
    assert(go_suffix(g, 1) == part1 + (part2 + (part3 + (part4 + (part5 + t)))));
    assert(go_suffix(g, 0) == part0 + (part1 + (part2 + (part3 + (part4 + (part5 + t))))));
    assert(crate::encode::go_head_text(g) == ((((part0 + part1) + part2) + part3) + part4) + part5);
    lemma_assoc((((part0 + part1) + part2) + part3) + part4, part5, t);
    lemma_assoc(((part0 + part1) + part2) + part3, part4, part5 + t);
    lemma_assoc((part0 + part1) + part2, part3, part4 + (part5 + t));
    lemma_assoc(part0 + part1, part2, part3 + (part4 + (part5 + t)));
    lemma_assoc(part0, part1, part2 + (part3 + (part4 + (part5 + t))));
}

proof fn lemma_go_text(g: crate::uci::GoModel)
    ensures
        crate::encode::go_fields_text(g) == go_suffix(g, 0),
{
    lemma_go_tail_text(g);
    lemma_go_head_text(g);
}

proof fn lemma_go_complete(g: crate::uci::GoModel)
    requires
        go_wf(g),
    ensures
        no_breaks(crate::encode::encode_in(crate::uci::InModel::Go(g))),
        crate::parser::in_spec(trim(crate::encode::encode_in(crate::uci::InModel::Go(g)))) == Ok::<
            _,
            crate::uci::ProtocolError,
        >(Some(crate::uci::InModel::Go(g))),
{
    reveal_strlit("go");
    reveal_strlit("uci");
    reveal_strlit("isready");
    reveal_strlit("ucinewgame");
    reveal_strlit("stop");
    reveal_strlit("ponderhit");
    reveal_strlit("setoption");
    reveal_strlit("position");
    let s0 = go_suffix(g, 0);
    let e = crate::encode::encode_in(crate::uci::InModel::Go(g));
    lemma_go_text(g);
    assert(e == "go"@ + s0);
    assert(is_word("go"@));
    lemma_go_suffix_shape(g, 0);
    lemma_go_suffix_tail(g, 0);
    if s0.len() > 0 {
        assert(e.last() == s0.last());
    } else {
        assert(e =~= "go"@);
    }
    assert(e[0] == 'g');
    lemma_trim_word_start(e);
    lemma_token("go"@, s0);
    lemma_go_all(g, 0);
    assert(go_upto(g, 0) == crate::parser::go_default());
    lemma_no_breaks_lit("go"@);
    lemma_no_breaks_concat("go"@, s0);
}

proof fn lemma_go_sound(s: Seq<char>, acc: crate::uci::GoModel)
    requires
        no_breaks(s),
        go_wf(acc),
        crate::parser::go_loop(s, acc) is Ok,
    ensures
        go_wf(crate::parser::go_loop(s, acc)->Ok_0),
    decreases s.len(),
{
    if next_token(s).0 is Some {
        lemma_token_sound(s);
        let k = next_token(s).0->0;
        let r = next_token(s).1;
        let step = crate::parser::go_key(k, r, acc);
        if k == "searchmoves"@ {
            lemma_moves_sound(r);
        }
        if step is Ok {
            let (acc2, r2) = step->Ok_0;
            assert(no_breaks(r2)) by {
                if k == "searchmoves"@ {
                } else if k == "ponder"@ || k == "infinite"@ {
                } else if next_token(r).0 is Some {
                    lemma_token_sound(r);
                }
            }
            if r2.len() < s.len() {
                lemma_go_sound(r2, acc2);
            }
        }
    }
}

} // verus!

verus! {

proof fn lemma_simple_complete(v: crate::uci::InModel)
    requires
        v is Uci || v is Isready || v is Ucinewgame || v is Stop || v is Ponderhit,
    ensures
        no_breaks(crate::encode::encode_in(v)),
        crate::parser::in_spec(trim(crate::encode::encode_in(v))) == Ok::<_, crate::uci::ProtocolError>(
            Some(v),
        ),
{
    reveal_strlit("uci");
    reveal_strlit("isready");
    reveal_strlit("ucinewgame");
    reveal_strlit("stop");
    reveal_strlit("ponderhit");
    let e = crate::encode::encode_in(v);
    assert(is_word(e));
    lemma_no_breaks_lit(e);
    lemma_trim_word_start(e);
    assert(e + Seq::<char>::empty() =~= e);
    lemma_token(e, Seq::empty());
    assert(e[0] == 'u' || e[0] == 'i' || e[0] == 's' || e[0] == 'p');
    assert(e != "uci"@ ==> e.len() != 3 || e[0] != 'u');
}

proof fn lemma_no_breaks_trim(s: Seq<char>)
    requires
        no_breaks(s),
    ensures
        no_breaks(trim(s)),
{
    lemma_skip_seps_len(s);
    let t = skip_seps(s);
    let off = s.len() - t.len();
    assert(t =~= s.subrange(off, s.len() as int));
    lemma_no_breaks_sub(s, off, s.len() as int);
    lemma_trim_end(t);
    assert(trim_end(t) =~= t.subrange(0, trim_end(t).len() as int));
    lemma_no_breaks_sub(t, 0, trim_end(t).len() as int);
}

proof fn lemma_in_sound(x: Seq<char>)
    requires
        no_breaks(x),
        crate::parser::in_spec(x) matches Ok(Some(_)),
    ensures
        wf_in(crate::parser::in_spec(x)->Ok_0->0),
{
    reveal_strlit("uci");
    reveal_strlit("isready");
    reveal_strlit("ucinewgame");
    reveal_strlit("stop");
    reveal_strlit("ponderhit");
    reveal_strlit("setoption");
    reveal_strlit("position");
    reveal_strlit("go");
    lemma_token_sound(x);
    let t = next_token(x).0->0;
    let r = next_token(x).1;
    if t == "setoption"@ {
        assert("setoption"@[0] == 's' && "ponderhit"@[0] == 'p');
        assert(t != "ponderhit"@);
        lemma_setoption_sound(r);
    } else if t == "position"@ {
        lemma_position_sound(r);
    } else if t == "go"@ {
        lemma_go_sound(r, crate::parser::go_default());
    }
}

/// Whatever a line sent to an engine reads as, the line written for it
/// reads as the same command.
pub proof fn law_input_round_trip(s: Seq<char>)
    requires
        crate::parser::decode_in(s) matches Ok(Some(_)),
    ensures
        crate::parser::decode_in(crate::encode::encode_in(crate::parser::decode_in(s)->Ok_0->0))
            == crate::parser::decode_in(s),
{
    let v = crate::parser::decode_in(s)->Ok_0->0;
    assert(no_breaks(s));
    lemma_no_breaks_trim(s);
    lemma_in_sound(trim(s));
    let e = crate::encode::encode_in(v);
    match v {
        crate::uci::InModel::Setoption { name, value } => lemma_setoption_complete(name, value),
        crate::uci::InModel::Position { fen, moves } => lemma_position_complete(fen, moves),
        crate::uci::InModel::Go(g) => lemma_go_complete(g),
        _ => lemma_simple_complete(v),
    }
    assert(!crate::parser::has_line_break(e));
}

} // verus!

verus! {

pub open spec fn opt_move_wf(m: Option<Seq<char>>) -> bool {
    m matches Some(x) ==> is_word(x) && crate::uci::is_uci_move(x) && no_breaks(x)
}

pub open spec fn text_or_empty_wf(x: Seq<char>, stop: Stop) -> bool {
    (x.len() == 0 || is_text(x, stop)) && no_breaks(x)
}

pub open spec fn texts_wf(v: Seq<Seq<char>>, stop: Stop) -> bool {
    forall|i: int| 0 <= i < v.len() ==> is_text(#[trigger] v[i], stop) && no_breaks(v[i])
}

pub open spec fn schema_wf_text(o: crate::uci::OptionSchema) -> bool {
    match o {
        crate::uci::OptionSchema::Combo { default, var } => is_text(default, Stop::DefaultOrVar)
            && no_breaks(default) && texts_wf(var, Stop::DefaultOrVar) && var.len() > 0,
        crate::uci::OptionSchema::Spin { default, min, max } => min <= default <= max,
        crate::uci::OptionSchema::Text { default } => text_or_empty_wf(default, Stop::Never),
        _ => true,
    }
}

proof fn lemma_opt_move_sound(t: Option<Seq<char>>)
    requires
        t matches Some(x) ==> is_word(x) && no_breaks(x),
        crate::parser::opt_move(t) is Ok,
    ensures
        opt_move_wf(crate::parser::opt_move(t)->Ok_0),
{
}

proof fn lemma_bestmove_sound(s: Seq<char>)
    requires
        no_breaks(s),
        crate::parser::bestmove_spec(s) is Ok,
    ensures
        crate::parser::bestmove_spec(s)->Ok_0 matches crate::uci::OutModel::Bestmove { m, ponder }
            && opt_move_wf(m) && opt_move_wf(ponder),
{
    if next_token(s).0 is Some {
        lemma_token_sound(s);
    }
    let r = next_token(s).1;
    assert(no_breaks(r)) by {
        if next_token(s).0 is None {
            assert(r =~= Seq::<char>::empty());
        }
    }
    if next_token(r).0 is Some {
        lemma_token_sound(r);
        let r2 = next_token(r).1;
        if next_token(r2).0 is Some {
            lemma_token_sound(r2);
        }
    }
}

proof fn lemma_combo_sound(s: Seq<char>, d: Option<Seq<char>>, var: Seq<Seq<char>>)
    requires
        no_breaks(s),
        d matches Some(x) ==> is_text(x, Stop::DefaultOrVar) && no_breaks(x),
        texts_wf(var, Stop::DefaultOrVar),
        crate::parser::combo_loop(s, d, var) is Ok,
    ensures
        crate::parser::combo_loop(s, d, var)->Ok_0.0 matches Some(x) ==> is_text(x, Stop::DefaultOrVar)
            && no_breaks(x),
        texts_wf(crate::parser::combo_loop(s, d, var)->Ok_0.1, Stop::DefaultOrVar),
    decreases s.len(),
{
    if next_token(s).0 is Some {
        lemma_token_sound(s);
        let r = next_token(s).1;
        let k = next_token(s).0->0;
        if take_until(r, Stop::DefaultOrVar).0 is Some {
            lemma_text_sound(r, Stop::DefaultOrVar);
            let x = take_until(r, Stop::DefaultOrVar).0->0;
            let r2 = take_until(r, Stop::DefaultOrVar).1;
            if r2.len() < s.len() {
                if k == "default"@ {
                    lemma_combo_sound(r2, Some(x), var);
                } else {
                    assert(texts_wf(var.push(x), Stop::DefaultOrVar)) by {
                        assert forall|i: int| 0 <= i < var.push(x).len() implies is_text(
                            #[trigger] var.push(x)[i],
                            Stop::DefaultOrVar,
                        ) && no_breaks(var.push(x)[i]) by {
                            if i < var.len() {
                                assert(var.push(x)[i] == var[i]);
                            }
                        }
                    }
                    lemma_combo_sound(r2, d, var.push(x));
                }
            }
        }
    }
}

proof fn lemma_schema_sound(s: Seq<char>)
    requires
        no_breaks(s),
        crate::parser::schema_spec(s) is Ok,
    ensures
        schema_wf_text(crate::parser::schema_spec(s)->Ok_0),
{
    reveal_strlit("check");
    reveal_strlit("spin");
    reveal_strlit("combo");
    reveal_strlit("button");
    reveal_strlit("string");
    lemma_token_sound(s);
    let t = next_token(s).0->0;
    let r = next_token(s).1;
    if t == "combo"@ {
        assert("combo"@[1] == 'o' && "check"@[1] == 'h');
        assert(t != "check"@);
        lemma_combo_sound(r, None, Seq::empty());
    } else if t == "string"@ {
        assert("string"@[0] == 's' && "button"@[0] == 'b');
        assert(t != "spin"@ && t != "check"@ && t != "button"@ && t != "combo"@);
        lemma_token_sound(r);
        let r2 = next_token(r).1;
        if take_until(r2, Stop::Never).0 is Some {
            lemma_text_sound(r2, Stop::Never);
        }
    }
}

pub open spec fn wf_out(v: crate::uci::OutModel) -> bool {
    match v {
        crate::uci::OutModel::IdName(n) => is_text(n, Stop::Never) && no_breaks(n),
        crate::uci::OutModel::IdAuthor(n) => is_text(n, Stop::Never) && no_breaks(n),
        crate::uci::OutModel::Bestmove { m, ponder } => opt_move_wf(m) && opt_move_wf(ponder),
        crate::uci::OutModel::OptionDecl { name, option } => is_text(name, Stop::Type) && no_breaks(
            name,
        ) && schema_wf_text(option),
        crate::uci::OutModel::Info(i) => info_wf(i),
        _ => true,
    }
}

pub open spec fn entries_wf(m: Seq<(Seq<char>, Seq<Seq<char>>)>) -> bool {
    &&& crate::uci::keys_unique(m)
    &&& forall|i: int|
        0 <= i < m.len() ==> is_word(#[trigger] m[i].0) && crate::uci::is_uci_move(m[i].0)
            && no_breaks(m[i].0) && move_list(m[i].1) && no_breaks_all(m[i].1)
}

pub open spec fn lines_wf(m: Seq<(u32, Seq<Seq<char>>)>) -> bool {
    &&& crate::uci::keys_unique(m)
    &&& forall|i: int| 0 <= i < m.len() ==> move_list(#[trigger] m[i].1) && no_breaks_all(m[i].1)
}

pub open spec fn info_wf(i: crate::uci::InfoModel) -> bool {
    &&& (i.multipv matches Some(n) ==> n >= 1)
    &&& opt_move_wf(i.currmove)
    &&& entries_wf(i.refutation)
    &&& lines_wf(i.currline)
    &&& (i.pv matches Some(ms) ==> move_list(ms) && no_breaks_all(ms))
    &&& (i.string matches Some(x) ==> text_or_empty_wf(x, Stop::Never))
}

} // verus!

verus! {

proof fn lemma_key_index<K, V>(m: Seq<(K, V)>, k: K, i: int)
    requires
        0 <= i <= m.len(),
    ensures
        i <= crate::uci::key_index(m, k, i) <= m.len(),
        crate::uci::key_index(m, k, i) < m.len() ==> m[crate::uci::key_index(m, k, i)].0 == k,
        forall|j: int| i <= j < crate::uci::key_index(m, k, i) ==> m[j].0 != k,
    decreases m.len() - i,
{
    if i < m.len() && m[i].0 != k {
        lemma_key_index(m, k, i + 1);
    }
}

proof fn lemma_assoc_put_entries(m: Seq<(Seq<char>, Seq<Seq<char>>)>, k: Seq<char>, v: Seq<Seq<char>>)
    requires
        entries_wf(m),
        is_word(k) && crate::uci::is_uci_move(k) && no_breaks(k),
        move_list(v) && no_breaks_all(v),
    ensures
        entries_wf(crate::uci::assoc_put(m, k, v)),
{
    lemma_key_index(m, k, 0);
    let r = crate::uci::assoc_put(m, k, v);
    let idx = crate::uci::key_index(m, k, 0);
    assert forall|i: int, j: int| 0 <= i < j < r.len() implies r[i].0 != r[j].0 by {
        if idx == m.len() && j == m.len() {
            assert(r[i] == m[i]);
        }
    }
}

proof fn lemma_assoc_put_lines(m: Seq<(u32, Seq<Seq<char>>)>, k: u32, v: Seq<Seq<char>>)
    requires
        lines_wf(m),
        move_list(v) && no_breaks_all(v),
    ensures
        lines_wf(crate::uci::assoc_put(m, k, v)),
{
    lemma_key_index(m, k, 0);
    let r = crate::uci::assoc_put(m, k, v);
    let idx = crate::uci::key_index(m, k, 0);
    assert forall|i: int, j: int| 0 <= i < j < r.len() implies r[i].0 != r[j].0 by {
        if idx == m.len() && j == m.len() {
            assert(r[i] == m[i]);
        }
    }
}

proof fn lemma_bounds_rest(s: Seq<char>, sc: crate::uci::Score)
    requires
        no_breaks(s),
    ensures
        no_breaks(crate::parser::bounds_loop(s, sc).1),
    decreases s.len(),
{
    if next_token(s).0 is Some {
        lemma_token_sound(s);
        let t = next_token(s).0->0;
        if t == "lowerbound"@ {
            lemma_bounds_rest(next_token(s).1, crate::uci::Score { lowerbound: true, ..sc });
        } else if t == "upperbound"@ {
            lemma_bounds_rest(next_token(s).1, crate::uci::Score { upperbound: true, ..sc });
        }
    }
}

proof fn lemma_info_key_sound(k: Seq<char>, s: Seq<char>, acc: crate::uci::InfoModel)
    requires
        no_breaks(s),
        info_wf(acc),
        crate::parser::info_key(k, s, acc) is Ok,
    ensures
        info_wf(crate::parser::info_key(k, s, acc)->Ok_0.0),
        no_breaks(crate::parser::info_key(k, s, acc)->Ok_0.1),
{
    reveal_strlit("multipv");
    reveal_strlit("depth");
    reveal_strlit("seldepth");
    reveal_strlit("currmovenumber");
    reveal_strlit("hashfull");
    reveal_strlit("cpuload");
    reveal_strlit("time");
    reveal_strlit("nodes");
    reveal_strlit("nps");
    reveal_strlit("tbhits");
    reveal_strlit("sbhits");
    reveal_strlit("score");
    reveal_strlit("currmove");
    reveal_strlit("refutation");
    reveal_strlit("currline");
    reveal_strlit("pv");
    reveal_strlit("string");
    if next_token(s).0 is Some {
        lemma_token_sound(s);
    }
    let r = next_token(s).1;
    if crate::parser::is_info_u32_key(k) || crate::parser::is_info_u64_key(k) {
    } else if k == "score"@ {
        let r1 = next_token(s).1;
        if next_token(r1).0 is Some {
            lemma_token_sound(r1);
            let r2 = next_token(r1).1;
            let sc = crate::parser::score_spec(s)->Ok_0.0;
            lemma_bounds_rest(r2, crate::uci::Score { eval: crate::uci::Eval::Cp(0), lowerbound: false, upperbound: false });
            let t = next_token(s).0->0;
            if t == "cp"@ {
                let n = crate::parser::p_signed(r1, i64::MIN as int, i64::MAX as int)->Ok_0.0;
                lemma_bounds_rest(r2, crate::uci::Score { eval: crate::uci::Eval::Cp(n as i64), lowerbound: false, upperbound: false });
            } else {
                let n = crate::parser::p_signed(r1, i32::MIN as int, i32::MAX as int)->Ok_0.0;
                lemma_bounds_rest(r2, crate::uci::Score { eval: crate::uci::Eval::Mate(n as i32), lowerbound: false, upperbound: false });
            }
        }
    } else if k == "currmove"@ {
    } else if k == "refutation"@ {
        lemma_moves_sound(r);
        let m = next_token(s).0->0;
        lemma_assoc_put_entries(acc.refutation, m, crate::parser::p_moves(r).0);
    } else if k == "currline"@ {
        lemma_moves_sound(r);
        let n = crate::parser::p_unsigned(s, 0, u32::MAX as int)->Ok_0.0;
        lemma_assoc_put_lines(acc.currline, n as u32, crate::parser::p_moves(r).0);
    } else if k == "pv"@ {
        lemma_moves_sound(s);
    } else if k == "string"@ {
        if take_until(s, Stop::Never).0 is Some {
            lemma_text_sound(s, Stop::Never);
        }
    }
}

proof fn lemma_info_sound(s: Seq<char>, acc: crate::uci::InfoModel)
    requires
        no_breaks(s),
        info_wf(acc),
        crate::parser::info_loop(s, acc) is Ok,
    ensures
        info_wf(crate::parser::info_loop(s, acc)->Ok_0),
    decreases s.len(),
{
    if next_token(s).0 is Some {
        lemma_token_sound(s);
        let k = next_token(s).0->0;
        let r = next_token(s).1;
        lemma_info_key_sound(k, r, acc);
        let (acc2, r2) = crate::parser::info_key(k, r, acc)->Ok_0;
        if r2.len() < s.len() {
            lemma_info_sound(r2, acc2);
        }
    }
}

} // verus!

verus! {

proof fn lemma_out_keywords()
    ensures
        is_word("id"@),
        is_word("uciok"@),
        is_word("readyok"@),
        is_word("bestmove"@),
        is_word("info"@),
        is_word("option"@),
        "id"@ != "uciok"@,
        "id"@ != "readyok"@,
        "id"@ != "bestmove"@,
        "id"@ != "info"@,
        "id"@ != "option"@,
        "uciok"@ != "readyok"@,
        "uciok"@ != "bestmove"@,
        "uciok"@ != "info"@,
        "uciok"@ != "option"@,
        "readyok"@ != "bestmove"@,
        "readyok"@ != "info"@,
        "readyok"@ != "option"@,
        "bestmove"@ != "info"@,
        "bestmove"@ != "option"@,
        "info"@ != "option"@,
{
    reveal_strlit("id");
    reveal_strlit("uciok");
    reveal_strlit("readyok");
    reveal_strlit("bestmove");
    reveal_strlit("info");
    reveal_strlit("option");
}

proof fn lemma_id_complete(v: crate::uci::OutModel)
    requires
        v is IdName || v is IdAuthor,
        wf_out(v),
    ensures
        no_breaks(crate::encode::encode_out(v)),
        crate::parser::out_spec(trim(crate::encode::encode_out(v))) == Ok::<_, crate::uci::ProtocolError>(
            Some(v),
        ),
{
    reveal_strlit("id name ");
    reveal_strlit("id author ");
    reveal_strlit("id");
    reveal_strlit("name");
    reveal_strlit("author");
    lemma_out_keywords();
    let e = crate::encode::encode_out(v);
    let (kw, n) = match v {
        crate::uci::OutModel::IdName(n) => ("name"@, n),
        crate::uci::OutModel::IdAuthor(n) => ("author"@, n),
        _ => ("name"@, Seq::empty()),
    };
    assert(is_word(kw));
    let rest = seq![' '] + (kw + (seq![' '] + (n + Seq::empty())));
    assert(e =~= "id"@ + rest);
    lemma_no_breaks_lit(e.subrange(0, e.len() - n.len()));
    assert(e =~= e.subrange(0, e.len() - n.len()) + n);
    lemma_no_breaks_concat(e.subrange(0, e.len() - n.len()), n);
    assert(e.last() == n.last());
    lemma_trim_word_start(e);
    lemma_token("id"@, rest);
    lemma_token_sp(kw, seq![' '] + (n + Seq::empty()));
    lemma_text_sp(n, Seq::empty(), Stop::Never);
}

proof fn lemma_ack_complete(v: crate::uci::OutModel)
    requires
        v is Uciok || v is Readyok,
    ensures
        no_breaks(crate::encode::encode_out(v)),
        crate::parser::out_spec(trim(crate::encode::encode_out(v))) == Ok::<_, crate::uci::ProtocolError>(
            Some(v),
        ),
{
    reveal_strlit("uciok");
    reveal_strlit("readyok");
    lemma_out_keywords();
    let e = crate::encode::encode_out(v);
    lemma_no_breaks_lit(e);
    lemma_trim_word_start(e);
    assert(e + Seq::<char>::empty() =~= e);
    lemma_token(e, Seq::empty());
}

#[verifier::rlimit(40)]
proof fn lemma_bestmove_complete(m: Option<Seq<char>>, ponder: Option<Seq<char>>)
    requires
        opt_move_wf(m),
        opt_move_wf(ponder),
    ensures
        no_breaks(crate::encode::encode_out(crate::uci::OutModel::Bestmove { m, ponder })),
        crate::parser::out_spec(
            trim(crate::encode::encode_out(crate::uci::OutModel::Bestmove { m, ponder })),
        ) == Ok::<_, crate::uci::ProtocolError>(Some(crate::uci::OutModel::Bestmove { m, ponder })),
{
    reveal_strlit("bestmove ");
    reveal_strlit("bestmove");
    reveal_strlit("bestmove (none)");
    reveal_strlit(" ponder ");
    reveal_strlit("(none)");
    reveal_strlit("ponder");
    lemma_out_keywords();
    let v = crate::uci::OutModel::Bestmove { m, ponder };
    let e = crate::encode::encode_out(v);
    let mw = match m {
        Some(x) => x,
        None => "(none)"@,
    };
    assert(is_word(mw));
    assert(no_breaks(mw));
    assert(m is Some ==> mw.len() == 4 || mw.len() == 5);
    assert(mw.len() == 6 ==> m is None);
    let tail = match ponder {
        Some(p) => seq![' '] + ("ponder"@ + (seq![' '] + (p + Seq::empty()))),
        None => Seq::empty(),
    };
    assert(is_word("ponder"@));
    let first = seq![' '] + (mw + tail);
    assert(e =~= "bestmove"@ + first);
    assert(sep_or_empty(tail));
    lemma_token("bestmove"@, first);
    lemma_token_sp(mw, tail);
    match ponder {
        Some(p) => {
            lemma_token_sp("ponder"@, seq![' '] + (p + Seq::empty()));
            lemma_token_sp(p, Seq::empty());
            assert(e.last() == p.last());
            assert(p.len() == 4 || p.len() == 5);
            lemma_no_breaks_lit("bestmove"@ + seq![' ']);
            lemma_no_breaks_concat("bestmove"@ + seq![' '], mw);
            lemma_no_breaks_lit(" ponder "@);
            lemma_no_breaks_concat("bestmove"@ + seq![' '] + mw, " ponder "@);
            lemma_no_breaks_concat("bestmove"@ + seq![' '] + mw + " ponder "@, p);
            assert(e =~= "bestmove"@ + seq![' '] + mw + " ponder "@ + p);
        },
        None => {
            assert(e.last() == mw.last());
            lemma_no_breaks_lit("bestmove"@ + seq![' ']);
            lemma_no_breaks_concat("bestmove"@ + seq![' '], mw);
            assert(e =~= "bestmove"@ + seq![' '] + mw);
            assert(next_token(Seq::<char>::empty()).0 is None);
        },
    }
    lemma_trim_word_start(e);
}

} // verus!

verus! {

proof fn lemma_signed_word(n: int)
    ensures
        is_word(crate::number::signed_dec_text(n)),
        no_breaks(crate::number::signed_dec_text(n)),
        crate::number::signed_text(crate::number::signed_dec_text(n)) == Some(n),
{
    crate::number::lemma_signed_round_trip(n);
    let t = crate::number::signed_dec_text(n);
    if n < 0 {
        crate::number::lemma_dec_text((-n) as nat);
        let d = crate::number::dec_text((-n) as nat);
        assert forall|i: int| 0 <= i < t.len() implies !is_sep(#[trigger] t[i]) && t[i] != '\r'
            && t[i] != '\n' by {
            if i > 0 {
                assert(t[i] == d[i - 1]);
                assert(crate::number::is_digit(d[i - 1]));
            }
        }
    } else {
        crate::number::lemma_dec_text(n as nat);
        assert forall|i: int| 0 <= i < t.len() implies !is_sep(#[trigger] t[i]) && t[i] != '\r'
            && t[i] != '\n' by {
            assert(crate::number::is_digit(t[i]));
        }
    }
}

/// A keyword and a signed number read back as a `spin` bound.
proof fn lemma_spin_step(
    kw: Seq<char>,
    n: i64,
    rest: Seq<char>,
    d: Option<i64>,
    lo: Option<i64>,
    hi: Option<i64>,
)
    requires
        kw == "default"@ || kw == "min"@ || kw == "max"@,
        sep_or_empty(rest),
    ensures
        crate::parser::spin_loop(
            seq![' '] + (kw + (seq![' '] + (crate::number::signed_dec_text(n as int) + rest))),
            d,
            lo,
            hi,
        ) == if kw == "default"@ {
            crate::parser::spin_loop(rest, Some(n), lo, hi)
        } else if kw == "min"@ {
            crate::parser::spin_loop(rest, d, Some(n), hi)
        } else {
            crate::parser::spin_loop(rest, d, lo, Some(n))
        },
{
    reveal_strlit("default");
    reveal_strlit("min");
    reveal_strlit("max");
    let t = crate::number::signed_dec_text(n as int);
    lemma_signed_word(n as int);
    assert(is_word(kw));
    lemma_token_sp(kw, seq![' '] + (t + rest));
    lemma_token_sp(t, rest);
}

proof fn lemma_vars_text_shape(var: Seq<Seq<char>>)
    ensures
        var.len() == 0 ==> crate::encode::vars_text(var) == Seq::<char>::empty(),
        var.len() > 0 ==> crate::encode::vars_text(var) == seq![' '] + ("var"@ + (seq![' '] + (var[0]
            + crate::encode::vars_text(var.drop_first())))),
{
    reveal_strlit(" var ");
    reveal_strlit("var");
    if var.len() > 0 {
        assert(crate::encode::vars_text(var) =~= seq![' '] + ("var"@ + (seq![' '] + (var[0]
            + crate::encode::vars_text(var.drop_first())))));
    }
}

proof fn lemma_combo_vars(var: Seq<Seq<char>>, d: Seq<char>, acc: Seq<Seq<char>>)
    requires
        texts_wf(var, Stop::DefaultOrVar),
    ensures
        crate::parser::combo_loop(crate::encode::vars_text(var), Some(d), acc) == Ok::<
            _,
            crate::uci::ProtocolError,
        >((Some(d), acc + var)),
        ends_text(crate::encode::vars_text(var), Stop::DefaultOrVar),
        no_breaks(crate::encode::vars_text(var)),
        crate::encode::vars_text(var).len() == 0 || !is_sep(crate::encode::vars_text(var).last()),
    decreases var.len(),
{
    reveal_strlit(" var ");
    reveal_strlit("var");
    reveal_strlit("default");
    lemma_vars_text_shape(var);
    if var.len() == 0 {
        assert(acc + var =~= acc);
    } else {
        let rest = var.drop_first();
        assert(texts_wf(rest, Stop::DefaultOrVar)) by {
            assert forall|i: int| 0 <= i < rest.len() implies is_text(#[trigger] rest[i], Stop::DefaultOrVar)
                && no_breaks(rest[i]) by {
                assert(rest[i] == var[i + 1]);
            }
        }
        lemma_combo_vars(rest, d, acc.push(var[0]));
        let vt = crate::encode::vars_text(rest);
        assert(is_word("var"@));
        assert(is_text(var[0], Stop::DefaultOrVar));
        lemma_token_sp("var"@, seq![' '] + (var[0] + vt));
        lemma_text_sp(var[0], vt, Stop::DefaultOrVar);
        assert(acc.push(var[0]) + rest =~= acc + var);
        let x = crate::encode::vars_text(var);
        assert(x[0] == ' ');
        assert(stops_at(Stop::DefaultOrVar, "var"@));
        lemma_no_breaks_lit(" var "@);
        lemma_no_breaks_concat(" var "@, var[0]);
        lemma_no_breaks_concat(" var "@ + var[0], vt);
        assert(x =~= " var "@ + var[0] + vt);
        if vt.len() > 0 {
            assert(x.last() == vt.last());
        } else {
            assert(x.last() == var[0].last());
        }
    }
}

} // verus!

verus! {

/// The declaration after the word `type`, without the trailing separator
/// of an empty string default.
pub open spec fn schema_body(o: crate::uci::OptionSchema) -> Seq<char> {
    match o {
        crate::uci::OptionSchema::Check { default } => " check default "@ + if default {
            "true"@
        } else {
            "false"@
        },
        crate::uci::OptionSchema::Spin { default, min, max } => " spin default "@
            + crate::number::signed_dec_text(default as int) + " min "@ + crate::number::signed_dec_text(
            min as int,
        ) + " max "@ + crate::number::signed_dec_text(max as int),
        crate::uci::OptionSchema::Combo { default, var } => " combo default "@ + default
            + crate::encode::vars_text(var),
        crate::uci::OptionSchema::Button => " button"@,
        crate::uci::OptionSchema::Text { default } => if default.len() == 0 {
            " string default"@
        } else {
            " string default "@ + default
        },
    }
}

proof fn lemma_schema_kinds()
    ensures
        is_word("check"@) && is_word("spin"@) && is_word("combo"@) && is_word("button"@) && is_word(
            "string"@,
        ) && is_word("default"@) && is_word("min"@) && is_word("max"@) && is_word("type"@),
        "spin"@ != "check"@,
        "combo"@ != "check"@ && "combo"@ != "spin"@,
        "button"@ != "check"@ && "button"@ != "spin"@ && "button"@ != "combo"@,
        "string"@ != "check"@ && "string"@ != "spin"@ && "string"@ != "combo"@ && "string"@ != "button"@,
        "true"@ != "false"@,
{
    reveal_strlit("check");
    reveal_strlit("spin");
    reveal_strlit("combo");
    reveal_strlit("button");
    reveal_strlit("string");
    reveal_strlit("default");
    reveal_strlit("min");
    reveal_strlit("max");
    reveal_strlit("type");
    reveal_strlit("true");
    reveal_strlit("false");
    assert("combo"@[1] != "check"@[1]);
    assert("string"@[0] != "button"@[0]);
    assert("true"@.len() == 4 && "false"@.len() == 5);
}

proof fn lemma_schema_check(o: crate::uci::OptionSchema)
    requires
        o is Check,
        schema_wf_text(o),
    ensures
        schema_body(o).len() > 0 && schema_body(o)[0] == ' ',
        !is_sep(schema_body(o).last()),
        no_breaks(schema_body(o)),
        crate::parser::schema_spec(schema_body(o)) == Ok::<_, crate::uci::ProtocolError>(o),
{
    reveal_strlit(" check default ");
    reveal_strlit(" spin default ");
    reveal_strlit(" min ");
    reveal_strlit(" max ");
    reveal_strlit(" combo default ");
    reveal_strlit(" button");
    reveal_strlit(" string default ");
    reveal_strlit(" string default");
    reveal_strlit("check");
    reveal_strlit("spin");
    reveal_strlit("combo");
    reveal_strlit("button");
    reveal_strlit("string");
    reveal_strlit("default");
    reveal_strlit("min");
    reveal_strlit("max");
    reveal_strlit("true");
    reveal_strlit("false");
    lemma_schema_kinds();
    let b = schema_body(o);
    let default = o->Check_default;

            let tf = if default {
                "true"@
            } else {
                "false"@
            };
            assert(is_word(tf));
            assert("true"@.len() == 4 && "false"@.len() == 5);
            assert(b =~= seq![' '] + ("check"@ + (seq![' '] + ("default"@ + (seq![' '] + (tf
                + Seq::empty()))))));
            lemma_token_sp("check"@, seq![' '] + ("default"@ + (seq![' '] + (tf + Seq::empty()))));
            lemma_token_sp("default"@, seq![' '] + (tf + Seq::empty()));
            lemma_token_sp(tf, Seq::empty());
            lemma_no_breaks_lit(b);
}

proof fn lemma_spin_body_text(o: crate::uci::OptionSchema)
    requires
        o is Spin,
    ensures
        schema_body(o).len() > 0 && schema_body(o)[0] == ' ',
        !is_sep(schema_body(o).last()),
        no_breaks(schema_body(o)),
{
    reveal_strlit(" spin default ");
    reveal_strlit(" min ");
    reveal_strlit(" max ");
    let sd = crate::number::signed_dec_text(o->Spin_default as int);
    let sl = crate::number::signed_dec_text(o->Spin_min as int);
    let sh = crate::number::signed_dec_text(o->Spin_max as int);
    lemma_signed_word(o->Spin_default as int);
    lemma_signed_word(o->Spin_min as int);
    lemma_signed_word(o->Spin_max as int);
    let b = schema_body(o);
    assert(b == " spin default "@ + sd + " min "@ + sl + " max "@ + sh);
    assert(b.last() == sh.last());
    lemma_no_breaks_lit(" spin default "@);
    lemma_no_breaks_lit(" min "@);
    lemma_no_breaks_lit(" max "@);
    lemma_no_breaks_concat(" spin default "@, sd);
    lemma_no_breaks_concat(" spin default "@ + sd, " min "@);
    lemma_no_breaks_concat(" spin default "@ + sd + " min "@, sl);
    lemma_no_breaks_concat(" spin default "@ + sd + " min "@ + sl, " max "@);
    lemma_no_breaks_concat(" spin default "@ + sd + " min "@ + sl + " max "@, sh);
}

#[verifier::rlimit(80)]
proof fn lemma_schema_spin(o: crate::uci::OptionSchema)
    requires
        o is Spin,
        schema_wf_text(o),
    ensures
        schema_body(o).len() > 0 && schema_body(o)[0] == ' ',
        !is_sep(schema_body(o).last()),
        no_breaks(schema_body(o)),
        crate::parser::schema_spec(schema_body(o)) == Ok::<_, crate::uci::ProtocolError>(o),
{
    reveal_strlit(" spin default ");
    reveal_strlit(" min ");
    reveal_strlit(" max ");
    reveal_strlit("spin");
    reveal_strlit("check");
    reveal_strlit("default");
    reveal_strlit("min");
    reveal_strlit("max");
    lemma_schema_kinds();
    lemma_spin_body_text(o);
    let default = o->Spin_default;
    let min = o->Spin_min;
    let max = o->Spin_max;
    let b = schema_body(o);
    let sd = crate::number::signed_dec_text(default as int);
    let sl = crate::number::signed_dec_text(min as int);
    let sh = crate::number::signed_dec_text(max as int);
    let r3 = seq![' '] + ("max"@ + (seq![' '] + (sh + Seq::empty())));
    let r2 = seq![' '] + ("min"@ + (seq![' '] + (sl + r3)));
    let r1 = seq![' '] + ("default"@ + (seq![' '] + (sd + r2)));
    assert(b =~= seq![' '] + ("spin"@ + r1));
    lemma_token_sp("spin"@, r1);
    lemma_spin_step("default"@, default, r2, None, None, None);
    lemma_spin_step("min"@, min, r3, Some(default), None, None);
    assert("max"@[1] != "min"@[1]);
    assert("max"@ != "min"@ && "max"@ != "default"@ && "min"@ != "default"@);
    lemma_spin_step("max"@, max, Seq::empty(), Some(default), Some(min), None);
    assert(crate::parser::spin_loop(Seq::empty(), Some(default), Some(min), Some(max)) == Ok::<
        _,
        crate::uci::ProtocolError,
    >((Some(default), Some(min), Some(max))));
    assert(crate::parser::spin_loop(r1, None, None, None) == Ok::<_, crate::uci::ProtocolError>(
        (Some(default), Some(min), Some(max)),
    ));
    assert(o == crate::uci::OptionSchema::Spin { default, min, max });
    assert("spin"@ != "check"@);
}

proof fn lemma_combo_body_text(o: crate::uci::OptionSchema)
    requires
        o is Combo,
        schema_wf_text(o),
    ensures
        schema_body(o).len() > 0 && schema_body(o)[0] == ' ',
        !is_sep(schema_body(o).last()),
        no_breaks(schema_body(o)),
{
    reveal_strlit(" combo default ");
    let default = o->Combo_default;
    let var = o->Combo_var;
    lemma_combo_vars(var, default, Seq::empty());
    let v = crate::encode::vars_text(var);
    let b = schema_body(o);
    assert(b == " combo default "@ + default + v);
    if v.len() > 0 {
        assert(b.last() == v.last());
    } else {
        assert(b =~= " combo default "@ + default);
        assert(b.last() == default.last());
    }
    lemma_no_breaks_lit(" combo default "@);
    lemma_no_breaks_concat(" combo default "@, default);
    lemma_no_breaks_concat(" combo default "@ + default, v);
}

#[verifier::rlimit(80)]
proof fn lemma_schema_combo(o: crate::uci::OptionSchema)
    requires
        o is Combo,
        schema_wf_text(o),
    ensures
        schema_body(o).len() > 0 && schema_body(o)[0] == ' ',
        !is_sep(schema_body(o).last()),
        no_breaks(schema_body(o)),
        crate::parser::schema_spec(schema_body(o)) == Ok::<_, crate::uci::ProtocolError>(o),
{
    reveal_strlit(" combo default ");
    reveal_strlit("check");
    reveal_strlit("spin");
    reveal_strlit("combo");
    reveal_strlit("default");
    assert("combo"@[1] != "check"@[1]);
    assert("combo"@ != "check"@ && "combo"@ != "spin"@);
    assert(is_word("combo"@) && is_word("default"@));
    lemma_combo_body_text(o);
    let default = o->Combo_default;
    let var = o->Combo_var;
    lemma_combo_vars(var, default, Seq::empty());
    let v = crate::encode::vars_text(var);
    let b = schema_body(o);
    let r1 = seq![' '] + ("default"@ + (seq![' '] + (default + v)));
    assert(b =~= seq![' '] + ("combo"@ + r1));
    lemma_token_sp("combo"@, r1);
    lemma_token_sp("default"@, seq![' '] + (default + v));
    lemma_text_sp(default, v, Stop::DefaultOrVar);
    assert(Seq::<Seq<char>>::empty() + var =~= var);
    assert(crate::parser::combo_loop(v, Some(default), Seq::empty()) == Ok::<_, crate::uci::ProtocolError>((Some(default), var)));
    assert(crate::parser::combo_loop(r1, None, Seq::empty()) == Ok::<_, crate::uci::ProtocolError>((Some(default), var)));
    assert(o == crate::uci::OptionSchema::Combo { default, var });
}

proof fn lemma_schema_button(o: crate::uci::OptionSchema)
    requires
        o is Button,
        schema_wf_text(o),
    ensures
        schema_body(o).len() > 0 && schema_body(o)[0] == ' ',
        !is_sep(schema_body(o).last()),
        no_breaks(schema_body(o)),
        crate::parser::schema_spec(schema_body(o)) == Ok::<_, crate::uci::ProtocolError>(o),
{
    reveal_strlit(" check default ");
    reveal_strlit(" spin default ");
    reveal_strlit(" min ");
    reveal_strlit(" max ");
    reveal_strlit(" combo default ");
    reveal_strlit(" button");
    reveal_strlit(" string default ");
    reveal_strlit(" string default");
    reveal_strlit("check");
    reveal_strlit("spin");
    reveal_strlit("combo");
    reveal_strlit("button");
    reveal_strlit("string");
    reveal_strlit("default");
    reveal_strlit("min");
    reveal_strlit("max");
    reveal_strlit("true");
    reveal_strlit("false");
    lemma_schema_kinds();
    let b = schema_body(o);
    

            assert(b =~= seq![' '] + ("button"@ + Seq::empty()));
            lemma_token_sp("button"@, Seq::empty());
            lemma_no_breaks_lit(b);
}

proof fn lemma_schema_text(o: crate::uci::OptionSchema)
    requires
        o is Text,
        schema_wf_text(o),
    ensures
        schema_body(o).len() > 0 && schema_body(o)[0] == ' ',
        !is_sep(schema_body(o).last()),
        no_breaks(schema_body(o)),
        crate::parser::schema_spec(schema_body(o)) == Ok::<_, crate::uci::ProtocolError>(o),
{
    reveal_strlit(" check default ");
    reveal_strlit(" spin default ");
    reveal_strlit(" min ");
    reveal_strlit(" max ");
    reveal_strlit(" combo default ");
    reveal_strlit(" button");
    reveal_strlit(" string default ");
    reveal_strlit(" string default");
    reveal_strlit("check");
    reveal_strlit("spin");
    reveal_strlit("combo");
    reveal_strlit("button");
    reveal_strlit("string");
    reveal_strlit("default");
    reveal_strlit("min");
    reveal_strlit("max");
    reveal_strlit("true");
    reveal_strlit("false");
    lemma_schema_kinds();
    let b = schema_body(o);
    let default = o->Text_default;

            if default.len() == 0 {
                assert(b =~= seq![' '] + ("string"@ + (seq![' '] + ("default"@ + Seq::empty()))));
                lemma_token_sp("string"@, seq![' '] + ("default"@ + Seq::empty()));
                lemma_token_sp("default"@, Seq::empty());
                lemma_no_breaks_lit(b);
            } else {
                let r1 = seq![' '] + ("default"@ + (seq![' '] + (default + Seq::empty())));
                assert(b =~= seq![' '] + ("string"@ + r1));
                lemma_token_sp("string"@, r1);
                lemma_token_sp("default"@, seq![' '] + (default + Seq::empty()));
                lemma_text_sp(default, Seq::empty(), Stop::Never);
                assert(b.last() == default.last());
                lemma_no_breaks_lit(" string default "@);
                lemma_no_breaks_concat(" string default "@, default);
            }
}

proof fn lemma_schema_complete(o: crate::uci::OptionSchema)
    requires
        schema_wf_text(o),
    ensures
        schema_body(o).len() > 0 && schema_body(o)[0] == ' ',
        !is_sep(schema_body(o).last()),
        no_breaks(schema_body(o)),
        crate::parser::schema_spec(schema_body(o)) == Ok::<_, crate::uci::ProtocolError>(o),
{
    match o {
        crate::uci::OptionSchema::Check { .. } => lemma_schema_check(o),
        crate::uci::OptionSchema::Spin { .. } => lemma_schema_spin(o),
        crate::uci::OptionSchema::Combo { .. } => lemma_schema_combo(o),
        crate::uci::OptionSchema::Button => lemma_schema_button(o),
        crate::uci::OptionSchema::Text { .. } => lemma_schema_text(o),
    }
}

} // verus!

verus! {

proof fn lemma_option_text(o: crate::uci::OptionSchema)
    ensures
        (o matches crate::uci::OptionSchema::Text { default } && default.len() == 0) ==> crate::encode::schema_text(
            o,
        ) == "type"@ + schema_body(o) + seq![' '],
        !(o matches crate::uci::OptionSchema::Text { default } && default.len() == 0) ==> crate::encode::schema_text(
            o,
        ) == "type"@ + schema_body(o),
{
    reveal_strlit("type check default ");
    reveal_strlit("type spin default ");
    reveal_strlit("type combo default ");
    reveal_strlit("type button");
    reveal_strlit("type string default ");
    reveal_strlit(" check default ");
    reveal_strlit(" spin default ");
    reveal_strlit(" combo default ");
    reveal_strlit(" button");
    reveal_strlit(" string default ");
    reveal_strlit(" string default");
    reveal_strlit("type");
    match o {
        crate::uci::OptionSchema::Text { default } => {
            if default.len() == 0 {
                assert(crate::encode::schema_text(o) =~= "type"@ + schema_body(o) + seq![' ']);
            } else {
                assert(crate::encode::schema_text(o) =~= "type"@ + schema_body(o));
            }
        },
        _ => {
            assert(crate::encode::schema_text(o) =~= "type"@ + schema_body(o));
        },
    }
}

#[verifier::rlimit(60)]
proof fn lemma_option_complete(name: Seq<char>, o: crate::uci::OptionSchema)
    requires
        is_text(name, Stop::Type),
        no_breaks(name),
        schema_wf_text(o),
    ensures
        no_breaks(crate::encode::encode_out(crate::uci::OutModel::OptionDecl { name, option: o })),
        crate::parser::out_spec(
            trim(crate::encode::encode_out(crate::uci::OutModel::OptionDecl { name, option: o })),
        ) == Ok::<_, crate::uci::ProtocolError>(
            Some(crate::uci::OutModel::OptionDecl { name, option: o }),
        ),
{
    reveal_strlit("option name ");
    reveal_strlit(" ");
    reveal_strlit(" type");
    reveal_strlit("option");
    reveal_strlit("name");
    reveal_strlit("type");
    lemma_out_keywords();
    lemma_schema_kinds();
    lemma_option_text(o);
    lemma_schema_complete(o);
    let e = crate::encode::encode_out(crate::uci::OutModel::OptionDecl { name, option: o });
    let b = schema_body(o);
    let t = seq![' '] + ("type"@ + b);
    let core = "option"@ + (seq![' '] + ("name"@ + (seq![' '] + (name + t))));
    assert(core =~= "option name "@ + name + " "@ + "type"@ + b);
    assert(core.last() == b.last());
    assert(core[0] == 'o');
    lemma_trim_word_start(core);
    if o matches crate::uci::OptionSchema::Text { default } && default.len() == 0 {
        assert(e =~= core + seq![' ']);
        lemma_skip_seps_len(e);
        assert(skip_seps(e) == e);
        assert(e.drop_last() =~= core);
        assert(trim_end(e) == trim_end(core));
    } else {
        assert(e =~= core);
    }
    assert(trim(e) == core);
    lemma_token("option"@, seq![' '] + ("name"@ + (seq![' '] + (name + t))));
    lemma_token_sp("name"@, seq![' '] + (name + t));
    lemma_token_sp("type"@, b);
    assert(stops_at(Stop::Type, "type"@));
    lemma_text_sp(name, t, Stop::Type);
    lemma_no_breaks_lit("option name "@);
    lemma_no_breaks_concat("option name "@, name);
    lemma_no_breaks_lit(" type"@);
    lemma_no_breaks_concat("option name "@ + name, " type"@);
    lemma_no_breaks_concat("option name "@ + name + " type"@, b);
    assert(core =~= "option name "@ + name + " type"@ + b);
    if o matches crate::uci::OptionSchema::Text { default } && default.len() == 0 {
        lemma_no_breaks_lit(seq![' ']);
        lemma_no_breaks_concat(core, seq![' ']);
    }
}

} // verus!

verus! {

pub open spec fn info_part(i: crate::uci::InfoModel, k: int) -> Seq<char> {
    if k == 0 {
        crate::encode::num_text(" multipv "@, crate::encode::opt32(i.multipv))
    } else if k == 1 {
        crate::encode::num_text(" depth "@, crate::encode::opt32(i.depth))
    } else if k == 2 {
        crate::encode::num_text(" seldepth "@, crate::encode::opt32(i.seldepth))
    } else if k == 3 {
        crate::encode::num_text(" time "@, crate::encode::opt64(i.time))
    } else if k == 4 {
        crate::encode::num_text(" nodes "@, crate::encode::opt64(i.nodes))
    } else if k == 5 {
        crate::encode::score_text(i.score)
    } else if k == 6 {
        match i.currmove { Some(m) => " currmove "@ + m, None => Seq::empty() }
    } else if k == 7 {
        crate::encode::num_text(" currmovenumber "@, crate::encode::opt32(i.currmovenumber))
    } else if k == 8 {
        crate::encode::num_text(" hashfull "@, crate::encode::opt32(i.hashfull))
    } else if k == 9 {
        crate::encode::num_text(" nps "@, crate::encode::opt64(i.nps))
    } else if k == 10 {
        crate::encode::num_text(" tbhits "@, crate::encode::opt64(i.tbhits))
    } else if k == 11 {
        crate::encode::num_text(" sbhits "@, crate::encode::opt64(i.sbhits))
    } else if k == 12 {
        crate::encode::num_text(" cpuload "@, crate::encode::opt32(i.cpuload))
    } else if k == 13 {
        crate::encode::refutations_text(i.refutation)
    } else if k == 14 {
        crate::encode::currlines_text(i.currline)
    } else if k == 15 {
        match i.pv { Some(ms) => " pv"@ + crate::encode::moves_text(ms), None => Seq::empty() }
    } else {
        match i.string {
            Some(s) => if s.len() == 0 {
                " string"@
            } else {
                " string "@ + s
            },
            None => Seq::empty(),
        }
    }
}

pub open spec fn info_suffix(i: crate::uci::InfoModel, k: int) -> Seq<char>
    decreases 17 - k,
{
    if k >= 17 {
        Seq::empty()
    } else {
        info_part(i, k) + info_suffix(i, k + 1)
    }
}

pub open spec fn info_upto(i: crate::uci::InfoModel, k: int) -> crate::uci::InfoModel {
    crate::uci::InfoModel {
        multipv: if k > 0 { i.multipv } else { None },
        depth: if k > 1 { i.depth } else { None },
        seldepth: if k > 2 { i.seldepth } else { None },
        time: if k > 3 { i.time } else { None },
        nodes: if k > 4 { i.nodes } else { None },
        score: if k > 5 { i.score } else { None },
        currmove: if k > 6 { i.currmove } else { None },
        currmovenumber: if k > 7 { i.currmovenumber } else { None },
        hashfull: if k > 8 { i.hashfull } else { None },
        nps: if k > 9 { i.nps } else { None },
        tbhits: if k > 10 { i.tbhits } else { None },
        sbhits: if k > 11 { i.sbhits } else { None },
        cpuload: if k > 12 { i.cpuload } else { None },
        refutation: if k > 13 { i.refutation } else { Seq::empty() },
        currline: if k > 14 { i.currline } else { Seq::empty() },
        pv: if k > 15 { i.pv } else { None },
        string: if k > 16 { i.string } else { None },
    }
}

pub open spec fn is_info_keyword(w: Seq<char>) -> bool {
    w == "multipv"@ || w == "depth"@ || w == "seldepth"@ || w == "time"@ || w == "nodes"@ || w == "score"@ || w == "currmove"@ || w == "currmovenumber"@ || w == "hashfull"@ || w == "nps"@ || w == "tbhits"@ || w == "sbhits"@ || w == "cpuload"@ || w == "refutation"@ || w == "currline"@ || w == "pv"@ || w == "string"@
}

proof fn lemma_info_keywords(w: Seq<char>)
    requires
        is_info_keyword(w),
    ensures
        is_word(w),
        !crate::uci::is_uci_move(w),
        w != "lowerbound"@,
        w != "upperbound"@,
{
    reveal_strlit("multipv");
    reveal_strlit("depth");
    reveal_strlit("seldepth");
    reveal_strlit("time");
    reveal_strlit("nodes");
    reveal_strlit("score");
    reveal_strlit("currmove");
    reveal_strlit("currmovenumber");
    reveal_strlit("hashfull");
    reveal_strlit("nps");
    reveal_strlit("tbhits");
    reveal_strlit("sbhits");
    reveal_strlit("cpuload");
    reveal_strlit("refutation");
    reveal_strlit("currline");
    reveal_strlit("pv");
    reveal_strlit("string");
    reveal_strlit("lowerbound");
    reveal_strlit("upperbound");
    if w.len() == 4 || w.len() == 5 {
        assert(w == "time"@ || w == "depth"@ || w == "nodes"@ || w == "score"@);
        if w == "time"@ {
            assert(w[2] == 'm');
        } else if w == "depth"@ {
            assert(w[2] == 'p');
        } else if w == "nodes"@ {
            assert(w[3] == 'e');
        } else {
            assert(w[2] == 'o');
        }
    }
    if w.len() == 10 {
        assert(w[0] == 'r');
    }
}

/// What may follow a part of an `info` line.
pub open spec fn info_next_ok(r: Seq<char>) -> bool {
    r.len() == 0 || (is_sep(r[0]) && (next_token(r).0 matches Some(w) && is_info_keyword(w)))
}

} // verus!

verus! {
proof fn lemma_num_part_lo(kw: Seq<char>, n: nat, lo: int, hi: int, rest: Seq<char>)
    requires
        is_word(kw),
        lo <= n <= hi,
        0 <= lo,
        sep_or_empty(rest),
    ensures
        next_token(seq![' '] + kw + seq![' '] + crate::number::dec_text(n) + rest) == (
            Some(kw),
            seq![' '] + (crate::number::dec_text(n) + rest),
        ),
        crate::parser::p_unsigned(seq![' '] + (crate::number::dec_text(n) + rest), lo, hi) == Ok::<
            _,
            crate::uci::ProtocolError,
        >((n as int, rest)),
{
    lemma_num_part(kw, seq![' '] + kw + seq![' '], n, hi, rest);
}

proof fn lemma_info_step_multipv(i: crate::uci::InfoModel, s1: Seq<char>)
    requires
        i.multipv is Some,
        info_wf(i),
        sep_or_empty(s1),
    ensures
        crate::parser::info_loop(info_part(i, 0) + s1, info_upto(i, 0)) == crate::parser::info_loop(
            s1,
            info_upto(i, 1),
        ),
{
    reveal_strlit(" multipv ");
    reveal_strlit("multipv");
    reveal_strlit("depth");
    reveal_strlit("seldepth");
    reveal_strlit("time");
    reveal_strlit("nodes");
    reveal_strlit("score");
    reveal_strlit("currmove");
    reveal_strlit("currmovenumber");
    reveal_strlit("hashfull");
    reveal_strlit("nps");
    reveal_strlit("tbhits");
    reveal_strlit("sbhits");
    reveal_strlit("cpuload");
    reveal_strlit("refutation");
    reveal_strlit("currline");
    reveal_strlit("pv");
    reveal_strlit("string");
    let kw = "multipv"@;
    assert(is_word(kw));
    assert("depth"@[0] != "nodes"@[0] && "depth"@[0] != "score"@[0] && "nodes"@[0] != "score"@[0]);
    assert("tbhits"@[0] != "sbhits"@[0] && "tbhits"@[0] != "string"@[0] && "sbhits"@[1] != "string"@[1]);
    assert("multipv"@[0] != "cpuload"@[0]);
    assert("seldepth"@[0] != "hashfull"@[0] && "seldepth"@[0] != "currmove"@[0] && "hashfull"@[0] != "currmove"@[0]);
    assert("seldepth"@[0] != "currline"@[0] && "hashfull"@[0] != "currline"@[0]);
    let x = i.multipv->0;
    let d = crate::number::dec_text(x as nat);
    let p = info_part(i, 0);
    assert(p =~= seq![' '] + kw + seq![' '] + d);
    lemma_num_part_lo(kw, x as nat, 1, u32::MAX as int, s1);
    assert(p + s1 =~= seq![' '] + kw + seq![' '] + d + s1);
    assert(crate::parser::info_key(kw, seq![' '] + (d + s1), info_upto(i, 0)) == Ok::<_, crate::uci::ProtocolError>((info_upto(i, 1), s1)));
}

proof fn lemma_info_step_depth(i: crate::uci::InfoModel, s1: Seq<char>)
    requires
        i.depth is Some,
        info_wf(i),
        sep_or_empty(s1),
    ensures
        crate::parser::info_loop(info_part(i, 1) + s1, info_upto(i, 1)) == crate::parser::info_loop(
            s1,
            info_upto(i, 2),
        ),
{
    reveal_strlit(" depth ");
    reveal_strlit("multipv");
    reveal_strlit("depth");
    reveal_strlit("seldepth");
    reveal_strlit("time");
    reveal_strlit("nodes");
    reveal_strlit("score");
    reveal_strlit("currmove");
    reveal_strlit("currmovenumber");
    reveal_strlit("hashfull");
    reveal_strlit("nps");
    reveal_strlit("tbhits");
    reveal_strlit("sbhits");
    reveal_strlit("cpuload");
    reveal_strlit("refutation");
    reveal_strlit("currline");
    reveal_strlit("pv");
    reveal_strlit("string");
    let kw = "depth"@;
    assert(is_word(kw));
    assert("depth"@[0] != "nodes"@[0] && "depth"@[0] != "score"@[0] && "nodes"@[0] != "score"@[0]);
    assert("tbhits"@[0] != "sbhits"@[0] && "tbhits"@[0] != "string"@[0] && "sbhits"@[1] != "string"@[1]);
    assert("multipv"@[0] != "cpuload"@[0]);
    assert("seldepth"@[0] != "hashfull"@[0] && "seldepth"@[0] != "currmove"@[0] && "hashfull"@[0] != "currmove"@[0]);
    assert("seldepth"@[0] != "currline"@[0] && "hashfull"@[0] != "currline"@[0]);
    let x = i.depth->0;
    let d = crate::number::dec_text(x as nat);
    let p = info_part(i, 1);
    assert(p =~= seq![' '] + kw + seq![' '] + d);
    lemma_num_part_lo(kw, x as nat, 0, u32::MAX as int, s1);
    assert(p + s1 =~= seq![' '] + kw + seq![' '] + d + s1);
    assert(crate::parser::info_key(kw, seq![' '] + (d + s1), info_upto(i, 1)) == Ok::<_, crate::uci::ProtocolError>((info_upto(i, 2), s1)));
}

proof fn lemma_info_step_seldepth(i: crate::uci::InfoModel, s1: Seq<char>)
    requires
        i.seldepth is Some,
        info_wf(i),
        sep_or_empty(s1),
    ensures
        crate::parser::info_loop(info_part(i, 2) + s1, info_upto(i, 2)) == crate::parser::info_loop(
            s1,
            info_upto(i, 3),
        ),
{
    reveal_strlit(" seldepth ");
    reveal_strlit("multipv");
    reveal_strlit("depth");
    reveal_strlit("seldepth");
    reveal_strlit("time");
    reveal_strlit("nodes");
    reveal_strlit("score");
    reveal_strlit("currmove");
    reveal_strlit("currmovenumber");
    reveal_strlit("hashfull");
    reveal_strlit("nps");
    reveal_strlit("tbhits");
    reveal_strlit("sbhits");
    reveal_strlit("cpuload");
    reveal_strlit("refutation");
    reveal_strlit("currline");
    reveal_strlit("pv");
    reveal_strlit("string");
    let kw = "seldepth"@;
    assert(is_word(kw));
    assert("depth"@[0] != "nodes"@[0] && "depth"@[0] != "score"@[0] && "nodes"@[0] != "score"@[0]);
    assert("tbhits"@[0] != "sbhits"@[0] && "tbhits"@[0] != "string"@[0] && "sbhits"@[1] != "string"@[1]);
    assert("multipv"@[0] != "cpuload"@[0]);
    assert("seldepth"@[0] != "hashfull"@[0] && "seldepth"@[0] != "currmove"@[0] && "hashfull"@[0] != "currmove"@[0]);
    assert("seldepth"@[0] != "currline"@[0] && "hashfull"@[0] != "currline"@[0]);
    let x = i.seldepth->0;
    let d = crate::number::dec_text(x as nat);
    let p = info_part(i, 2);
    assert(p =~= seq![' '] + kw + seq![' '] + d);
    lemma_num_part_lo(kw, x as nat, 0, u32::MAX as int, s1);
    assert(p + s1 =~= seq![' '] + kw + seq![' '] + d + s1);
    assert(crate::parser::info_key(kw, seq![' '] + (d + s1), info_upto(i, 2)) == Ok::<_, crate::uci::ProtocolError>((info_upto(i, 3), s1)));
}

proof fn lemma_info_step_time(i: crate::uci::InfoModel, s1: Seq<char>)
    requires
        i.time is Some,
        info_wf(i),
        sep_or_empty(s1),
    ensures
        crate::parser::info_loop(info_part(i, 3) + s1, info_upto(i, 3)) == crate::parser::info_loop(
            s1,
            info_upto(i, 4),
        ),
{
    reveal_strlit(" time ");
    reveal_strlit("multipv");
    reveal_strlit("depth");
    reveal_strlit("seldepth");
    reveal_strlit("time");
    reveal_strlit("nodes");
    reveal_strlit("score");
    reveal_strlit("currmove");
    reveal_strlit("currmovenumber");
    reveal_strlit("hashfull");
    reveal_strlit("nps");
    reveal_strlit("tbhits");
    reveal_strlit("sbhits");
    reveal_strlit("cpuload");
    reveal_strlit("refutation");
    reveal_strlit("currline");
    reveal_strlit("pv");
    reveal_strlit("string");
    let kw = "time"@;
    assert(is_word(kw));
    assert("depth"@[0] != "nodes"@[0] && "depth"@[0] != "score"@[0] && "nodes"@[0] != "score"@[0]);
    assert("tbhits"@[0] != "sbhits"@[0] && "tbhits"@[0] != "string"@[0] && "sbhits"@[1] != "string"@[1]);
    assert("multipv"@[0] != "cpuload"@[0]);
    assert("seldepth"@[0] != "hashfull"@[0] && "seldepth"@[0] != "currmove"@[0] && "hashfull"@[0] != "currmove"@[0]);
    assert("seldepth"@[0] != "currline"@[0] && "hashfull"@[0] != "currline"@[0]);
    let x = i.time->0;
    let d = crate::number::dec_text(x as nat);
    let p = info_part(i, 3);
    assert(p =~= seq![' '] + kw + seq![' '] + d);
    lemma_num_part_lo(kw, x as nat, 0, u64::MAX as int, s1);
    assert(p + s1 =~= seq![' '] + kw + seq![' '] + d + s1);
    assert(crate::parser::info_key(kw, seq![' '] + (d + s1), info_upto(i, 3)) == Ok::<_, crate::uci::ProtocolError>((info_upto(i, 4), s1)));
}

proof fn lemma_info_step_nodes(i: crate::uci::InfoModel, s1: Seq<char>)
    requires
        i.nodes is Some,
        info_wf(i),
        sep_or_empty(s1),
    ensures
        crate::parser::info_loop(info_part(i, 4) + s1, info_upto(i, 4)) == crate::parser::info_loop(
            s1,
            info_upto(i, 5),
        ),
{
    reveal_strlit(" nodes ");
    reveal_strlit("multipv");
    reveal_strlit("depth");
    reveal_strlit("seldepth");
    reveal_strlit("time");
    reveal_strlit("nodes");
    reveal_strlit("score");
    reveal_strlit("currmove");
    reveal_strlit("currmovenumber");
    reveal_strlit("hashfull");
    reveal_strlit("nps");
    reveal_strlit("tbhits");
    reveal_strlit("sbhits");
    reveal_strlit("cpuload");
    reveal_strlit("refutation");
    reveal_strlit("currline");
    reveal_strlit("pv");
    reveal_strlit("string");
    let kw = "nodes"@;
    assert(is_word(kw));
    assert("depth"@[0] != "nodes"@[0] && "depth"@[0] != "score"@[0] && "nodes"@[0] != "score"@[0]);
    assert("tbhits"@[0] != "sbhits"@[0] && "tbhits"@[0] != "string"@[0] && "sbhits"@[1] != "string"@[1]);
    assert("multipv"@[0] != "cpuload"@[0]);
    assert("seldepth"@[0] != "hashfull"@[0] && "seldepth"@[0] != "currmove"@[0] && "hashfull"@[0] != "currmove"@[0]);
    assert("seldepth"@[0] != "currline"@[0] && "hashfull"@[0] != "currline"@[0]);
    let x = i.nodes->0;
    let d = crate::number::dec_text(x as nat);
    let p = info_part(i, 4);
    assert(p =~= seq![' '] + kw + seq![' '] + d);
    lemma_num_part_lo(kw, x as nat, 0, u64::MAX as int, s1);
    assert(p + s1 =~= seq![' '] + kw + seq![' '] + d + s1);
    assert(crate::parser::info_key(kw, seq![' '] + (d + s1), info_upto(i, 4)) == Ok::<_, crate::uci::ProtocolError>((info_upto(i, 5), s1)));
}

proof fn lemma_info_step_currmovenumber(i: crate::uci::InfoModel, s1: Seq<char>)
    requires
        i.currmovenumber is Some,
        info_wf(i),
        sep_or_empty(s1),
    ensures
        crate::parser::info_loop(info_part(i, 7) + s1, info_upto(i, 7)) == crate::parser::info_loop(
            s1,
            info_upto(i, 8),
        ),
{
    reveal_strlit(" currmovenumber ");
    reveal_strlit("multipv");
    reveal_strlit("depth");
    reveal_strlit("seldepth");
    reveal_strlit("time");
    reveal_strlit("nodes");
    reveal_strlit("score");
    reveal_strlit("currmove");
    reveal_strlit("currmovenumber");
    reveal_strlit("hashfull");
    reveal_strlit("nps");
    reveal_strlit("tbhits");
    reveal_strlit("sbhits");
    reveal_strlit("cpuload");
    reveal_strlit("refutation");
    reveal_strlit("currline");
    reveal_strlit("pv");
    reveal_strlit("string");
    let kw = "currmovenumber"@;
    assert(is_word(kw));
    assert("depth"@[0] != "nodes"@[0] && "depth"@[0] != "score"@[0] && "nodes"@[0] != "score"@[0]);
    assert("tbhits"@[0] != "sbhits"@[0] && "tbhits"@[0] != "string"@[0] && "sbhits"@[1] != "string"@[1]);
    assert("multipv"@[0] != "cpuload"@[0]);
    assert("seldepth"@[0] != "hashfull"@[0] && "seldepth"@[0] != "currmove"@[0] && "hashfull"@[0] != "currmove"@[0]);
    assert("seldepth"@[0] != "currline"@[0] && "hashfull"@[0] != "currline"@[0]);
    let x = i.currmovenumber->0;
    let d = crate::number::dec_text(x as nat);
    let p = info_part(i, 7);
    assert(p =~= seq![' '] + kw + seq![' '] + d);
    lemma_num_part_lo(kw, x as nat, 0, u32::MAX as int, s1);
    assert(p + s1 =~= seq![' '] + kw + seq![' '] + d + s1);
    assert(crate::parser::info_key(kw, seq![' '] + (d + s1), info_upto(i, 7)) == Ok::<_, crate::uci::ProtocolError>((info_upto(i, 8), s1)));
}

proof fn lemma_info_step_hashfull(i: crate::uci::InfoModel, s1: Seq<char>)
    requires
        i.hashfull is Some,
        info_wf(i),
        sep_or_empty(s1),
    ensures
        crate::parser::info_loop(info_part(i, 8) + s1, info_upto(i, 8)) == crate::parser::info_loop(
            s1,
            info_upto(i, 9),
        ),
{
    reveal_strlit(" hashfull ");
    reveal_strlit("multipv");
    reveal_strlit("depth");
    reveal_strlit("seldepth");
    reveal_strlit("time");
    reveal_strlit("nodes");
    reveal_strlit("score");
    reveal_strlit("currmove");
    reveal_strlit("currmovenumber");
    reveal_strlit("hashfull");
    reveal_strlit("nps");
    reveal_strlit("tbhits");
    reveal_strlit("sbhits");
    reveal_strlit("cpuload");
    reveal_strlit("refutation");
    reveal_strlit("currline");
    reveal_strlit("pv");
    reveal_strlit("string");
    let kw = "hashfull"@;
    assert(is_word(kw));
    assert("depth"@[0] != "nodes"@[0] && "depth"@[0] != "score"@[0] && "nodes"@[0] != "score"@[0]);
    assert("tbhits"@[0] != "sbhits"@[0] && "tbhits"@[0] != "string"@[0] && "sbhits"@[1] != "string"@[1]);
    assert("multipv"@[0] != "cpuload"@[0]);
    assert("seldepth"@[0] != "hashfull"@[0] && "seldepth"@[0] != "currmove"@[0] && "hashfull"@[0] != "currmove"@[0]);
    assert("seldepth"@[0] != "currline"@[0] && "hashfull"@[0] != "currline"@[0]);
    let x = i.hashfull->0;
    let d = crate::number::dec_text(x as nat);
    let p = info_part(i, 8);
    assert(p =~= seq![' '] + kw + seq![' '] + d);
    lemma_num_part_lo(kw, x as nat, 0, u32::MAX as int, s1);
    assert(p + s1 =~= seq![' '] + kw + seq![' '] + d + s1);
    assert(crate::parser::info_key(kw, seq![' '] + (d + s1), info_upto(i, 8)) == Ok::<_, crate::uci::ProtocolError>((info_upto(i, 9), s1)));
}

proof fn lemma_info_step_nps(i: crate::uci::InfoModel, s1: Seq<char>)
    requires
        i.nps is Some,
        info_wf(i),
        sep_or_empty(s1),
    ensures
        crate::parser::info_loop(info_part(i, 9) + s1, info_upto(i, 9)) == crate::parser::info_loop(
            s1,
            info_upto(i, 10),
        ),
{
    reveal_strlit(" nps ");
    reveal_strlit("multipv");
    reveal_strlit("depth");
    reveal_strlit("seldepth");
    reveal_strlit("time");
    reveal_strlit("nodes");
    reveal_strlit("score");
    reveal_strlit("currmove");
    reveal_strlit("currmovenumber");
    reveal_strlit("hashfull");
    reveal_strlit("nps");
    reveal_strlit("tbhits");
    reveal_strlit("sbhits");
    reveal_strlit("cpuload");
    reveal_strlit("refutation");
    reveal_strlit("currline");
    reveal_strlit("pv");
    reveal_strlit("string");
    let kw = "nps"@;
    assert(is_word(kw));
    assert("depth"@[0] != "nodes"@[0] && "depth"@[0] != "score"@[0] && "nodes"@[0] != "score"@[0]);
    assert("tbhits"@[0] != "sbhits"@[0] && "tbhits"@[0] != "string"@[0] && "sbhits"@[1] != "string"@[1]);
    assert("multipv"@[0] != "cpuload"@[0]);
    assert("seldepth"@[0] != "hashfull"@[0] && "seldepth"@[0] != "currmove"@[0] && "hashfull"@[0] != "currmove"@[0]);
    assert("seldepth"@[0] != "currline"@[0] && "hashfull"@[0] != "currline"@[0]);
    let x = i.nps->0;
    let d = crate::number::dec_text(x as nat);
    let p = info_part(i, 9);
    assert(p =~= seq![' '] + kw + seq![' '] + d);
    lemma_num_part_lo(kw, x as nat, 0, u64::MAX as int, s1);
    assert(p + s1 =~= seq![' '] + kw + seq![' '] + d + s1);
    assert(crate::parser::info_key(kw, seq![' '] + (d + s1), info_upto(i, 9)) == Ok::<_, crate::uci::ProtocolError>((info_upto(i, 10), s1)));
}

proof fn lemma_info_step_tbhits(i: crate::uci::InfoModel, s1: Seq<char>)
    requires
        i.tbhits is Some,
        info_wf(i),
        sep_or_empty(s1),
    ensures
        crate::parser::info_loop(info_part(i, 10) + s1, info_upto(i, 10)) == crate::parser::info_loop(
            s1,
            info_upto(i, 11),
        ),
{
    reveal_strlit(" tbhits ");
    reveal_strlit("multipv");
    reveal_strlit("depth");
    reveal_strlit("seldepth");
    reveal_strlit("time");
    reveal_strlit("nodes");
    reveal_strlit("score");
    reveal_strlit("currmove");
    reveal_strlit("currmovenumber");
    reveal_strlit("hashfull");
    reveal_strlit("nps");
    reveal_strlit("tbhits");
    reveal_strlit("sbhits");
    reveal_strlit("cpuload");
    reveal_strlit("refutation");
    reveal_strlit("currline");
    reveal_strlit("pv");
    reveal_strlit("string");
    let kw = "tbhits"@;
    assert(is_word(kw));
    assert("depth"@[0] != "nodes"@[0] && "depth"@[0] != "score"@[0] && "nodes"@[0] != "score"@[0]);
    assert("tbhits"@[0] != "sbhits"@[0] && "tbhits"@[0] != "string"@[0] && "sbhits"@[1] != "string"@[1]);
    assert("multipv"@[0] != "cpuload"@[0]);
    assert("seldepth"@[0] != "hashfull"@[0] && "seldepth"@[0] != "currmove"@[0] && "hashfull"@[0] != "currmove"@[0]);
    assert("seldepth"@[0] != "currline"@[0] && "hashfull"@[0] != "currline"@[0]);
    let x = i.tbhits->0;
    let d = crate::number::dec_text(x as nat);
    let p = info_part(i, 10);
    assert(p =~= seq![' '] + kw + seq![' '] + d);
    lemma_num_part_lo(kw, x as nat, 0, u64::MAX as int, s1);
    assert(p + s1 =~= seq![' '] + kw + seq![' '] + d + s1);
    assert(crate::parser::info_key(kw, seq![' '] + (d + s1), info_upto(i, 10)) == Ok::<_, crate::uci::ProtocolError>((info_upto(i, 11), s1)));
}

proof fn lemma_info_step_sbhits(i: crate::uci::InfoModel, s1: Seq<char>)
    requires
        i.sbhits is Some,
        info_wf(i),
        sep_or_empty(s1),
    ensures
        crate::parser::info_loop(info_part(i, 11) + s1, info_upto(i, 11)) == crate::parser::info_loop(
            s1,
            info_upto(i, 12),
        ),
{
    reveal_strlit(" sbhits ");
    reveal_strlit("multipv");
    reveal_strlit("depth");
    reveal_strlit("seldepth");
    reveal_strlit("time");
    reveal_strlit("nodes");
    reveal_strlit("score");
    reveal_strlit("currmove");
    reveal_strlit("currmovenumber");
    reveal_strlit("hashfull");
    reveal_strlit("nps");
    reveal_strlit("tbhits");
    reveal_strlit("sbhits");
    reveal_strlit("cpuload");
    reveal_strlit("refutation");
    reveal_strlit("currline");
    reveal_strlit("pv");
    reveal_strlit("string");
    let kw = "sbhits"@;
    assert(is_word(kw));
    assert("depth"@[0] != "nodes"@[0] && "depth"@[0] != "score"@[0] && "nodes"@[0] != "score"@[0]);
    assert("tbhits"@[0] != "sbhits"@[0] && "tbhits"@[0] != "string"@[0] && "sbhits"@[1] != "string"@[1]);
    assert("multipv"@[0] != "cpuload"@[0]);
    assert("seldepth"@[0] != "hashfull"@[0] && "seldepth"@[0] != "currmove"@[0] && "hashfull"@[0] != "currmove"@[0]);
    assert("seldepth"@[0] != "currline"@[0] && "hashfull"@[0] != "currline"@[0]);
    let x = i.sbhits->0;
    let d = crate::number::dec_text(x as nat);
    let p = info_part(i, 11);
    assert(p =~= seq![' '] + kw + seq![' '] + d);
    lemma_num_part_lo(kw, x as nat, 0, u64::MAX as int, s1);
    assert(p + s1 =~= seq![' '] + kw + seq![' '] + d + s1);
    assert(crate::parser::info_key(kw, seq![' '] + (d + s1), info_upto(i, 11)) == Ok::<_, crate::uci::ProtocolError>((info_upto(i, 12), s1)));
}

proof fn lemma_info_step_cpuload(i: crate::uci::InfoModel, s1: Seq<char>)
    requires
        i.cpuload is Some,
        info_wf(i),
        sep_or_empty(s1),
    ensures
        crate::parser::info_loop(info_part(i, 12) + s1, info_upto(i, 12)) == crate::parser::info_loop(
            s1,
            info_upto(i, 13),
        ),
{
    reveal_strlit(" cpuload ");
    reveal_strlit("multipv");
    reveal_strlit("depth");
    reveal_strlit("seldepth");
    reveal_strlit("time");
    reveal_strlit("nodes");
    reveal_strlit("score");
    reveal_strlit("currmove");
    reveal_strlit("currmovenumber");
    reveal_strlit("hashfull");
    reveal_strlit("nps");
    reveal_strlit("tbhits");
    reveal_strlit("sbhits");
    reveal_strlit("cpuload");
    reveal_strlit("refutation");
    reveal_strlit("currline");
    reveal_strlit("pv");
    reveal_strlit("string");
    let kw = "cpuload"@;
    assert(is_word(kw));
    assert("depth"@[0] != "nodes"@[0] && "depth"@[0] != "score"@[0] && "nodes"@[0] != "score"@[0]);
    assert("tbhits"@[0] != "sbhits"@[0] && "tbhits"@[0] != "string"@[0] && "sbhits"@[1] != "string"@[1]);
    assert("multipv"@[0] != "cpuload"@[0]);
    assert("seldepth"@[0] != "hashfull"@[0] && "seldepth"@[0] != "currmove"@[0] && "hashfull"@[0] != "currmove"@[0]);
    assert("seldepth"@[0] != "currline"@[0] && "hashfull"@[0] != "currline"@[0]);
    let x = i.cpuload->0;
    let d = crate::number::dec_text(x as nat);
    let p = info_part(i, 12);
    assert(p =~= seq![' '] + kw + seq![' '] + d);
    lemma_num_part_lo(kw, x as nat, 0, u32::MAX as int, s1);
    assert(p + s1 =~= seq![' '] + kw + seq![' '] + d + s1);
    assert(crate::parser::info_key(kw, seq![' '] + (d + s1), info_upto(i, 12)) == Ok::<_, crate::uci::ProtocolError>((info_upto(i, 13), s1)));
}

} // verus!

verus! {

proof fn lemma_info_next_moves_end(r: Seq<char>)
    requires
        info_next_ok(r),
    ensures
        moves_end(r),
        sep_or_empty(r),
{
    if r.len() > 0 {
        lemma_info_keywords(next_token(r).0->0);
    }
}

proof fn lemma_bounds(lb: bool, ub: bool, s1: Seq<char>, e: crate::uci::Eval)
    requires
        info_next_ok(s1),
    ensures
        crate::parser::bounds_loop(
            crate::encode::flag_text(" lowerbound"@, lb) + crate::encode::flag_text(" upperbound"@, ub)
                + s1,
            crate::uci::Score { eval: e, lowerbound: false, upperbound: false },
        ) == (crate::uci::Score { eval: e, lowerbound: lb, upperbound: ub }, s1),
{
    reveal_strlit(" lowerbound");
    reveal_strlit(" upperbound");
    reveal_strlit("lowerbound");
    reveal_strlit("upperbound");
    assert(is_word("lowerbound"@) && is_word("upperbound"@));
    assert("lowerbound"@[0] != "upperbound"@[0]);
    let u = crate::encode::flag_text(" upperbound"@, ub) + s1;
    let sc0 = crate::uci::Score { eval: e, lowerbound: false, upperbound: false };
    let sc1 = crate::uci::Score { eval: e, lowerbound: lb, upperbound: false };
    let sc2 = crate::uci::Score { eval: e, lowerbound: lb, upperbound: ub };
    // the end: nothing, or a keyword that is no bound
    assert(crate::parser::bounds_loop(s1, sc2) == (sc2, s1)) by {
        if s1.len() > 0 {
            lemma_info_keywords(next_token(s1).0->0);
        }
    }
    assert(sep_or_empty(u)) by {
        if ub {
            assert(u[0] == ' ');
        } else {
            assert(u =~= s1);
        }
    }
    if ub {
        assert(u =~= seq![' '] + ("upperbound"@ + s1));
        lemma_token_sp("upperbound"@, s1);
        assert(sep_or_empty(s1)) by {
            lemma_info_next_moves_end(s1);
        }
    } else {
        assert(u =~= s1);
    }
    assert(crate::parser::bounds_loop(u, sc1) == (sc2, s1));
    if lb {
        assert(crate::encode::flag_text(" lowerbound"@, lb) + crate::encode::flag_text(" upperbound"@, ub) + s1 =~= seq![' '] + ("lowerbound"@ + u));
        lemma_token_sp("lowerbound"@, u);
    } else {
        assert(crate::encode::flag_text(" lowerbound"@, lb) + crate::encode::flag_text(" upperbound"@, ub) + s1 =~= u);
        assert(sc1 == sc0);
        if ub {
        } else {
        }
    }
}

/// The text after the word `score` reads back as the score.
pub open spec fn score_rest(sc: crate::uci::Score, s1: Seq<char>) -> Seq<char> {
    let (ew, n): (Seq<char>, int) = match sc.eval {
        crate::uci::Eval::Cp(n) => ("cp"@, n as int),
        crate::uci::Eval::Mate(n) => ("mate"@, n as int),
    };
    seq![' '] + (ew + (seq![' '] + (crate::number::signed_dec_text(n) + (
    crate::encode::flag_text(" lowerbound"@, sc.lowerbound) + crate::encode::flag_text(
        " upperbound"@,
        sc.upperbound,
    ) + s1))))
}

#[verifier::rlimit(100)]
proof fn lemma_score_read(sc: crate::uci::Score, s1: Seq<char>)
    requires
        info_next_ok(s1),
    ensures
        crate::parser::score_spec(score_rest(sc, s1)) == Ok::<_, crate::uci::ProtocolError>((sc, s1)),
{
    reveal_strlit("cp");
    reveal_strlit("mate");
    reveal_strlit(" lowerbound");
    reveal_strlit(" upperbound");
    let (ew, n): (Seq<char>, int) = match sc.eval {
        crate::uci::Eval::Cp(n) => ("cp"@, n as int),
        crate::uci::Eval::Mate(n) => ("mate"@, n as int),
    };
    assert(is_word(ew));
    let sd = crate::number::signed_dec_text(n);
    lemma_signed_word(n);
    let f = crate::encode::flag_text(" lowerbound"@, sc.lowerbound) + crate::encode::flag_text(" upperbound"@, sc.upperbound);
    let tail = f + s1;
    lemma_info_next_moves_end(s1);
    assert(sep_or_empty(tail)) by {
        if f.len() > 0 {
            assert(tail[0] == f[0]);
        } else {
            assert(tail =~= s1);
        }
    }
    lemma_token_sp(ew, seq![' '] + (sd + tail));
    lemma_token_sp(sd, tail);
    lemma_bounds(sc.lowerbound, sc.upperbound, s1, sc.eval);
}

#[verifier::rlimit(100)]
proof fn lemma_info_step_score(i: crate::uci::InfoModel, s1: Seq<char>)
    requires
        i.score is Some,
        info_next_ok(s1),
    ensures
        crate::parser::info_loop(info_part(i, 5) + s1, info_upto(i, 5)) == crate::parser::info_loop(
            s1,
            info_upto(i, 6),
        ),
{
    reveal_strlit(" score ");
    reveal_strlit("cp ");
    reveal_strlit("mate ");
    reveal_strlit("multipv");
    reveal_strlit("depth");
    reveal_strlit("seldepth");
    reveal_strlit("currmovenumber");
    reveal_strlit("hashfull");
    reveal_strlit("cpuload");
    reveal_strlit("time");
    reveal_strlit("nodes");
    reveal_strlit("nps");
    reveal_strlit("tbhits");
    reveal_strlit("sbhits");
    reveal_strlit("score");
    reveal_strlit("cp");
    reveal_strlit("mate");
    assert("depth"@[0] != "score"@[0] && "nodes"@[0] != "score"@[0]);
    let sc = i.score->0;
    let r = score_rest(sc, s1);
    assert(is_word("score"@));
    let p = info_part(i, 5);
    assert(p + s1 =~= seq![' '] + ("score"@ + r));
    assert(sep_or_empty(r));
    lemma_token_sp("score"@, r);
    lemma_score_read(sc, s1);
    assert(crate::parser::info_key("score"@, r, info_upto(i, 5)) == Ok::<_, crate::uci::ProtocolError>((info_upto(i, 6), s1)));
}

proof fn lemma_info_step_currmove(i: crate::uci::InfoModel, s1: Seq<char>)
    requires
        i.currmove is Some,
        info_wf(i),
        sep_or_empty(s1),
    ensures
        crate::parser::info_loop(info_part(i, 6) + s1, info_upto(i, 6)) == crate::parser::info_loop(
            s1,
            info_upto(i, 7),
        ),
{
    reveal_strlit(" currmove ");
    reveal_strlit("multipv");
    reveal_strlit("depth");
    reveal_strlit("seldepth");
    reveal_strlit("time");
    reveal_strlit("nodes");
    reveal_strlit("score");
    reveal_strlit("currmove");
    reveal_strlit("currmovenumber");
    reveal_strlit("hashfull");
    reveal_strlit("nps");
    reveal_strlit("tbhits");
    reveal_strlit("sbhits");
    reveal_strlit("cpuload");
    reveal_strlit("refutation");
    reveal_strlit("currline");
    reveal_strlit("pv");
    reveal_strlit("string");
    assert("depth"@[0] != "nodes"@[0] && "depth"@[0] != "score"@[0] && "nodes"@[0] != "score"@[0]);
    assert("tbhits"@[0] != "sbhits"@[0] && "tbhits"@[0] != "string"@[0] && "sbhits"@[1] != "string"@[1]);
    assert("multipv"@[0] != "cpuload"@[0]);
    assert("seldepth"@[0] != "hashfull"@[0] && "seldepth"@[0] != "currmove"@[0] && "hashfull"@[0] != "currmove"@[0]);
    assert("seldepth"@[0] != "currline"@[0] && "hashfull"@[0] != "currline"@[0] && "currmove"@[4] != "currline"@[4]);
    let m = i.currmove->0;
    assert(is_word("currmove"@));
    let p = info_part(i, 6);
    assert(p + s1 =~= seq![' '] + ("currmove"@ + (seq![' '] + (m + s1))));
    lemma_token_sp("currmove"@, seq![' '] + (m + s1));
    lemma_token_sp(m, s1);
    assert(crate::parser::info_key("currmove"@, seq![' '] + (m + s1), info_upto(i, 6)) == Ok::<_, crate::uci::ProtocolError>((info_upto(i, 7), s1)));
}

proof fn lemma_info_step_pv(i: crate::uci::InfoModel, s1: Seq<char>)
    requires
        i.pv is Some,
        info_wf(i),
        info_next_ok(s1),
    ensures
        crate::parser::info_loop(info_part(i, 15) + s1, info_upto(i, 15)) == crate::parser::info_loop(
            s1,
            info_upto(i, 16),
        ),
{
    reveal_strlit(" pv");
    reveal_strlit("multipv");
    reveal_strlit("depth");
    reveal_strlit("seldepth");
    reveal_strlit("time");
    reveal_strlit("nodes");
    reveal_strlit("score");
    reveal_strlit("currmove");
    reveal_strlit("currmovenumber");
    reveal_strlit("hashfull");
    reveal_strlit("nps");
    reveal_strlit("tbhits");
    reveal_strlit("sbhits");
    reveal_strlit("cpuload");
    reveal_strlit("refutation");
    reveal_strlit("currline");
    reveal_strlit("pv");
    reveal_strlit("string");
    assert("depth"@[0] != "nodes"@[0] && "depth"@[0] != "score"@[0] && "nodes"@[0] != "score"@[0]);
    assert("tbhits"@[0] != "sbhits"@[0] && "tbhits"@[0] != "string"@[0] && "sbhits"@[1] != "string"@[1]);
    assert("multipv"@[0] != "cpuload"@[0]);
    assert("seldepth"@[0] != "hashfull"@[0] && "seldepth"@[0] != "currmove"@[0] && "hashfull"@[0] != "currmove"@[0]);
    assert("seldepth"@[0] != "currline"@[0] && "hashfull"@[0] != "currline"@[0] && "currmove"@[4] != "currline"@[4]);
    let ms = i.pv->0;
    let mt = crate::encode::moves_text(ms);
    assert(is_word("pv"@));
    let p = info_part(i, 15);
    lemma_info_next_moves_end(s1);
    lemma_moves_text_start(ms);
    assert(p + s1 =~= seq![' '] + ("pv"@ + (mt + s1)));
    assert(sep_or_empty(mt + s1)) by {
        if ms.len() > 0 {
            assert((mt + s1)[0] == mt[0]);
        } else {
            assert(mt + s1 =~= s1);
        }
    }
    lemma_token_sp("pv"@, mt + s1);
    lemma_moves_complete(ms, s1);
    assert(crate::parser::info_key("pv"@, mt + s1, info_upto(i, 15)) == Ok::<_, crate::uci::ProtocolError>((info_upto(i, 16), s1)));
}

proof fn lemma_info_step_string(i: crate::uci::InfoModel)
    requires
        i.string is Some,
        info_wf(i),
    ensures
        crate::parser::info_loop(info_part(i, 16), info_upto(i, 16)) == Ok::<_, crate::uci::ProtocolError>(
            info_upto(i, 17),
        ),
{
    reveal_strlit(" string ");
    reveal_strlit(" string");
    reveal_strlit("multipv");
    reveal_strlit("depth");
    reveal_strlit("seldepth");
    reveal_strlit("time");
    reveal_strlit("nodes");
    reveal_strlit("score");
    reveal_strlit("currmove");
    reveal_strlit("currmovenumber");
    reveal_strlit("hashfull");
    reveal_strlit("nps");
    reveal_strlit("tbhits");
    reveal_strlit("sbhits");
    reveal_strlit("cpuload");
    reveal_strlit("refutation");
    reveal_strlit("currline");
    reveal_strlit("pv");
    reveal_strlit("string");
    assert("depth"@[0] != "nodes"@[0] && "depth"@[0] != "score"@[0] && "nodes"@[0] != "score"@[0]);
    assert("tbhits"@[0] != "sbhits"@[0] && "tbhits"@[0] != "string"@[0] && "sbhits"@[1] != "string"@[1]);
    assert("multipv"@[0] != "cpuload"@[0]);
    assert("seldepth"@[0] != "hashfull"@[0] && "seldepth"@[0] != "currmove"@[0] && "hashfull"@[0] != "currmove"@[0]);
    assert("seldepth"@[0] != "currline"@[0] && "hashfull"@[0] != "currline"@[0] && "currmove"@[4] != "currline"@[4]);
    let x = i.string->0;
    assert(is_word("string"@));
    let p = info_part(i, 16);
    assert(crate::parser::info_loop(Seq::<char>::empty(), info_upto(i, 17)) == Ok::<_, crate::uci::ProtocolError>(info_upto(i, 17)));
    if x.len() == 0 {
        assert(p =~= seq![' '] + ("string"@ + Seq::empty()));
        lemma_token_sp("string"@, Seq::empty());
        assert(crate::parser::info_key("string"@, Seq::empty(), info_upto(i, 16)) == Ok::<_, crate::uci::ProtocolError>((info_upto(i, 17), Seq::<char>::empty())));
        assert(next_token(p) == (Some("string"@), Seq::<char>::empty()));
    } else {
        assert(p =~= seq![' '] + ("string"@ + (seq![' '] + (x + Seq::empty()))));
        lemma_token_sp("string"@, seq![' '] + (x + Seq::empty()));
        lemma_text_sp(x, Seq::empty(), Stop::Never);
        assert(crate::parser::info_key("string"@, seq![' '] + (x + Seq::empty()), info_upto(i, 16)) == Ok::<_, crate::uci::ProtocolError>((info_upto(i, 17), Seq::<char>::empty())));
        assert(next_token(p) == (Some("string"@), seq![' '] + (x + Seq::<char>::empty())));
    }
}

} // verus!

verus! {

#[verifier::rlimit(80)]
proof fn lemma_info_refs(
    m: Seq<(Seq<char>, Seq<Seq<char>>)>,
    acc: Seq<(Seq<char>, Seq<Seq<char>>)>,
    s1: Seq<char>,
    base: crate::uci::InfoModel,
)
    requires
        entries_wf(acc + m),
        info_next_ok(s1),
    ensures
        info_next_ok(crate::encode::refutations_text(m) + s1),
        crate::parser::info_loop(
            crate::encode::refutations_text(m) + s1,
            crate::uci::InfoModel { refutation: acc, ..base },
        ) == crate::parser::info_loop(s1, crate::uci::InfoModel { refutation: acc + m, ..base }),
    decreases m.len(),
{
    reveal_strlit(" refutation ");
    reveal_strlit("multipv");
    reveal_strlit("depth");
    reveal_strlit("seldepth");
    reveal_strlit("currmovenumber");
    reveal_strlit("hashfull");
    reveal_strlit("cpuload");
    reveal_strlit("time");
    reveal_strlit("nodes");
    reveal_strlit("nps");
    reveal_strlit("tbhits");
    reveal_strlit("sbhits");
    reveal_strlit("score");
    reveal_strlit("currmove");
    reveal_strlit("refutation");
    if m.len() == 0 {
        assert(crate::encode::refutations_text(m) + s1 =~= s1);
        assert(acc + m =~= acc);
    } else {
        let e0 = m[0];
        let rest = m.drop_first();
        let all = acc + m;
        assert(acc.push(e0) + rest =~= all);
        lemma_info_refs(rest, acc.push(e0), s1, base);
        let x = crate::encode::refutations_text(rest) + s1;
        lemma_info_next_moves_end(x);
        assert(all[acc.len() as int] == e0);
        let k0 = e0.0;
        let mt = crate::encode::moves_text(e0.1);
        assert(is_word(k0) && crate::uci::is_uci_move(k0) && move_list(e0.1));
        lemma_moves_text_start(e0.1);
        assert(sep_or_empty(mt + x)) by {
            if e0.1.len() > 0 {
                assert((mt + x)[0] == mt[0]);
            } else {
                assert(mt + x =~= x);
            }
        }
        let full = crate::encode::refutations_text(m) + s1;
        assert(full =~= seq![' '] + ("refutation"@ + (seq![' '] + (k0 + (mt + x)))));
        assert(is_word("refutation"@));
        lemma_token_sp("refutation"@, seq![' '] + (k0 + (mt + x)));
        lemma_token_sp(k0, mt + x);
        lemma_moves_complete(e0.1, x);
        lemma_key_index(acc, k0, 0);
        assert forall|j: int| 0 <= j < acc.len() implies acc[j].0 != k0 by {
            assert(all[j] == acc[j]);
        }
        assert(crate::uci::assoc_put(acc, k0, e0.1) == acc.push(e0));
        assert("refutation"@[0] == 'r');
        assert(crate::parser::info_key(
            "refutation"@,
            seq![' '] + (k0 + (mt + x)),
            crate::uci::InfoModel { refutation: acc, ..base },
        ) == Ok::<_, crate::uci::ProtocolError>(
            (crate::uci::InfoModel { refutation: acc.push(e0), ..base }, x),
        ));
        assert(full[0] == ' ');
        lemma_info_keywords("refutation"@);
    }
}

#[verifier::rlimit(80)]
proof fn lemma_info_lines(
    m: Seq<(u32, Seq<Seq<char>>)>,
    acc: Seq<(u32, Seq<Seq<char>>)>,
    s1: Seq<char>,
    base: crate::uci::InfoModel,
)
    requires
        lines_wf(acc + m),
        info_next_ok(s1),
    ensures
        info_next_ok(crate::encode::currlines_text(m) + s1),
        crate::parser::info_loop(
            crate::encode::currlines_text(m) + s1,
            crate::uci::InfoModel { currline: acc, ..base },
        ) == crate::parser::info_loop(s1, crate::uci::InfoModel { currline: acc + m, ..base }),
    decreases m.len(),
{
    reveal_strlit(" currline ");
    reveal_strlit("multipv");
    reveal_strlit("depth");
    reveal_strlit("seldepth");
    reveal_strlit("currmovenumber");
    reveal_strlit("hashfull");
    reveal_strlit("cpuload");
    reveal_strlit("time");
    reveal_strlit("nodes");
    reveal_strlit("nps");
    reveal_strlit("tbhits");
    reveal_strlit("sbhits");
    reveal_strlit("score");
    reveal_strlit("currmove");
    reveal_strlit("refutation");
    reveal_strlit("currline");
    if m.len() == 0 {
        assert(crate::encode::currlines_text(m) + s1 =~= s1);
        assert(acc + m =~= acc);
    } else {
        let e0 = m[0];
        let rest = m.drop_first();
        let all = acc + m;
        assert(acc.push(e0) + rest =~= all);
        lemma_info_lines(rest, acc.push(e0), s1, base);
        let x = crate::encode::currlines_text(rest) + s1;
        lemma_info_next_moves_end(x);
        assert(all[acc.len() as int] == e0);
        let k0 = e0.0;
        let d = crate::number::dec_text(k0 as nat);
        let mt = crate::encode::moves_text(e0.1);
        assert(move_list(e0.1));
        lemma_moves_text_start(e0.1);
        assert(sep_or_empty(mt + x)) by {
            if e0.1.len() > 0 {
                assert((mt + x)[0] == mt[0]);
            } else {
                assert(mt + x =~= x);
            }
        }
        let full = crate::encode::currlines_text(m) + s1;
        assert(full =~= seq![' '] + "currline"@ + seq![' '] + d + (mt + x));
        assert(is_word("currline"@));
        lemma_num_part_lo("currline"@, k0 as nat, 0, u32::MAX as int, mt + x);
        lemma_moves_complete(e0.1, x);
        lemma_key_index(acc, k0, 0);
        assert forall|j: int| 0 <= j < acc.len() implies acc[j].0 != k0 by {
            assert(all[j] == acc[j]);
        }
        assert(crate::uci::assoc_put(acc, k0, e0.1) == acc.push(e0));
        assert("currline"@[4] != "currmove"@[4]);
        assert("currline"@[0] != "seldepth"@[0] && "currline"@[0] != "hashfull"@[0]);
        assert(crate::parser::info_key(
            "currline"@,
            seq![' '] + (d + (mt + x)),
            crate::uci::InfoModel { currline: acc, ..base },
        ) == Ok::<_, crate::uci::ProtocolError>(
            (crate::uci::InfoModel { currline: acc.push(e0), ..base }, x),
        ));
        assert(full[0] == ' ');
        lemma_info_keywords("currline"@);
    }
}

} // verus!

verus! {

proof fn lemma_refs_text_facts(m: Seq<(Seq<char>, Seq<Seq<char>>)>)
    requires
        entries_wf(m),
    ensures
        crate::encode::refutations_text(m).len() == 0 || !is_sep(crate::encode::refutations_text(m).last()),
        no_breaks(crate::encode::refutations_text(m)),
    decreases m.len(),
{
    reveal_strlit(" refutation ");
    if m.len() > 0 {
        let rest = m.drop_first();
        assert(entries_wf(rest)) by {
            assert forall|a: int, b: int| 0 <= a < b < rest.len() implies rest[a].0 != rest[b].0 by {
                assert(rest[a] == m[a + 1] && rest[b] == m[b + 1]);
            }
            assert forall|j: int| 0 <= j < rest.len() implies is_word(#[trigger] rest[j].0)
                && crate::uci::is_uci_move(rest[j].0) && no_breaks(rest[j].0) && move_list(rest[j].1)
                && no_breaks_all(rest[j].1) by {
                assert(rest[j] == m[j + 1]);
            }
        }
        lemma_refs_text_facts(rest);
        let e0 = m[0];
        let mt = crate::encode::moves_text(e0.1);
        let r = crate::encode::refutations_text(rest);
        let t = crate::encode::refutations_text(m);
        assert(t == " refutation "@ + e0.0 + mt + r);
        lemma_moves_text_no_breaks(e0.1);
        lemma_no_breaks_lit(" refutation "@);
        lemma_no_breaks_concat(" refutation "@, e0.0);
        lemma_no_breaks_concat(" refutation "@ + e0.0, mt);
        lemma_no_breaks_concat(" refutation "@ + e0.0 + mt, r);
        if r.len() > 0 {
            assert(t.last() == r.last());
        } else if e0.1.len() > 0 {
            lemma_moves_text_last(e0.1);
            assert(t.last() == mt.last());
        } else {
            lemma_moves_text_start(e0.1);
            assert(t.last() == e0.0.last());
        }
    }
}

proof fn lemma_lines_text_facts(m: Seq<(u32, Seq<Seq<char>>)>)
    requires
        lines_wf(m),
    ensures
        crate::encode::currlines_text(m).len() == 0 || !is_sep(crate::encode::currlines_text(m).last()),
        no_breaks(crate::encode::currlines_text(m)),
    decreases m.len(),
{
    reveal_strlit(" currline ");
    if m.len() > 0 {
        let rest = m.drop_first();
        assert(lines_wf(rest)) by {
            assert forall|a: int, b: int| 0 <= a < b < rest.len() implies rest[a].0 != rest[b].0 by {
                assert(rest[a] == m[a + 1] && rest[b] == m[b + 1]);
            }
            assert forall|j: int| 0 <= j < rest.len() implies move_list(#[trigger] rest[j].1)
                && no_breaks_all(rest[j].1) by {
                assert(rest[j] == m[j + 1]);
            }
        }
        lemma_lines_text_facts(rest);
        let e0 = m[0];
        let d = crate::number::dec_text(e0.0 as nat);
        crate::number::lemma_dec_text(e0.0 as nat);
        let mt = crate::encode::moves_text(e0.1);
        let r = crate::encode::currlines_text(rest);
        let t = crate::encode::currlines_text(m);
        assert(t == " currline "@ + d + mt + r);
        assert(no_breaks(d)) by {
            assert forall|j: int| 0 <= j < d.len() implies (#[trigger] d[j]) != '\r' && d[j] != '\n' by {
                assert(crate::number::is_digit(d[j]));
            }
        }
        lemma_moves_text_no_breaks(e0.1);
        lemma_no_breaks_lit(" currline "@);
        lemma_no_breaks_concat(" currline "@, d);
        lemma_no_breaks_concat(" currline "@ + d, mt);
        lemma_no_breaks_concat(" currline "@ + d + mt, r);
        if r.len() > 0 {
            assert(t.last() == r.last());
        } else if e0.1.len() > 0 {
            lemma_moves_text_last(e0.1);
            assert(t.last() == mt.last());
        } else {
            lemma_moves_text_start(e0.1);
            assert(t.last() == d.last());
            assert(crate::number::is_digit(d[d.len() - 1]));
        }
    }
}

} // verus!

verus! {
proof fn lemma_info_facts_multipv(i: crate::uci::InfoModel, rest: Seq<char>)
    requires
        info_next_ok(rest),
    ensures
        info_part(i, 0).len() == 0 || (info_part(i, 0)[0] == ' ' && !is_sep(info_part(i, 0).last())
            && no_breaks(info_part(i, 0)) && info_next_ok(info_part(i, 0) + rest)),
{
    reveal_strlit(" multipv ");
    reveal_strlit("multipv");
    reveal_strlit("depth");
    reveal_strlit("seldepth");
    reveal_strlit("time");
    reveal_strlit("nodes");
    reveal_strlit("score");
    reveal_strlit("currmove");
    reveal_strlit("currmovenumber");
    reveal_strlit("hashfull");
    reveal_strlit("nps");
    reveal_strlit("tbhits");
    reveal_strlit("sbhits");
    reveal_strlit("cpuload");
    reveal_strlit("refutation");
    reveal_strlit("currline");
    reveal_strlit("pv");
    reveal_strlit("string");
    let p = info_part(i, 0);
    if p.len() > 0 {
        let x = i.multipv->0;
        let d = crate::number::dec_text(x as nat);
        crate::number::lemma_dec_text(x as nat);
        let kw = "multipv"@;
        assert(is_word(kw));
        assert(p =~= seq![' '] + kw + seq![' '] + d);
        lemma_info_next_moves_end(rest);
        lemma_num_part_lo(kw, x as nat, 0, x as int, rest);
        assert(p + rest =~= seq![' '] + kw + seq![' '] + d + rest);
        assert(is_info_keyword(kw));
        assert(p.last() == d.last());
        assert(crate::number::is_digit(d[d.len() - 1]));
        assert(no_breaks(d)) by {
            assert forall|j: int| 0 <= j < d.len() implies (#[trigger] d[j]) != '\r' && d[j] != '\n' by {
                assert(crate::number::is_digit(d[j]));
            }
        }
        lemma_no_breaks_lit(seq![' '] + kw + seq![' ']);
        lemma_no_breaks_concat(seq![' '] + kw + seq![' '], d);
    }
}

proof fn lemma_info_facts_depth(i: crate::uci::InfoModel, rest: Seq<char>)
    requires
        info_next_ok(rest),
    ensures
        info_part(i, 1).len() == 0 || (info_part(i, 1)[0] == ' ' && !is_sep(info_part(i, 1).last())
            && no_breaks(info_part(i, 1)) && info_next_ok(info_part(i, 1) + rest)),
{
    reveal_strlit(" depth ");
    reveal_strlit("multipv");
    reveal_strlit("depth");
    reveal_strlit("seldepth");
    reveal_strlit("time");
    reveal_strlit("nodes");
    reveal_strlit("score");
    reveal_strlit("currmove");
    reveal_strlit("currmovenumber");
    reveal_strlit("hashfull");
    reveal_strlit("nps");
    reveal_strlit("tbhits");
    reveal_strlit("sbhits");
    reveal_strlit("cpuload");
    reveal_strlit("refutation");
    reveal_strlit("currline");
    reveal_strlit("pv");
    reveal_strlit("string");
    let p = info_part(i, 1);
    if p.len() > 0 {
        let x = i.depth->0;
        let d = crate::number::dec_text(x as nat);
        crate::number::lemma_dec_text(x as nat);
        let kw = "depth"@;
        assert(is_word(kw));
        assert(p =~= seq![' '] + kw + seq![' '] + d);
        lemma_info_next_moves_end(rest);
        lemma_num_part_lo(kw, x as nat, 0, x as int, rest);
        assert(p + rest =~= seq![' '] + kw + seq![' '] + d + rest);
        assert(is_info_keyword(kw));
        assert(p.last() == d.last());
        assert(crate::number::is_digit(d[d.len() - 1]));
        assert(no_breaks(d)) by {
            assert forall|j: int| 0 <= j < d.len() implies (#[trigger] d[j]) != '\r' && d[j] != '\n' by {
                assert(crate::number::is_digit(d[j]));
            }
        }
        lemma_no_breaks_lit(seq![' '] + kw + seq![' ']);
        lemma_no_breaks_concat(seq![' '] + kw + seq![' '], d);
    }
}

proof fn lemma_info_facts_seldepth(i: crate::uci::InfoModel, rest: Seq<char>)
    requires
        info_next_ok(rest),
    ensures
        info_part(i, 2).len() == 0 || (info_part(i, 2)[0] == ' ' && !is_sep(info_part(i, 2).last())
            && no_breaks(info_part(i, 2)) && info_next_ok(info_part(i, 2) + rest)),
{
    reveal_strlit(" seldepth ");
    reveal_strlit("multipv");
    reveal_strlit("depth");
    reveal_strlit("seldepth");
    reveal_strlit("time");
    reveal_strlit("nodes");
    reveal_strlit("score");
    reveal_strlit("currmove");
    reveal_strlit("currmovenumber");
    reveal_strlit("hashfull");
    reveal_strlit("nps");
    reveal_strlit("tbhits");
    reveal_strlit("sbhits");
    reveal_strlit("cpuload");
    reveal_strlit("refutation");
    reveal_strlit("currline");
    reveal_strlit("pv");
    reveal_strlit("string");
    let p = info_part(i, 2);
    if p.len() > 0 {
        let x = i.seldepth->0;
        let d = crate::number::dec_text(x as nat);
        crate::number::lemma_dec_text(x as nat);
        let kw = "seldepth"@;
        assert(is_word(kw));
        assert(p =~= seq![' '] + kw + seq![' '] + d);
        lemma_info_next_moves_end(rest);
        lemma_num_part_lo(kw, x as nat, 0, x as int, rest);
        assert(p + rest =~= seq![' '] + kw + seq![' '] + d + rest);
        assert(is_info_keyword(kw));
        assert(p.last() == d.last());
        assert(crate::number::is_digit(d[d.len() - 1]));
        assert(no_breaks(d)) by {
            assert forall|j: int| 0 <= j < d.len() implies (#[trigger] d[j]) != '\r' && d[j] != '\n' by {
                assert(crate::number::is_digit(d[j]));
            }
        }
        lemma_no_breaks_lit(seq![' '] + kw + seq![' ']);
        lemma_no_breaks_concat(seq![' '] + kw + seq![' '], d);
    }
}

proof fn lemma_info_facts_time(i: crate::uci::InfoModel, rest: Seq<char>)
    requires
        info_next_ok(rest),
    ensures
        info_part(i, 3).len() == 0 || (info_part(i, 3)[0] == ' ' && !is_sep(info_part(i, 3).last())
            && no_breaks(info_part(i, 3)) && info_next_ok(info_part(i, 3) + rest)),
{
    reveal_strlit(" time ");
    reveal_strlit("multipv");
    reveal_strlit("depth");
    reveal_strlit("seldepth");
    reveal_strlit("time");
    reveal_strlit("nodes");
    reveal_strlit("score");
    reveal_strlit("currmove");
    reveal_strlit("currmovenumber");
    reveal_strlit("hashfull");
    reveal_strlit("nps");
    reveal_strlit("tbhits");
    reveal_strlit("sbhits");
    reveal_strlit("cpuload");
    reveal_strlit("refutation");
    reveal_strlit("currline");
    reveal_strlit("pv");
    reveal_strlit("string");
    let p = info_part(i, 3);
    if p.len() > 0 {
        let x = i.time->0;
        let d = crate::number::dec_text(x as nat);
        crate::number::lemma_dec_text(x as nat);
        let kw = "time"@;
        assert(is_word(kw));
        assert(p =~= seq![' '] + kw + seq![' '] + d);
        lemma_info_next_moves_end(rest);
        lemma_num_part_lo(kw, x as nat, 0, x as int, rest);
        assert(p + rest =~= seq![' '] + kw + seq![' '] + d + rest);
        assert(is_info_keyword(kw));
        assert(p.last() == d.last());
        assert(crate::number::is_digit(d[d.len() - 1]));
        assert(no_breaks(d)) by {
            assert forall|j: int| 0 <= j < d.len() implies (#[trigger] d[j]) != '\r' && d[j] != '\n' by {
                assert(crate::number::is_digit(d[j]));
            }
        }
        lemma_no_breaks_lit(seq![' '] + kw + seq![' ']);
        lemma_no_breaks_concat(seq![' '] + kw + seq![' '], d);
    }
}

proof fn lemma_info_facts_nodes(i: crate::uci::InfoModel, rest: Seq<char>)
    requires
        info_next_ok(rest),
    ensures
        info_part(i, 4).len() == 0 || (info_part(i, 4)[0] == ' ' && !is_sep(info_part(i, 4).last())
            && no_breaks(info_part(i, 4)) && info_next_ok(info_part(i, 4) + rest)),
{
    reveal_strlit(" nodes ");
    reveal_strlit("multipv");
    reveal_strlit("depth");
    reveal_strlit("seldepth");
    reveal_strlit("time");
    reveal_strlit("nodes");
    reveal_strlit("score");
    reveal_strlit("currmove");
    reveal_strlit("currmovenumber");
    reveal_strlit("hashfull");
    reveal_strlit("nps");
    reveal_strlit("tbhits");
    reveal_strlit("sbhits");
    reveal_strlit("cpuload");
    reveal_strlit("refutation");
    reveal_strlit("currline");
    reveal_strlit("pv");
    reveal_strlit("string");
    let p = info_part(i, 4);
    if p.len() > 0 {
        let x = i.nodes->0;
        let d = crate::number::dec_text(x as nat);
        crate::number::lemma_dec_text(x as nat);
        let kw = "nodes"@;
        assert(is_word(kw));
        assert(p =~= seq![' '] + kw + seq![' '] + d);
        lemma_info_next_moves_end(rest);
        lemma_num_part_lo(kw, x as nat, 0, x as int, rest);
        assert(p + rest =~= seq![' '] + kw + seq![' '] + d + rest);
        assert(is_info_keyword(kw));
        assert(p.last() == d.last());
        assert(crate::number::is_digit(d[d.len() - 1]));
        assert(no_breaks(d)) by {
            assert forall|j: int| 0 <= j < d.len() implies (#[trigger] d[j]) != '\r' && d[j] != '\n' by {
                assert(crate::number::is_digit(d[j]));
            }
        }
        lemma_no_breaks_lit(seq![' '] + kw + seq![' ']);
        lemma_no_breaks_concat(seq![' '] + kw + seq![' '], d);
    }
}

proof fn lemma_info_facts_currmovenumber(i: crate::uci::InfoModel, rest: Seq<char>)
    requires
        info_next_ok(rest),
    ensures
        info_part(i, 7).len() == 0 || (info_part(i, 7)[0] == ' ' && !is_sep(info_part(i, 7).last())
            && no_breaks(info_part(i, 7)) && info_next_ok(info_part(i, 7) + rest)),
{
    reveal_strlit(" currmovenumber ");
    reveal_strlit("multipv");
    reveal_strlit("depth");
    reveal_strlit("seldepth");
    reveal_strlit("time");
    reveal_strlit("nodes");
    reveal_strlit("score");
    reveal_strlit("currmove");
    reveal_strlit("currmovenumber");
    reveal_strlit("hashfull");
    reveal_strlit("nps");
    reveal_strlit("tbhits");
    reveal_strlit("sbhits");
    reveal_strlit("cpuload");
    reveal_strlit("refutation");
    reveal_strlit("currline");
    reveal_strlit("pv");
    reveal_strlit("string");
    let p = info_part(i, 7);
    if p.len() > 0 {
        let x = i.currmovenumber->0;
        let d = crate::number::dec_text(x as nat);
        crate::number::lemma_dec_text(x as nat);
        let kw = "currmovenumber"@;
        assert(is_word(kw));
        assert(p =~= seq![' '] + kw + seq![' '] + d);
        lemma_info_next_moves_end(rest);
        lemma_num_part_lo(kw, x as nat, 0, x as int, rest);
        assert(p + rest =~= seq![' '] + kw + seq![' '] + d + rest);
        assert(is_info_keyword(kw));
        assert(p.last() == d.last());
        assert(crate::number::is_digit(d[d.len() - 1]));
        assert(no_breaks(d)) by {
            assert forall|j: int| 0 <= j < d.len() implies (#[trigger] d[j]) != '\r' && d[j] != '\n' by {
                assert(crate::number::is_digit(d[j]));
            }
        }
        lemma_no_breaks_lit(seq![' '] + kw + seq![' ']);
        lemma_no_breaks_concat(seq![' '] + kw + seq![' '], d);
    }
}

proof fn lemma_info_facts_hashfull(i: crate::uci::InfoModel, rest: Seq<char>)
    requires
        info_next_ok(rest),
    ensures
        info_part(i, 8).len() == 0 || (info_part(i, 8)[0] == ' ' && !is_sep(info_part(i, 8).last())
            && no_breaks(info_part(i, 8)) && info_next_ok(info_part(i, 8) + rest)),
{
    reveal_strlit(" hashfull ");
    reveal_strlit("multipv");
    reveal_strlit("depth");
    reveal_strlit("seldepth");
    reveal_strlit("time");
    reveal_strlit("nodes");
    reveal_strlit("score");
    reveal_strlit("currmove");
    reveal_strlit("currmovenumber");
    reveal_strlit("hashfull");
    reveal_strlit("nps");
    reveal_strlit("tbhits");
    reveal_strlit("sbhits");
    reveal_strlit("cpuload");
    reveal_strlit("refutation");
    reveal_strlit("currline");
    reveal_strlit("pv");
    reveal_strlit("string");
    let p = info_part(i, 8);
    if p.len() > 0 {
        let x = i.hashfull->0;
        let d = crate::number::dec_text(x as nat);
        crate::number::lemma_dec_text(x as nat);
        let kw = "hashfull"@;
        assert(is_word(kw));
        assert(p =~= seq![' '] + kw + seq![' '] + d);
        lemma_info_next_moves_end(rest);
        lemma_num_part_lo(kw, x as nat, 0, x as int, rest);
        assert(p + rest =~= seq![' '] + kw + seq![' '] + d + rest);
        assert(is_info_keyword(kw));
        assert(p.last() == d.last());
        assert(crate::number::is_digit(d[d.len() - 1]));
        assert(no_breaks(d)) by {
            assert forall|j: int| 0 <= j < d.len() implies (#[trigger] d[j]) != '\r' && d[j] != '\n' by {
                assert(crate::number::is_digit(d[j]));
            }
        }
        lemma_no_breaks_lit(seq![' '] + kw + seq![' ']);
        lemma_no_breaks_concat(seq![' '] + kw + seq![' '], d);
    }
}

proof fn lemma_info_facts_nps(i: crate::uci::InfoModel, rest: Seq<char>)
    requires
        info_next_ok(rest),
    ensures
        info_part(i, 9).len() == 0 || (info_part(i, 9)[0] == ' ' && !is_sep(info_part(i, 9).last())
            && no_breaks(info_part(i, 9)) && info_next_ok(info_part(i, 9) + rest)),
{
    reveal_strlit(" nps ");
    reveal_strlit("multipv");
    reveal_strlit("depth");
    reveal_strlit("seldepth");
    reveal_strlit("time");
    reveal_strlit("nodes");
    reveal_strlit("score");
    reveal_strlit("currmove");
    reveal_strlit("currmovenumber");
    reveal_strlit("hashfull");
    reveal_strlit("nps");
    reveal_strlit("tbhits");
    reveal_strlit("sbhits");
    reveal_strlit("cpuload");
    reveal_strlit("refutation");
    reveal_strlit("currline");
    reveal_strlit("pv");
    reveal_strlit("string");
    let p = info_part(i, 9);
    if p.len() > 0 {
        let x = i.nps->0;
        let d = crate::number::dec_text(x as nat);
        crate::number::lemma_dec_text(x as nat);
        let kw = "nps"@;
        assert(is_word(kw));
        assert(p =~= seq![' '] + kw + seq![' '] + d);
        lemma_info_next_moves_end(rest);
        lemma_num_part_lo(kw, x as nat, 0, x as int, rest);
        assert(p + rest =~= seq![' '] + kw + seq![' '] + d + rest);
        assert(is_info_keyword(kw));
        assert(p.last() == d.last());
        assert(crate::number::is_digit(d[d.len() - 1]));
        assert(no_breaks(d)) by {
            assert forall|j: int| 0 <= j < d.len() implies (#[trigger] d[j]) != '\r' && d[j] != '\n' by {
                assert(crate::number::is_digit(d[j]));
            }
        }
        lemma_no_breaks_lit(seq![' '] + kw + seq![' ']);
        lemma_no_breaks_concat(seq![' '] + kw + seq![' '], d);
    }
}

proof fn lemma_info_facts_tbhits(i: crate::uci::InfoModel, rest: Seq<char>)
    requires
        info_next_ok(rest),
    ensures
        info_part(i, 10).len() == 0 || (info_part(i, 10)[0] == ' ' && !is_sep(info_part(i, 10).last())
            && no_breaks(info_part(i, 10)) && info_next_ok(info_part(i, 10) + rest)),
{
    reveal_strlit(" tbhits ");
    reveal_strlit("multipv");
    reveal_strlit("depth");
    reveal_strlit("seldepth");
    reveal_strlit("time");
    reveal_strlit("nodes");
    reveal_strlit("score");
    reveal_strlit("currmove");
    reveal_strlit("currmovenumber");
    reveal_strlit("hashfull");
    reveal_strlit("nps");
    reveal_strlit("tbhits");
    reveal_strlit("sbhits");
    reveal_strlit("cpuload");
    reveal_strlit("refutation");
    reveal_strlit("currline");
    reveal_strlit("pv");
    reveal_strlit("string");
    let p = info_part(i, 10);
    if p.len() > 0 {
        let x = i.tbhits->0;
        let d = crate::number::dec_text(x as nat);
        crate::number::lemma_dec_text(x as nat);
        let kw = "tbhits"@;
        assert(is_word(kw));
        assert(p =~= seq![' '] + kw + seq![' '] + d);
        lemma_info_next_moves_end(rest);
        lemma_num_part_lo(kw, x as nat, 0, x as int, rest);
        assert(p + rest =~= seq![' '] + kw + seq![' '] + d + rest);
        assert(is_info_keyword(kw));
        assert(p.last() == d.last());
        assert(crate::number::is_digit(d[d.len() - 1]));
        assert(no_breaks(d)) by {
            assert forall|j: int| 0 <= j < d.len() implies (#[trigger] d[j]) != '\r' && d[j] != '\n' by {
                assert(crate::number::is_digit(d[j]));
            }
        }
        lemma_no_breaks_lit(seq![' '] + kw + seq![' ']);
        lemma_no_breaks_concat(seq![' '] + kw + seq![' '], d);
    }
}

proof fn lemma_info_facts_sbhits(i: crate::uci::InfoModel, rest: Seq<char>)
    requires
        info_next_ok(rest),
    ensures
        info_part(i, 11).len() == 0 || (info_part(i, 11)[0] == ' ' && !is_sep(info_part(i, 11).last())
            && no_breaks(info_part(i, 11)) && info_next_ok(info_part(i, 11) + rest)),
{
    reveal_strlit(" sbhits ");
    reveal_strlit("multipv");
    reveal_strlit("depth");
    reveal_strlit("seldepth");
    reveal_strlit("time");
    reveal_strlit("nodes");
    reveal_strlit("score");
    reveal_strlit("currmove");
    reveal_strlit("currmovenumber");
    reveal_strlit("hashfull");
    reveal_strlit("nps");
    reveal_strlit("tbhits");
    reveal_strlit("sbhits");
    reveal_strlit("cpuload");
    reveal_strlit("refutation");
    reveal_strlit("currline");
    reveal_strlit("pv");
    reveal_strlit("string");
    let p = info_part(i, 11);
    if p.len() > 0 {
        let x = i.sbhits->0;
        let d = crate::number::dec_text(x as nat);
        crate::number::lemma_dec_text(x as nat);
        let kw = "sbhits"@;
        assert(is_word(kw));
        assert(p =~= seq![' '] + kw + seq![' '] + d);
        lemma_info_next_moves_end(rest);
        lemma_num_part_lo(kw, x as nat, 0, x as int, rest);
        assert(p + rest =~= seq![' '] + kw + seq![' '] + d + rest);
        assert(is_info_keyword(kw));
        assert(p.last() == d.last());
        assert(crate::number::is_digit(d[d.len() - 1]));
        assert(no_breaks(d)) by {
            assert forall|j: int| 0 <= j < d.len() implies (#[trigger] d[j]) != '\r' && d[j] != '\n' by {
                assert(crate::number::is_digit(d[j]));
            }
        }
        lemma_no_breaks_lit(seq![' '] + kw + seq![' ']);
        lemma_no_breaks_concat(seq![' '] + kw + seq![' '], d);
    }
}

proof fn lemma_info_facts_cpuload(i: crate::uci::InfoModel, rest: Seq<char>)
    requires
        info_next_ok(rest),
    ensures
        info_part(i, 12).len() == 0 || (info_part(i, 12)[0] == ' ' && !is_sep(info_part(i, 12).last())
            && no_breaks(info_part(i, 12)) && info_next_ok(info_part(i, 12) + rest)),
{
    reveal_strlit(" cpuload ");
    reveal_strlit("multipv");
    reveal_strlit("depth");
    reveal_strlit("seldepth");
    reveal_strlit("time");
    reveal_strlit("nodes");
    reveal_strlit("score");
    reveal_strlit("currmove");
    reveal_strlit("currmovenumber");
    reveal_strlit("hashfull");
    reveal_strlit("nps");
    reveal_strlit("tbhits");
    reveal_strlit("sbhits");
    reveal_strlit("cpuload");
    reveal_strlit("refutation");
    reveal_strlit("currline");
    reveal_strlit("pv");
    reveal_strlit("string");
    let p = info_part(i, 12);
    if p.len() > 0 {
        let x = i.cpuload->0;
        let d = crate::number::dec_text(x as nat);
        crate::number::lemma_dec_text(x as nat);
        let kw = "cpuload"@;
        assert(is_word(kw));
        assert(p =~= seq![' '] + kw + seq![' '] + d);
        lemma_info_next_moves_end(rest);
        lemma_num_part_lo(kw, x as nat, 0, x as int, rest);
        assert(p + rest =~= seq![' '] + kw + seq![' '] + d + rest);
        assert(is_info_keyword(kw));
        assert(p.last() == d.last());
        assert(crate::number::is_digit(d[d.len() - 1]));
        assert(no_breaks(d)) by {
            assert forall|j: int| 0 <= j < d.len() implies (#[trigger] d[j]) != '\r' && d[j] != '\n' by {
                assert(crate::number::is_digit(d[j]));
            }
        }
        lemma_no_breaks_lit(seq![' '] + kw + seq![' ']);
        lemma_no_breaks_concat(seq![' '] + kw + seq![' '], d);
    }
}

proof fn lemma_info_facts_score(i: crate::uci::InfoModel, rest: Seq<char>)
    requires
        info_next_ok(rest),
    ensures
        info_part(i, 5).len() == 0 || (info_part(i, 5)[0] == ' ' && !is_sep(info_part(i, 5).last())
            && no_breaks(info_part(i, 5)) && info_next_ok(info_part(i, 5) + rest)),
{
    reveal_strlit(" score ");
    reveal_strlit("cp ");
    reveal_strlit("mate ");
    reveal_strlit(" lowerbound");
    reveal_strlit(" upperbound");
    reveal_strlit("multipv");
    reveal_strlit("depth");
    reveal_strlit("seldepth");
    reveal_strlit("time");
    reveal_strlit("nodes");
    reveal_strlit("score");
    reveal_strlit("currmove");
    reveal_strlit("currmovenumber");
    reveal_strlit("hashfull");
    reveal_strlit("nps");
    reveal_strlit("tbhits");
    reveal_strlit("sbhits");
    reveal_strlit("cpuload");
    reveal_strlit("refutation");
    reveal_strlit("currline");
    reveal_strlit("pv");
    reveal_strlit("string");
    let p = info_part(i, 5);
    if p.len() > 0 {
        let sc = i.score->0;
        let n: int = match sc.eval {
            crate::uci::Eval::Cp(n) => n as int,
            crate::uci::Eval::Mate(n) => n as int,
        };
        let ew = match sc.eval {
            crate::uci::Eval::Cp(_) => "cp "@,
            crate::uci::Eval::Mate(_) => "mate "@,
        };
        let sd = crate::number::signed_dec_text(n);
        lemma_signed_word(n);
        let f = crate::encode::flag_text(" lowerbound"@, sc.lowerbound) + crate::encode::flag_text(" upperbound"@, sc.upperbound);
        assert(p == " score "@ + (ew + sd) + f);
        lemma_space();
        assert(p + rest =~= seq![' '] + ("score"@ + (" "@ + ew + sd + f + rest)));
        assert(is_word("score"@));
        lemma_space();
        assert(sep_or_empty(" "@ + ew + sd + f + rest));
        lemma_token_sp("score"@, " "@ + ew + sd + f + rest);
        assert(is_info_keyword("score"@));
        lemma_no_breaks_lit(" score "@);
        lemma_no_breaks_lit(ew);
        lemma_no_breaks_lit(f);
        lemma_no_breaks_concat(ew, sd);
        lemma_no_breaks_concat(" score "@, ew + sd);
        lemma_no_breaks_concat(" score "@ + (ew + sd), f);
        if f.len() > 0 {
            assert(p.last() == f.last());
        } else {
            assert(p.last() == sd.last());
        }
    }
}

proof fn lemma_info_facts_currmove(i: crate::uci::InfoModel, rest: Seq<char>)
    requires
        info_next_ok(rest),
        info_wf(i),
    ensures
        info_part(i, 6).len() == 0 || (info_part(i, 6)[0] == ' ' && !is_sep(info_part(i, 6).last())
            && no_breaks(info_part(i, 6)) && info_next_ok(info_part(i, 6) + rest)),
{
    reveal_strlit(" currmove ");
    reveal_strlit("multipv");
    reveal_strlit("depth");
    reveal_strlit("seldepth");
    reveal_strlit("time");
    reveal_strlit("nodes");
    reveal_strlit("score");
    reveal_strlit("currmove");
    reveal_strlit("currmovenumber");
    reveal_strlit("hashfull");
    reveal_strlit("nps");
    reveal_strlit("tbhits");
    reveal_strlit("sbhits");
    reveal_strlit("cpuload");
    reveal_strlit("refutation");
    reveal_strlit("currline");
    reveal_strlit("pv");
    reveal_strlit("string");
    let p = info_part(i, 6);
    if p.len() > 0 {
        let m = i.currmove->0;
        assert(is_word("currmove"@));
        assert(p =~= seq![' '] + ("currmove"@ + (seq![' '] + m)));
        assert(p + rest =~= seq![' '] + ("currmove"@ + (seq![' '] + (m + rest))));
        lemma_token_sp("currmove"@, seq![' '] + (m + rest));
        assert(is_info_keyword("currmove"@));
        lemma_no_breaks_lit(" currmove "@);
        lemma_no_breaks_concat(" currmove "@, m);
        assert(p =~= " currmove "@ + m);
        assert(p.last() == m.last());
    }
}

proof fn lemma_info_facts_refutation(i: crate::uci::InfoModel, rest: Seq<char>)
    requires
        info_next_ok(rest),
        info_wf(i),
    ensures
        info_part(i, 13).len() == 0 || (info_part(i, 13)[0] == ' ' && !is_sep(info_part(i, 13).last())
            && no_breaks(info_part(i, 13)) && info_next_ok(info_part(i, 13) + rest)),
{
    reveal_strlit(" refutation ");
    let p = info_part(i, 13);
    assert(Seq::<(Seq<char>, Seq<Seq<char>>)>::empty() + i.refutation =~= i.refutation);
    lemma_info_refs(i.refutation, Seq::empty(), rest, i);
    lemma_refs_text_facts(i.refutation);
    if p.len() > 0 {
        assert(p[0] == ' ');
    }
}

proof fn lemma_info_facts_currline(i: crate::uci::InfoModel, rest: Seq<char>)
    requires
        info_next_ok(rest),
        info_wf(i),
    ensures
        info_part(i, 14).len() == 0 || (info_part(i, 14)[0] == ' ' && !is_sep(info_part(i, 14).last())
            && no_breaks(info_part(i, 14)) && info_next_ok(info_part(i, 14) + rest)),
{
    reveal_strlit(" currline ");
    let p = info_part(i, 14);
    assert(Seq::<(u32, Seq<Seq<char>>)>::empty() + i.currline =~= i.currline);
    lemma_info_lines(i.currline, Seq::empty(), rest, i);
    lemma_lines_text_facts(i.currline);
    if p.len() > 0 {
        assert(p[0] == ' ');
    }
}

proof fn lemma_info_facts_pv(i: crate::uci::InfoModel, rest: Seq<char>)
    requires
        info_next_ok(rest),
        info_wf(i),
    ensures
        info_part(i, 15).len() == 0 || (info_part(i, 15)[0] == ' ' && !is_sep(info_part(i, 15).last())
            && no_breaks(info_part(i, 15)) && info_next_ok(info_part(i, 15) + rest)),
{
    reveal_strlit(" pv");
    reveal_strlit("multipv");
    reveal_strlit("depth");
    reveal_strlit("seldepth");
    reveal_strlit("time");
    reveal_strlit("nodes");
    reveal_strlit("score");
    reveal_strlit("currmove");
    reveal_strlit("currmovenumber");
    reveal_strlit("hashfull");
    reveal_strlit("nps");
    reveal_strlit("tbhits");
    reveal_strlit("sbhits");
    reveal_strlit("cpuload");
    reveal_strlit("refutation");
    reveal_strlit("currline");
    reveal_strlit("pv");
    reveal_strlit("string");
    let p = info_part(i, 15);
    if p.len() > 0 {
        let ms = i.pv->0;
        let mt = crate::encode::moves_text(ms);
        lemma_moves_text_start(ms);
        lemma_moves_text_no_breaks(ms);
        lemma_info_next_moves_end(rest);
        assert(is_word("pv"@));
        assert(p + rest =~= seq![' '] + ("pv"@ + (mt + rest)));
        assert(sep_or_empty(mt + rest)) by {
            if ms.len() > 0 {
                assert((mt + rest)[0] == mt[0]);
            } else {
                assert(mt + rest =~= rest);
            }
        }
        lemma_token_sp("pv"@, mt + rest);
        assert(is_info_keyword("pv"@));
        lemma_no_breaks_lit(" pv"@);
        lemma_no_breaks_concat(" pv"@, mt);
        if ms.len() > 0 {
            lemma_moves_text_last(ms);
            assert(p.last() == mt.last());
        } else {
            assert(p =~= " pv"@);
        }
    }
}

proof fn lemma_info_facts_string(i: crate::uci::InfoModel)
    requires
        info_wf(i),
    ensures
        info_part(i, 16).len() == 0 || (info_part(i, 16)[0] == ' ' && !is_sep(info_part(i, 16).last())
            && no_breaks(info_part(i, 16)) && info_next_ok(info_part(i, 16))),
{
    reveal_strlit(" string ");
    reveal_strlit(" string");
    reveal_strlit("multipv");
    reveal_strlit("depth");
    reveal_strlit("seldepth");
    reveal_strlit("time");
    reveal_strlit("nodes");
    reveal_strlit("score");
    reveal_strlit("currmove");
    reveal_strlit("currmovenumber");
    reveal_strlit("hashfull");
    reveal_strlit("nps");
    reveal_strlit("tbhits");
    reveal_strlit("sbhits");
    reveal_strlit("cpuload");
    reveal_strlit("refutation");
    reveal_strlit("currline");
    reveal_strlit("pv");
    reveal_strlit("string");
    let p = info_part(i, 16);
    if p.len() > 0 {
        let x = i.string->0;
        assert(is_word("string"@));
        assert(is_info_keyword("string"@));
        if x.len() == 0 {
            assert(p =~= seq![' '] + ("string"@ + Seq::<char>::empty()));
            lemma_token_sp("string"@, Seq::empty());
            lemma_no_breaks_lit(p);
        } else {
            assert(p =~= seq![' '] + ("string"@ + (seq![' '] + x)));
            lemma_token_sp("string"@, seq![' '] + x);
            assert(seq![' '] + x == seq![' '] + (x + Seq::<char>::empty()));
            lemma_no_breaks_lit(" string "@);
            lemma_no_breaks_concat(" string "@, x);
            assert(p =~= " string "@ + x);
            assert(p.last() == x.last());
        }
    }
}

} // verus!

verus! {

proof fn lemma_info_part_empty(i: crate::uci::InfoModel, k: int)
    requires
        0 <= k < 17,
        k != 13 && k != 14,
        info_part(i, k).len() == 0,
    ensures
        info_upto(i, k) == info_upto(i, k + 1),
{
    reveal_strlit(" multipv ");
    reveal_strlit(" depth ");
    reveal_strlit(" seldepth ");
    reveal_strlit(" time ");
    reveal_strlit(" nodes ");
    reveal_strlit(" score ");
    reveal_strlit(" currmove ");
    reveal_strlit(" currmovenumber ");
    reveal_strlit(" hashfull ");
    reveal_strlit(" nps ");
    reveal_strlit(" tbhits ");
    reveal_strlit(" sbhits ");
    reveal_strlit(" cpuload ");
    reveal_strlit(" pv");
    reveal_strlit(" string ");
    reveal_strlit(" string");
}

#[verifier::rlimit(100)]
proof fn lemma_info_suffix(i: crate::uci::InfoModel, k: int)
    requires
        0 <= k <= 17,
        info_wf(i),
    ensures
        info_next_ok(info_suffix(i, k)),
        info_suffix(i, k).len() == 0 || !is_sep(info_suffix(i, k).last()),
        no_breaks(info_suffix(i, k)),
        crate::parser::info_loop(info_suffix(i, k), info_upto(i, k)) == Ok::<_, crate::uci::ProtocolError>(i),
    decreases 17 - k,
{
    if k == 17 {
        assert(info_upto(i, 17) == i);
        assert(info_suffix(i, 17) == Seq::<char>::empty());
        return;
    }
    lemma_info_suffix(i, k + 1);
    let p = info_part(i, k);
    let s1 = info_suffix(i, k + 1);
    assert(info_suffix(i, k) == p + s1);
    if k == 16 {
        lemma_info_facts_string(i);
        assert(s1 == Seq::<char>::empty());
        assert(p + s1 =~= p);
        if p.len() > 0 {
            lemma_info_step_string(i);
        }
    } else if k == 0 {
        lemma_info_facts_multipv(i, s1);
        if p.len() > 0 {
            lemma_info_step_multipv(i, s1);
        }
    } else if k == 1 {
        lemma_info_facts_depth(i, s1);
        if p.len() > 0 {
            lemma_info_step_depth(i, s1);
        }
    } else if k == 2 {
        lemma_info_facts_seldepth(i, s1);
        if p.len() > 0 {
            lemma_info_step_seldepth(i, s1);
        }
    } else if k == 3 {
        lemma_info_facts_time(i, s1);
        if p.len() > 0 {
            lemma_info_step_time(i, s1);
        }
    } else if k == 4 {
        lemma_info_facts_nodes(i, s1);
        if p.len() > 0 {
            lemma_info_step_nodes(i, s1);
        }
    } else if k == 5 {
        lemma_info_facts_score(i, s1);
        if p.len() > 0 {
            lemma_info_step_score(i, s1);
        }
    } else if k == 6 {
        lemma_info_facts_currmove(i, s1);
        if p.len() > 0 {
            lemma_info_step_currmove(i, s1);
        }
    } else if k == 7 {
        lemma_info_facts_currmovenumber(i, s1);
        if p.len() > 0 {
            lemma_info_step_currmovenumber(i, s1);
        }
    } else if k == 8 {
        lemma_info_facts_hashfull(i, s1);
        if p.len() > 0 {
            lemma_info_step_hashfull(i, s1);
        }
    } else if k == 9 {
        lemma_info_facts_nps(i, s1);
        if p.len() > 0 {
            lemma_info_step_nps(i, s1);
        }
    } else if k == 10 {
        lemma_info_facts_tbhits(i, s1);
        if p.len() > 0 {
            lemma_info_step_tbhits(i, s1);
        }
    } else if k == 11 {
        lemma_info_facts_sbhits(i, s1);
        if p.len() > 0 {
            lemma_info_step_sbhits(i, s1);
        }
    } else if k == 12 {
        lemma_info_facts_cpuload(i, s1);
        if p.len() > 0 {
            lemma_info_step_cpuload(i, s1);
        }
    } else if k == 13 {
        lemma_info_facts_refutation(i, s1);
        if p.len() > 0 {
            assert(Seq::<(Seq<char>, Seq<Seq<char>>)>::empty() + i.refutation =~= i.refutation);
            lemma_info_refs(i.refutation, Seq::empty(), s1, info_upto(i, 13));
            assert(crate::uci::InfoModel { refutation: Seq::empty(), ..info_upto(i, 13) } == info_upto(i, 13));
            assert(crate::uci::InfoModel { refutation: i.refutation, ..info_upto(i, 13) } == info_upto(i, 14));
        }
    } else if k == 14 {
        lemma_info_facts_currline(i, s1);
        if p.len() > 0 {
            assert(Seq::<(u32, Seq<Seq<char>>)>::empty() + i.currline =~= i.currline);
            lemma_info_lines(i.currline, Seq::empty(), s1, info_upto(i, 14));
            assert(crate::uci::InfoModel { currline: Seq::empty(), ..info_upto(i, 14) } == info_upto(i, 14));
            assert(crate::uci::InfoModel { currline: i.currline, ..info_upto(i, 14) } == info_upto(i, 15));
        }
    } else if k == 15 {
        lemma_info_facts_pv(i, s1);
        if p.len() > 0 {
            lemma_info_step_pv(i, s1);
        }
    }
    if p.len() == 0 {
        assert(p + s1 =~= s1);
        assert(info_upto(i, k) == info_upto(i, k + 1)) by {
            if k == 13 {
                assert(crate::encode::refutations_text(i.refutation).len() == 0);
                if i.refutation.len() > 0 {
                    reveal_strlit(" refutation ");
                    assert(crate::encode::refutations_text(i.refutation).len() > 0);
                }
                assert(i.refutation =~= Seq::<(Seq<char>, Seq<Seq<char>>)>::empty());
            } else if k == 14 {
                if i.currline.len() > 0 {
                    reveal_strlit(" currline ");
                    assert(crate::encode::currlines_text(i.currline).len() > 0);
                }
                assert(i.currline =~= Seq::<(u32, Seq<Seq<char>>)>::empty());
            } else {
                lemma_info_part_empty(i, k);
            }
        }
    } else {
        lemma_no_breaks_concat(p, s1);
        if s1.len() > 0 {
            assert((p + s1).last() == s1.last());
        } else {
            assert(p + s1 =~= p);
        }
        assert(info_next_ok(p + s1)) by {
            assert((p + s1)[0] == p[0]);
        }
    }
}

} // verus!

verus! {

pub open spec fn info_extra(i: crate::uci::InfoModel) -> Seq<char> {
    if i.string matches Some(x) && x.len() == 0 {
        seq![' ']
    } else {
        Seq::empty()
    }
}

proof fn lemma_info_tail_text(i: crate::uci::InfoModel)
    ensures
        crate::encode::info_tail_text(i) == info_suffix(i, 12) + info_extra(i),
{
    reveal_strlit(" string ");
    reveal_strlit(" string");
    let part12 = info_part(i, 12);
    let part13 = info_part(i, 13);
    let part14 = info_part(i, 14);
    let part15 = info_part(i, 15);
    let part16 = info_part(i, 16);
    let str_orig = match i.string {
        Some(s) => " string "@ + s,
        None => Seq::empty(),
    };
    assert(str_orig =~= part16 + info_extra(i));
    assert(info_suffix(i, 17) == Seq::<char>::empty());
    assert(info_suffix(i, 16) =~= part16);
    assert(info_suffix(i, 15) == part15 + part16);
    assert(info_suffix(i, 14) == part14 + (part15 + part16));
    assert(info_suffix(i, 13) == part13 + (part14 + (part15 + part16)));
    assert(info_suffix(i, 12) == part12 + (part13 + (part14 + (part15 + part16))));
    assert(crate::encode::info_tail_text(i) == (((part12 + part13) + part14) + part15) + str_orig);
    assert(crate::encode::info_tail_text(i) =~= info_suffix(i, 12) + info_extra(i));
}

#[verifier::rlimit(100)]
proof fn lemma_info_middle_text(i: crate::uci::InfoModel)
    ensures
        info_suffix(i, 6) == crate::encode::info_middle_text(i) + info_suffix(i, 12),
{
    let t = info_suffix(i, 12);
    let part6 = info_part(i, 6);
    let part7 = info_part(i, 7);
    let part8 = info_part(i, 8);
    let part9 = info_part(i, 9);
    let part10 = info_part(i, 10);
    let part11 = info_part(i, 11);
    assert(info_suffix(i, 11) == part11 + t);
    assert(info_suffix(i, 10) == part10 + (part11 + t));
    assert(info_suffix(i, 9) == part9 + (part10 + (part11 + t)));
    assert(info_suffix(i, 8) == part8 + (part9 + (part10 + (part11 + t))));
    assert(info_suffix(i, 7) == part7 + (part8 + (part9 + (part10 + (part11 + t)))));
    assert(info_suffix(i, 6) == part6 + (part7 + (part8 + (part9 + (part10 + (part11 + t))))));
    assert(crate::encode::info_middle_text(i) == (((((part6 + part7) + part8) + part9) + part10) + part11));
    lemma_assoc(((((part6 + part7) + part8) + part9) + part10), part11, t);
    lemma_assoc((((part6 + part7) + part8) + part9), part10, (part11 + t));
    lemma_assoc(((part6 + part7) + part8), part9, (part10 + (part11 + t)));
    lemma_assoc((part6 + part7), part8, (part9 + (part10 + (part11 + t))));
    lemma_assoc(part6, part7, (part8 + (part9 + (part10 + (part11 + t)))));
}

#[verifier::rlimit(100)]
proof fn lemma_info_head_text(i: crate::uci::InfoModel)
    ensures
        info_suffix(i, 0) == crate::encode::info_head_text(i) + info_suffix(i, 6),
{
    let t = info_suffix(i, 6);
    let part0 = info_part(i, 0);
    let part1 = info_part(i, 1);
    let part2 = info_part(i, 2);
    let part3 = info_part(i, 3);
    let part4 = info_part(i, 4);
    let part5 = info_part(i, 5);
    assert(info_suffix(i, 5) == part5 + t);
    assert(info_suffix(i, 4) == part4 + (part5 + t));
    assert(info_suffix(i, 3) == part3 + (part4 + (part5 + t)));
    assert(info_suffix(i, 2) == part2 + (part3 + (part4 + (part5 + t))));
    assert(info_suffix(i, 1) == part1 + (part2 + (part3 + (part4 + (part5 + t)))));
    assert(info_suffix(i, 0) == part0 + (part1 + (part2 + (part3 + (part4 + (part5 + t))))));
    assert(crate::encode::info_head_text(i) == (((((part0 + part1) + part2) + part3) + part4) + part5));
    lemma_assoc(((((part0 + part1) + part2) + part3) + part4), part5, t);
    lemma_assoc((((part0 + part1) + part2) + part3), part4, (part5 + t));
    lemma_assoc(((part0 + part1) + part2), part3, (part4 + (part5 + t)));
    lemma_assoc((part0 + part1), part2, (part3 + (part4 + (part5 + t))));
    lemma_assoc(part0, part1, (part2 + (part3 + (part4 + (part5 + t)))));
}

#[verifier::rlimit(100)]
proof fn lemma_info_trim(i: crate::uci::InfoModel)
    requires
        info_wf(i),
    ensures
        no_breaks(crate::encode::encode_out(crate::uci::OutModel::Info(i))),
        trim(crate::encode::encode_out(crate::uci::OutModel::Info(i))) == "info"@ + info_suffix(i, 0),
{
    reveal_strlit("info");
    lemma_info_tail_text(i);
    lemma_info_middle_text(i);
    lemma_info_head_text(i);
    lemma_info_suffix(i, 0);
    let s0 = info_suffix(i, 0);
    let x = info_extra(i);
    let e = crate::encode::encode_out(crate::uci::OutModel::Info(i));
    let core = "info"@ + s0;
    assert(e =~= core + x);
    assert(core[0] == 'i');
    if s0.len() > 0 {
        assert(core.last() == s0.last());
    } else {
        assert(core =~= "info"@);
    }
    lemma_trim_word_start(core);
    lemma_no_breaks_lit("info"@);
    lemma_no_breaks_concat("info"@, s0);
    if x.len() > 0 {
        lemma_skip_seps_len(e);
        assert(skip_seps(e) == e);
        assert(e.drop_last() =~= core);
        assert(trim_end(e) == trim_end(core));
        lemma_no_breaks_lit(x);
        lemma_no_breaks_concat(core, x);
    } else {
        assert(e =~= core);
    }
}

proof fn lemma_info_complete(i: crate::uci::InfoModel)
    requires
        info_wf(i),
    ensures
        no_breaks(crate::encode::encode_out(crate::uci::OutModel::Info(i))),
        crate::parser::out_spec(trim(crate::encode::encode_out(crate::uci::OutModel::Info(i)))) == Ok::<
            _,
            crate::uci::ProtocolError,
        >(Some(crate::uci::OutModel::Info(i))),
{
    reveal_strlit("info");
    reveal_strlit("id");
    reveal_strlit("uciok");
    reveal_strlit("readyok");
    reveal_strlit("bestmove");
    lemma_info_trim(i);
    lemma_info_suffix(i, 0);
    let s0 = info_suffix(i, 0);
    assert(is_word("info"@));
    lemma_info_next_moves_end(s0);
    lemma_token("info"@, s0);
    assert(info_upto(i, 0) == crate::parser::info_default());
    assert(crate::parser::info_loop(s0, crate::parser::info_default()) == Ok::<_, crate::uci::ProtocolError>(i));
}

proof fn lemma_out_sound(x: Seq<char>)
    requires
        no_breaks(x),
        crate::parser::out_spec(x) matches Ok(Some(_)),
    ensures
        wf_out(crate::parser::out_spec(x)->Ok_0->0),
{
    reveal_strlit("id");
    reveal_strlit("uciok");
    reveal_strlit("readyok");
    reveal_strlit("bestmove");
    reveal_strlit("info");
    reveal_strlit("option");
    reveal_strlit("name");
    reveal_strlit("author");
    lemma_out_keywords();
    lemma_token_sound(x);
    let t = next_token(x).0->0;
    let r = next_token(x).1;
    if t == "id"@ {
        lemma_token_sound(r);
        lemma_text_sound(next_token(r).1, Stop::Never);
    } else if t == "bestmove"@ {
        lemma_bestmove_sound(r);
    } else if t == "info"@ {
        assert(info_wf(crate::parser::info_default()));
        lemma_info_sound(r, crate::parser::info_default());
    } else if t == "option"@ {
        lemma_token_sound(r);
        let r1 = next_token(r).1;
        lemma_text_sound(r1, Stop::Type);
        let r2 = take_until(r1, Stop::Type).1;
        let r3 = next_token(r2).1;
        assert(no_breaks(r3)) by {
            if next_token(r2).0 is Some {
                lemma_token_sound(r2);
            } else {
                assert(r3.len() == 0 || r3 == skip_seps(r2));
                lemma_skip_seps_len(r2);
                assert(r3 =~= r2.subrange(r2.len() - r3.len(), r2.len() as int));
                lemma_no_breaks_sub(r2, r2.len() - r3.len(), r2.len() as int);
            }
        }
        lemma_schema_sound(r3);
    }
}

/// Whatever a line sent by an engine reads as, the line written for it
/// reads as the same message.
pub proof fn law_output_round_trip(s: Seq<char>)
    requires
        crate::parser::decode_out(s) matches Ok(Some(_)),
    ensures
        crate::parser::decode_out(crate::encode::encode_out(crate::parser::decode_out(s)->Ok_0->0))
            == crate::parser::decode_out(s),
{
    let v = crate::parser::decode_out(s)->Ok_0->0;
    assert(no_breaks(s));
    lemma_no_breaks_trim(s);
    lemma_out_sound(trim(s));
    let e = crate::encode::encode_out(v);
    match v {
        crate::uci::OutModel::IdName(_) => lemma_id_complete(v),
        crate::uci::OutModel::IdAuthor(_) => lemma_id_complete(v),
        crate::uci::OutModel::Uciok => lemma_ack_complete(v),
        crate::uci::OutModel::Readyok => lemma_ack_complete(v),
        crate::uci::OutModel::Bestmove { m, ponder } => lemma_bestmove_complete(m, ponder),
        crate::uci::OutModel::Info(i) => lemma_info_complete(i),
        crate::uci::OutModel::OptionDecl { name, option } => lemma_option_complete(name, option),
    }
    assert(!crate::parser::has_line_break(e));
}

} // verus!
