//! Laws relating the parser and the renderer.
use crate::error::ErrorKind;
use crate::grammar::{
    array_items, digits_len, false_word, insert_entry, is_digit, is_ws, key_pos, literal_from,
    null_word, number_at, object_members, parse_text, document_from, rest, string_at, string_body, true_word, value_at, ws_len,
    Outcome, MAX_DEPTH,
};
use crate::render::{escape_char, escape_text, quoted, render_items, render_json, render_members};
use crate::value::Json;
use vstd::prelude::*;

verus! {

/// A number's text follows the JSON number grammar exactly.
pub open spec fn is_number_text(t: Seq<char>) -> bool {
    number_at(t, 0) == Outcome::<Json>::Ok((Json::Num(t), t.len()))
}

/// Every number is valid JSON number text, and no object has two entries
/// with the same key.
pub open spec fn wf_json(v: Json) -> bool
    decreases v,
{
    match v {
        Json::Num(t) => is_number_text(t),
        Json::Arr(xs) => wf_items(xs),
        Json::Obj(es) => wf_entries(es) && keys_unique(es),
        _ => true,
    }
}

/// Every element is well formed.
pub open spec fn wf_items(xs: Seq<Json>) -> bool
    decreases xs,
{
    xs.len() == 0 || (wf_json(xs[0]) && wf_items(xs.subrange(1, xs.len() as int)))
}

/// Every entry's value is well formed.
pub open spec fn wf_entries(es: Seq<(Seq<char>, Json)>) -> bool
    decreases es,
{
    es.len() == 0 || (wf_json(es[0].1) && wf_entries(es.subrange(1, es.len() as int)))
}

/// No two entries have the same key.
pub open spec fn keys_unique(es: Seq<(Seq<char>, Json)>) -> bool {
    forall|i: int, j: int|
        0 <= i < es.len() && 0 <= j < es.len() && i != j ==> #[trigger] es[i].0 != #[trigger] es[j].0
}

/// Offset `k` of `s` is its end, whitespace, or a character that closes a
/// value inside an array or object.
pub open spec fn closes(s: Seq<char>, k: int) -> bool {
    k == s.len() || (0 <= k < s.len() && (s[k] == ',' || s[k] == ']' || s[k] == '}' || is_ws(s[k])))
}

/// `s` holds `r` at offset `i`.
pub open spec fn holds_at(s: Seq<char>, i: int, r: Seq<char>) -> bool {
    0 <= i && i + r.len() <= s.len() && s.subrange(i, i + r.len()) == r
}

proof fn lemma_holds_index(s: Seq<char>, i: int, r: Seq<char>, k: int)
    requires
        holds_at(s, i, r),
        0 <= k < r.len(),
    ensures
        s[i + k] == r[k],
{
    assert(s.subrange(i, i + r.len())[k] == r[k]);
}

proof fn lemma_digits_embed(t: Seq<char>, s: Seq<char>, i: int, j: int)
    requires
        holds_at(s, i, t),
        closes(s, i + t.len()),
        0 <= j <= t.len(),
    ensures
        digits_len(s, i + j) == digits_len(t, j),
    decreases t.len() - j,
{
    if j < t.len() {
        lemma_holds_index(s, i, t, j);
        lemma_digits_embed(t, s, i, j + 1);
    }
}

#[verifier::rlimit(80)]
proof fn lemma_number_embed(t: Seq<char>, s: Seq<char>, i: int)
    requires
        holds_at(s, i, t),
        closes(s, i + t.len()),
        is_number_text(t),
    ensures
        number_at(s, i) == Outcome::<Json>::Ok((Json::Num(t), t.len())),
        t.len() > 0,
        t[0] == '-' || is_digit(t[0]),
{
    assert forall|j: int| 0 <= j <= t.len() implies digits_len(s, i + j) == #[trigger] digits_len(
        t,
        j,
    ) by {
        lemma_digits_embed(t, s, i, j);
    }
    assert forall|j: int| 0 <= j < t.len() implies s[i + j] == #[trigger] t[j] by {
        lemma_holds_index(s, i, t, j);
    }
    assert(t.len() > 0);
    assert(s[i] == t[0]);
    assert(s.subrange(i, i + t.len()) == t);
    assert(number_at(s, i) == Outcome::<Json>::Ok((Json::Num(t), t.len())));
}

proof fn lemma_holds_split(s: Seq<char>, i: int, a: Seq<char>, b: Seq<char>)
    requires
        holds_at(s, i, a + b),
    ensures
        holds_at(s, i, a),
        holds_at(s, i + a.len(), b),
{
    assert(s.subrange(i, i + a.len()) =~= s.subrange(i, i + (a + b).len()).subrange(0, a.len() as int));
    assert((a + b).subrange(0, a.len() as int) =~= a);
    assert(s.subrange(i + a.len(), i + a.len() + b.len()) =~= s.subrange(i, i + (a + b).len()).subrange(
        a.len() as int,
        (a + b).len() as int,
    ));
    assert((a + b).subrange(a.len() as int, (a + b).len() as int) =~= b);
}

proof fn lemma_string_embed(t: Seq<char>, s: Seq<char>, i: int, acc: Seq<char>)
    requires
        holds_at(s, i, escape_text(t) + seq!['"']),
    ensures
        string_body(s, i, acc) == Outcome::<Seq<char>>::Ok((acc + t, escape_text(t).len() + 1)),
    decreases t.len(),
{
    let q = seq!['"'];
    if t.len() == 0 {
        assert(escape_text(t) + q =~= q);
        lemma_holds_index(s, i, q, 0);
        assert(acc + t =~= acc);
    } else {
        let c = t[0];
        let r = t.subrange(1, t.len() as int);
        let e = escape_char(c);
        assert(escape_text(t) + q =~= e + (escape_text(r) + q));
        lemma_holds_split(s, i, e, escape_text(r) + q);
        lemma_string_embed(r, s, i + e.len(), acc.push(c));
        lemma_holds_index(s, i, e, 0);
        if e.len() == 2 {
            lemma_holds_index(s, i, e, 1);
        }
        assert(acc.push(c) + r =~= acc + t);
    }
}

proof fn lemma_key_absent(es: Seq<(Seq<char>, Json)>, k: Seq<char>, j: int)
    requires
        0 <= j <= es.len(),
        forall|p: int| j <= p < es.len() ==> #[trigger] es[p].0 != k,
    ensures
        key_pos(es, k, j) == -1,
    decreases es.len() - j,
{
    if j < es.len() {
        lemma_key_absent(es, k, j + 1);
    }
}

/// Arrays and objects nest at most `n` deep in `v`.
pub open spec fn fits(v: Json, n: nat) -> bool
    decreases v,
{
    match v {
        Json::Arr(xs) => n > 0 && fits_items(xs, (n - 1) as nat),
        Json::Obj(es) => n > 0 && fits_entries(es, (n - 1) as nat),
        _ => true,
    }
}

/// Arrays and objects nest at most `n` deep in every element.
pub open spec fn fits_items(xs: Seq<Json>, n: nat) -> bool
    decreases xs,
{
    xs.len() == 0 || (fits(xs[0], n) && fits_items(xs.subrange(1, xs.len() as int), n))
}

/// Arrays and objects nest at most `n` deep in every entry's value.
pub open spec fn fits_entries(es: Seq<(Seq<char>, Json)>, n: nat) -> bool
    decreases es,
{
    es.len() == 0 || (fits(es[0].1, n) && fits_entries(es.subrange(1, es.len() as int), n))
}

/// Every character of `w` is JSON whitespace.
pub open spec fn all_ws(w: Seq<char>) -> bool {
    forall|k: int| 0 <= k < w.len() ==> #[trigger] is_ws(w[k])
}

/// The text of `v` with whitespace `a` after each `[` and `{` and before each
/// `]`, `}`, `,` and `:`, and whitespace `b` after each `,` and `:`.
pub open spec fn layout(v: Json, a: Seq<char>, b: Seq<char>) -> Seq<char>
    decreases v,
{
    match v {
        Json::Arr(xs) => if xs.len() == 0 {
            seq!['['] + a + seq![']']
        } else {
            seq!['['] + a + layout_items(xs, a, b) + a + seq![']']
        },
        Json::Obj(es) => if es.len() == 0 {
            seq!['{'] + a + seq!['}']
        } else {
            seq!['{'] + a + layout_members(es, a, b) + a + seq!['}']
        },
        _ => render_json(v),
    }
}

/// Array elements laid out as in `layout`.
pub open spec fn layout_items(xs: Seq<Json>, a: Seq<char>, b: Seq<char>) -> Seq<char>
    decreases xs,
{
    if xs.len() == 0 {
        Seq::empty()
    } else if xs.len() == 1 {
        layout(xs[0], a, b)
    } else {
        layout(xs[0], a, b) + a + seq![','] + b + layout_items(xs.subrange(1, xs.len() as int), a, b)
    }
}

/// Object members laid out as in `layout`.
pub open spec fn layout_members(es: Seq<(Seq<char>, Json)>, a: Seq<char>, b: Seq<char>) -> Seq<char>
    decreases es,
{
    if es.len() == 0 {
        Seq::empty()
    } else if es.len() == 1 {
        quoted(es[0].0) + a + seq![':'] + b + layout(es[0].1, a, b)
    } else {
        quoted(es[0].0) + a + seq![':'] + b + layout(es[0].1, a, b) + a + seq![','] + b
            + layout_members(es.subrange(1, es.len() as int), a, b)
    }
}

proof fn lemma_ws_embed(s: Seq<char>, p: int, w: Seq<char>)
    requires
        holds_at(s, p, w),
        all_ws(w),
        p + w.len() == s.len() || (p + w.len() < s.len() && !is_ws(s[p + w.len()])),
    ensures
        ws_len(s, p) == w.len(),
    decreases w.len(),
{
    if w.len() > 0 {
        lemma_holds_index(s, p, w, 0);
        let r = w.subrange(1, w.len() as int);
        assert(w =~= seq![w[0]] + r);
        lemma_holds_split(s, p, seq![w[0]], r);
        lemma_ws_embed(s, p + 1, r);
    }
}

/// The laid-out text of a well-formed value is never empty, and its first
/// character is no whitespace and closes nothing.
proof fn lemma_first(v: Json, a: Seq<char>, b: Seq<char>)
    requires
        wf_json(v),
    ensures
        layout(v, a, b).len() > 0,
        !closes(layout(v, a, b), 0),
{
    match v {
        Json::Num(t) => {
            assert(t.subrange(0, t.len() as int) =~= t);
            lemma_number_embed(t, t, 0);
        },
        _ => {},
    }
}

proof fn lemma_items_first(xs: Seq<Json>, a: Seq<char>, b: Seq<char>)
    requires
        xs.len() > 0,
        wf_items(xs),
    ensures
        layout_items(xs, a, b).len() > 0,
        !closes(layout_items(xs, a, b), 0),
{
    lemma_first(xs[0], a, b);
}

proof fn lemma_literal_embed(s: Seq<char>, i: int, w: Seq<char>)
    requires
        holds_at(s, i, w),
        w.len() <= 5,
    ensures
        literal_from(s, i, w, 0) == Result::<(), (ErrorKind, int)>::Ok(()),
{
    assert forall|k: int| 0 <= k < w.len() implies s[i + k] == #[trigger] w[k] by {
        lemma_holds_index(s, i, w, k);
    }
    reveal_with_fuel(literal_from, 6);
}

#[verifier::rlimit(60)]
proof fn lemma_value_embed(v: Json, a: Seq<char>, b: Seq<char>, s: Seq<char>, i: int, d: nat)
    requires
        wf_json(v),
        d <= MAX_DEPTH,
        fits(v, (MAX_DEPTH - d) as nat),
        all_ws(a),
        all_ws(b),
        holds_at(s, i, layout(v, a, b)),
        closes(s, i + layout(v, a, b).len()),
    ensures
        value_at(s, i, d) == Outcome::<Json>::Ok((v, layout(v, a, b).len())),
    decreases v, 2nat,
{
    let r = layout(v, a, b);
    lemma_first(v, a, b);
    lemma_holds_index(s, i, r, 0);
    match v {
        Json::Null => {
            lemma_literal_embed(s, i, null_word());
        },
        Json::Bool(x) => {
            if x {
                lemma_literal_embed(s, i, true_word());
            } else {
                lemma_literal_embed(s, i, false_word());
            }
        },
        Json::Num(t) => {
            lemma_number_embed(t, s, i);
        },
        Json::Str(t) => {
            assert(r =~= seq!['"'] + (escape_text(t) + seq!['"']));
            lemma_holds_split(s, i, seq!['"'], escape_text(t) + seq!['"']);
            lemma_string_embed(t, s, i + 1, Seq::empty());
            assert(Seq::<char>::empty() + t =~= t);
        },
        Json::Arr(xs) => {
            lemma_array_embed(xs, a, b, s, i, d);
        },
        Json::Obj(es) => {
            lemma_object_embed(es, a, b, s, i, d);
        },
    }
}

#[verifier::rlimit(40)]
proof fn lemma_array_embed(xs: Seq<Json>, a: Seq<char>, b: Seq<char>, s: Seq<char>, i: int, d: nat)
    requires
        wf_items(xs),
        d < MAX_DEPTH,
        fits_items(xs, (MAX_DEPTH - d - 1) as nat),
        all_ws(a),
        all_ws(b),
        holds_at(s, i, layout(Json::Arr(xs), a, b)),
    ensures
        value_at(s, i, d) == Outcome::<Json>::Ok((Json::Arr(xs), layout(Json::Arr(xs), a, b).len())),
    decreases xs, 1nat,
{
    let r = layout(Json::Arr(xs), a, b);
    if xs.len() == 0 {
        assert(r =~= seq!['['] + (a + seq![']']));
        lemma_holds_split(s, i, seq!['['], a + seq![']']);
        lemma_holds_split(s, i + 1, a, seq![']']);
        lemma_holds_index(s, i, seq!['['], 0);
        lemma_holds_index(s, i + 1 + a.len(), seq![']'], 0);
        lemma_ws_embed(s, i + 1, a);
        assert(xs =~= Seq::<Json>::empty());
    } else {
        let body = layout_items(xs, a, b) + (a + seq![']']);
        assert(r =~= seq!['['] + (a + body));
        lemma_holds_split(s, i, seq!['['], a + body);
        lemma_holds_split(s, i + 1, a, body);
        lemma_holds_index(s, i, seq!['['], 0);
        lemma_items_first(xs, a, b);
        lemma_holds_index(s, i + 1 + a.len(), body, 0);
        lemma_ws_embed(s, i + 1, a);
        lemma_items_embed(xs, a, b, s, i + 1 + a.len(), Seq::empty(), d + 1);
        assert(Seq::<Json>::empty() + xs =~= xs);
    }
}

#[verifier::rlimit(40)]
proof fn lemma_object_embed(
    es: Seq<(Seq<char>, Json)>,
    a: Seq<char>,
    b: Seq<char>,
    s: Seq<char>,
    i: int,
    d: nat,
)
    requires
        wf_entries(es),
        d < MAX_DEPTH,
        fits_entries(es, (MAX_DEPTH - d - 1) as nat),
        keys_unique(es),
        all_ws(a),
        all_ws(b),
        holds_at(s, i, layout(Json::Obj(es), a, b)),
    ensures
        value_at(s, i, d) == Outcome::<Json>::Ok((Json::Obj(es), layout(Json::Obj(es), a, b).len())),
    decreases es, 1nat,
{
    let r = layout(Json::Obj(es), a, b);
    if es.len() == 0 {
        assert(r =~= seq!['{'] + (a + seq!['}']));
        lemma_holds_split(s, i, seq!['{'], a + seq!['}']);
        lemma_holds_split(s, i + 1, a, seq!['}']);
        lemma_holds_index(s, i, seq!['{'], 0);
        lemma_holds_index(s, i + 1 + a.len(), seq!['}'], 0);
        lemma_ws_embed(s, i + 1, a);
        assert(es =~= Seq::<(Seq<char>, Json)>::empty());
    } else {
        let body = layout_members(es, a, b) + (a + seq!['}']);
        assert(r =~= seq!['{'] + (a + body));
        lemma_holds_split(s, i, seq!['{'], a + body);
        lemma_holds_split(s, i + 1, a, body);
        lemma_holds_index(s, i, seq!['{'], 0);
        lemma_holds_index(s, i + 1 + a.len(), body, 0);
        lemma_ws_embed(s, i + 1, a);
        lemma_members_embed(es, a, b, s, i + 1 + a.len(), Seq::empty(), d + 1);
        assert(Seq::<(Seq<char>, Json)>::empty() + es =~= es);
    }
}

proof fn lemma_items_embed(
    xs: Seq<Json>,
    a: Seq<char>,
    b: Seq<char>,
    s: Seq<char>,
    i: int,
    acc: Seq<Json>,
    d: nat,
)
    requires
        xs.len() > 0,
        wf_items(xs),
        d <= MAX_DEPTH,
        fits_items(xs, (MAX_DEPTH - d) as nat),
        all_ws(a),
        all_ws(b),
        holds_at(s, i, layout_items(xs, a, b) + (a + seq![']'])),
    ensures
        array_items(s, i, acc, d) == Outcome::<Json>::Ok(
            (Json::Arr(acc + xs), layout_items(xs, a, b).len() + a.len() + 1),
        ),
    decreases xs, 0nat,
{
    let x = xs[0];
    let r0 = layout(x, a, b);
    if xs.len() == 1 {
        lemma_holds_split(s, i, r0, a + seq![']']);
        lemma_holds_split(s, i + r0.len(), a, seq![']']);
        lemma_holds_index(s, i + r0.len() + a.len(), seq![']'], 0);
        if a.len() > 0 {
            lemma_holds_index(s, i + r0.len(), a, 0);
        }
        lemma_value_embed(x, a, b, s, i, d);
        lemma_ws_embed(s, i + r0.len(), a);
        assert(acc.push(x) =~= acc + xs);
    } else {
        let rest = xs.subrange(1, xs.len() as int);
        let tail = layout_items(rest, a, b) + (a + seq![']']);
        assert(layout_items(xs, a, b) + (a + seq![']']) =~= r0 + (a + (seq![','] + (b + tail))));
        lemma_holds_split(s, i, r0, a + (seq![','] + (b + tail)));
        lemma_holds_split(s, i + r0.len(), a, seq![','] + (b + tail));
        let k = i + r0.len() + a.len();
        lemma_holds_split(s, k, seq![','], b + tail);
        lemma_holds_split(s, k + 1, b, tail);
        lemma_holds_index(s, k, seq![','], 0);
        if a.len() > 0 {
            lemma_holds_index(s, i + r0.len(), a, 0);
        }
        lemma_value_embed(x, a, b, s, i, d);
        lemma_ws_embed(s, i + r0.len(), a);
        lemma_items_first(rest, a, b);
        lemma_holds_index(s, k + 1 + b.len(), tail, 0);
        lemma_ws_embed(s, k + 1, b);
        lemma_items_embed(rest, a, b, s, k + 1 + b.len(), acc.push(x), d);
        assert(acc.push(x) + rest =~= acc + xs);
    }
}

proof fn lemma_members_rest(es: Seq<(Seq<char>, Json)>, acc: Seq<(Seq<char>, Json)>)
    requires
        es.len() > 1,
        wf_entries(es),
        keys_unique(es),
        forall|p: int, q: int|
            0 <= p < acc.len() && 0 <= q < es.len() ==> #[trigger] acc[p].0 != #[trigger] es[q].0,
    ensures
        keys_unique(es.subrange(1, es.len() as int)),
        wf_entries(es.subrange(1, es.len() as int)),
        forall|p: int, q: int|
            0 <= p < acc.push(es[0]).len() && 0 <= q < es.len() - 1 ==> #[trigger] acc.push(es[0])[p].0
                != #[trigger] es.subrange(1, es.len() as int)[q].0,
{
    let rest = es.subrange(1, es.len() as int);
    let acc2 = acc.push(es[0]);
    assert forall|p: int, q: int|
        0 <= p < rest.len() && 0 <= q < rest.len() && p != q implies #[trigger] rest[p].0
        != #[trigger] rest[q].0 by {
        assert(rest[p] == es[p + 1] && rest[q] == es[q + 1]);
    }
    assert forall|p: int, q: int|
        0 <= p < acc2.len() && 0 <= q < rest.len() implies #[trigger] acc2[p].0
        != #[trigger] rest[q].0 by {
        assert(rest[q] == es[q + 1]);
        if p < acc.len() {
            assert(acc2[p] == acc[p]);
        } else {
            assert(acc2[p] == es[0]);
        }
    }
}

#[verifier::rlimit(100)]
proof fn lemma_members_embed(
    es: Seq<(Seq<char>, Json)>,
    a: Seq<char>,
    b: Seq<char>,
    s: Seq<char>,
    i: int,
    acc: Seq<(Seq<char>, Json)>,
    d: nat,
)
    requires
        es.len() > 0,
        wf_entries(es),
        d <= MAX_DEPTH,
        fits_entries(es, (MAX_DEPTH - d) as nat),
        keys_unique(es),
        forall|p: int, q: int|
            0 <= p < acc.len() && 0 <= q < es.len() ==> #[trigger] acc[p].0 != #[trigger] es[q].0,
        all_ws(a),
        all_ws(b),
        holds_at(s, i, layout_members(es, a, b) + (a + seq!['}'])),
    ensures
        object_members(s, i, acc, d) == Outcome::<Json>::Ok(
            (Json::Obj(acc + es), layout_members(es, a, b).len() + a.len() + 1),
        ),
    decreases es, 0nat,
{
    let e = es[0];
    let kq = quoted(e.0);
    let rv = layout(e.1, a, b);
    let close = a + seq!['}'];
    let after: Seq<char> = if es.len() == 1 {
        close
    } else {
        a + (seq![','] + (b + (layout_members(es.subrange(1, es.len() as int), a, b) + close)))
    };
    let c = i + kq.len();
    let vb = c + a.len() + 1 + b.len();
    let k0 = vb + rv.len();
    assert(0 <= i < s.len() && s[i] == '"' && string_at(s, i) == Outcome::<Seq<char>>::Ok((e.0, kq.len()))
        && ws_len(s, c) == a.len() && 0 <= c + a.len() < s.len() && s[c + a.len()] == ':' && ws_len(
        s,
        c + a.len() + 1,
    ) == b.len() && value_at(s, vb, d) == Outcome::<Json>::Ok((e.1, rv.len())) && ws_len(s, k0)
        == a.len() && holds_at(s, k0, after) && 0 <= k0 + a.len() < s.len() && (es.len() == 1
        ==> s[k0 + a.len()] == '}') && (es.len() > 1 ==> s[k0 + a.len()] == ',')) by {
        lemma_first(e.1, a, b);
        assert(layout_members(es, a, b) + close =~= kq + (a + (seq![':'] + (b + (rv + after)))));
        lemma_holds_split(s, i, kq, a + (seq![':'] + (b + (rv + after))));
        lemma_holds_split(s, c, a, seq![':'] + (b + (rv + after)));
        lemma_holds_split(s, c + a.len(), seq![':'], b + (rv + after));
        lemma_holds_split(s, c + a.len() + 1, b, rv + after);
        lemma_holds_split(s, vb, rv, after);
        lemma_holds_index(s, c + a.len(), seq![':'], 0);
        lemma_holds_index(s, vb, rv, 0);
        if a.len() > 0 {
            lemma_holds_index(s, c, a, 0);
        }
        lemma_ws_embed(s, c, a);
        lemma_ws_embed(s, c + a.len() + 1, b);
        assert(kq =~= seq!['"'] + (escape_text(e.0) + seq!['"']));
        lemma_holds_split(s, i, seq!['"'], escape_text(e.0) + seq!['"']);
        lemma_holds_index(s, i, seq!['"'], 0);
        lemma_string_embed(e.0, s, i + 1, Seq::empty());
        assert(Seq::<char>::empty() + e.0 =~= e.0);
        if es.len() == 1 {
            lemma_holds_split(s, k0, a, seq!['}']);
            lemma_holds_index(s, k0 + a.len(), seq!['}'], 0);
        } else {
            lemma_holds_split(s, k0, a, seq![','] + (b + (layout_members(es.subrange(1, es.len() as int), a, b) + close)));
            lemma_holds_index(s, k0 + a.len(), seq![','] + (b + (layout_members(es.subrange(1, es.len() as int), a, b) + close)), 0);
        }
        if a.len() > 0 {
            lemma_holds_index(s, k0, a, 0);
        }
        lemma_value_embed(e.1, a, b, s, vb, d);
        lemma_ws_embed(s, k0, a);
    }
    lemma_key_absent(acc, e.0, 0);
    assert(insert_entry(acc, e.0, e.1) == acc.push(e));
    let k = k0 + a.len();
    if es.len() == 1 {
        assert(acc.push(e) =~= acc + es);
    } else {
        let rest = es.subrange(1, es.len() as int);
        let tail = layout_members(rest, a, b) + close;
        lemma_holds_split(s, k0, a, seq![','] + (b + tail));
        lemma_holds_split(s, k, seq![','], b + tail);
        lemma_holds_split(s, k + 1, b, tail);
        lemma_holds_index(s, k + 1 + b.len(), tail, 0);
        lemma_ws_embed(s, k + 1, b);
        let acc2 = acc.push(e);
        lemma_members_rest(es, acc);
        lemma_members_embed(rest, a, b, s, k + 1 + b.len(), acc2, d);
        assert(acc2 + rest =~= acc + es);
    }
}

proof fn lemma_layout_plain(v: Json)
    ensures
        layout(v, Seq::empty(), seq![' ']) == render_json(v),
    decreases v,
{
    let a = Seq::<char>::empty();
    let b = seq![' '];
    match v {
        Json::Arr(xs) => {
            if xs.len() == 0 {
                assert(layout(v, a, b) =~= render_json(v));
            } else {
                lemma_items_plain(xs);
                assert(layout(v, a, b) =~= render_json(v));
            }
        },
        Json::Obj(es) => {
            if es.len() == 0 {
                assert(layout(v, a, b) =~= render_json(v));
            } else {
                lemma_members_plain(es);
                assert(layout(v, a, b) =~= render_json(v));
            }
        },
        _ => {},
    }
}

proof fn lemma_items_plain(xs: Seq<Json>)
    ensures
        layout_items(xs, Seq::empty(), seq![' ']) == render_items(xs),
    decreases xs,
{
    let a = Seq::<char>::empty();
    let b = seq![' '];
    if xs.len() > 0 {
        lemma_layout_plain(xs[0]);
    }
    if xs.len() > 1 {
        let rest = xs.subrange(1, xs.len() as int);
        lemma_items_plain(rest);
        assert(layout_items(xs, a, b) =~= render_items(xs));
    }
}

proof fn lemma_members_plain(es: Seq<(Seq<char>, Json)>)
    ensures
        layout_members(es, Seq::empty(), seq![' ']) == render_members(es),
    decreases es,
{
    let a = Seq::<char>::empty();
    let b = seq![' '];
    if es.len() > 0 {
        lemma_layout_plain(es[0].1);
        assert(layout_members(seq![es[0]], a, b) =~= render_members(seq![es[0]]));
    }
    if es.len() == 1 {
        assert(layout_members(es, a, b) =~= render_members(es));
    }
    if es.len() > 1 {
        let rest = es.subrange(1, es.len() as int);
        lemma_members_plain(rest);
        assert(layout_members(es, a, b) =~= render_members(es));
    }
}

/// Whitespace around the tokens of a well-formed value's text does not change
/// what it reads as: with any whitespace `a` around the document, after each
/// `[` and `{` and before each `]`, `}`, `,` and `:`, and any whitespace `b`
/// after each `,` and `:`, the text reads as the value itself (for values
/// that nest no deeper than the parser allows).
#[verifier::rlimit(60)]
pub proof fn lemma_whitespace_invariance(v: Json, a: Seq<char>, b: Seq<char>)
    requires
        wf_json(v),
        fits(v, MAX_DEPTH as nat),
        all_ws(a),
        all_ws(b),
    ensures
        parse_text(a + layout(v, a, b) + a) == Result::<Json, (ErrorKind, int)>::Ok(v),
{
    let r = layout(v, a, b);
    let s = a + r + a;
    assert(s =~= a + (r + a));
    assert(s.subrange(0, s.len() as int) =~= s);
    lemma_holds_split(s, 0, a, r + a);
    lemma_holds_split(s, a.len() as int, r, a);
    lemma_first(v, a, b);
    lemma_holds_index(s, a.len() as int, r, 0);
    lemma_ws_embed(s, 0, a);
    if a.len() > 0 {
        lemma_holds_index(s, (a.len() + r.len()) as int, a, 0);
    }
    lemma_value_embed(v, a, b, s, a.len() as int, 0);
    lemma_ws_embed(s, (a.len() + r.len()) as int, a);
    let j = a.len() as int;
    assert(ws_len(s, 0) == j);
    assert(value_at(s, j, 0) == Outcome::<Json>::Ok((v, r.len())));
    assert(j + r.len() + ws_len(s, j + r.len()) == s.len());
    assert(document_from(s, 0) == Result::<Json, (ErrorKind, int)>::Ok(v));
}

/// Rendering a well-formed value and reading the text back gives the value:
/// `parse(render(v))` is `v` whenever every number in `v` is valid JSON
/// number text, no object in `v` repeats a key, and arrays and objects nest
/// no deeper than the parser allows.
pub proof fn lemma_round_trip(v: Json)
    requires
        wf_json(v),
        fits(v, MAX_DEPTH as nat),
    ensures
        parse_text(render_json(v)) == Result::<Json, (ErrorKind, int)>::Ok(v),
{
    let a = Seq::<char>::empty();
    let b = seq![' '];
    assert forall|k: int| 0 <= k < b.len() implies #[trigger] is_ws(b[k]) by {}
    lemma_whitespace_invariance(v, a, b);
    lemma_layout_plain(v);
    assert(a + layout(v, a, b) + a =~= render_json(v));
}

/// Reading is a function of the text alone: equal texts give equal results,
/// the same value or the same failure at the same offset.
pub proof fn lemma_parse_deterministic(a: Seq<char>, b: Seq<char>)
    requires
        a == b,
    ensures
        parse_text(a) == parse_text(b),
{
}

proof fn lemma_items_all(xs: Seq<Json>, n: nat)
    ensures
        wf_items(xs) == (forall|k: int| 0 <= k < xs.len() ==> #[trigger] wf_json(xs[k])),
        fits_items(xs, n) == (forall|k: int| 0 <= k < xs.len() ==> #[trigger] fits(xs[k], n)),
    decreases xs.len(),
{
    if xs.len() > 0 {
        let rest = xs.subrange(1, xs.len() as int);
        lemma_items_all(rest, n);
        if forall|k: int| 0 <= k < xs.len() ==> #[trigger] wf_json(xs[k]) {
            assert forall|k: int| 0 <= k < rest.len() implies #[trigger] wf_json(rest[k]) by {
                assert(rest[k] == xs[k + 1]);
            }
        }
        assert(wf_items(xs) == (wf_json(xs[0]) && wf_items(rest)));
        if wf_items(xs) {
            assert forall|k: int| 0 <= k < xs.len() implies #[trigger] wf_json(xs[k]) by {
                if k > 0 {
                    assert(xs[k] == rest[k - 1]);
                }
            }
        }
        if forall|k: int| 0 <= k < xs.len() ==> #[trigger] fits(xs[k], n) {
            assert forall|k: int| 0 <= k < rest.len() implies #[trigger] fits(rest[k], n) by {
                assert(rest[k] == xs[k + 1]);
            }
        }
        assert(fits_items(xs, n) == (fits(xs[0], n) && fits_items(rest, n)));
        if fits_items(xs, n) {
            assert forall|k: int| 0 <= k < xs.len() implies #[trigger] fits(xs[k], n) by {
                if k > 0 {
                    assert(xs[k] == rest[k - 1]);
                }
            }
        }
    }
}

proof fn lemma_entries_all(es: Seq<(Seq<char>, Json)>, n: nat)
    ensures
        wf_entries(es) == (forall|k: int| 0 <= k < es.len() ==> #[trigger] wf_json(es[k].1)),
        fits_entries(es, n) == (forall|k: int| 0 <= k < es.len() ==> #[trigger] fits(es[k].1, n)),
    decreases es.len(),
{
    if es.len() > 0 {
        let rest = es.subrange(1, es.len() as int);
        lemma_entries_all(rest, n);
        if forall|k: int| 0 <= k < es.len() ==> #[trigger] wf_json(es[k].1) {
            assert forall|k: int| 0 <= k < rest.len() implies #[trigger] wf_json(rest[k].1) by {
                assert(rest[k] == es[k + 1]);
            }
        }
        assert(wf_entries(es) == (wf_json(es[0].1) && wf_entries(rest)));
        if wf_entries(es) {
            assert forall|k: int| 0 <= k < es.len() implies #[trigger] wf_json(es[k].1) by {
                if k > 0 {
                    assert(es[k] == rest[k - 1]);
                }
            }
        }
        if forall|k: int| 0 <= k < es.len() ==> #[trigger] fits(es[k].1, n) {
            assert forall|k: int| 0 <= k < rest.len() implies #[trigger] fits(rest[k].1, n) by {
                assert(rest[k] == es[k + 1]);
            }
        }
        assert(fits_entries(es, n) == (fits(es[0].1, n) && fits_entries(rest, n)));
        if fits_entries(es, n) {
            assert forall|k: int| 0 <= k < es.len() implies #[trigger] fits(es[k].1, n) by {
                if k > 0 {
                    assert(es[k] == rest[k - 1]);
                }
            }
        }
    }
}

proof fn lemma_digits_bound(s: Seq<char>, j: int)
    requires
        0 <= j <= s.len(),
    ensures
        j + digits_len(s, j) <= s.len(),
    decreases s.len() - j,
{
    if j < s.len() {
        lemma_digits_bound(s, j + 1);
    }
}

/// The smaller of two naturals.
pub open spec fn min_nat(x: nat, y: nat) -> nat {
    if x < y {
        x
    } else {
        y
    }
}

proof fn lemma_digits_prefix(s: Seq<char>, i: int, n: int, j: int)
    requires
        0 <= i,
        i + n <= s.len(),
        0 <= j <= n,
    ensures
        digits_len(s.subrange(i, i + n), j) == min_nat(digits_len(s, i + j), (n - j) as nat),
    decreases n - j,
{
    if j < n {
        lemma_digits_prefix(s, i, n, j + 1);
        assert(s.subrange(i, i + n)[j] == s[i + j]);
    }
}

#[verifier::rlimit(60)]
proof fn lemma_number_wf(s: Seq<char>, i: int)
    requires
        0 <= i < s.len(),
        number_at(s, i) is Ok,
    ensures
        number_at(s, i)->Ok_0.0 == Json::Num(s.subrange(i, i + number_at(s, i)->Ok_0.1)),
        is_number_text(s.subrange(i, i + number_at(s, i)->Ok_0.1)),
{
    let n = number_at(s, i)->Ok_0.1 as int;
    assert forall|j: int| 0 <= j <= s.len() implies #[trigger] digits_len(s, j) <= s.len() - j by {
        lemma_digits_bound(s, j);
    }
    assert(i + n <= s.len());
    let t = s.subrange(i, i + n);
    assert forall|j: int| 0 <= j <= n implies #[trigger] digits_len(t, j) == min_nat(
        digits_len(s, i + j),
        (n - j) as nat,
    ) by {
        lemma_digits_prefix(s, i, n, j);
    }
    assert forall|j: int| 0 <= j < n implies #[trigger] t[j] == s[i + j] by {}
    assert(t.subrange(0, n) =~= t);
    assert(number_at(t, 0) == Outcome::<Json>::Ok((Json::Num(t), t.len())));
}

proof fn lemma_update_keys(es: Seq<(Seq<char>, Json)>, k: Seq<char>, v: Json)
    requires
        keys_unique(es),
    ensures
        keys_unique(insert_entry(es, k, v)),
        forall|q: int| 0 <= q < insert_entry(es, k, v).len() ==> (#[trigger] insert_entry(es, k, v)[q] == (k, v)
            || (q < es.len() && insert_entry(es, k, v)[q] == es[q])),
{
    let p = key_pos(es, k, 0);
    lemma_key_pos_found(es, k, 0);
    let r = insert_entry(es, k, v);
    if p >= 0 {
        assert forall|x: int, y: int|
            0 <= x < r.len() && 0 <= y < r.len() && x != y implies #[trigger] r[x].0 != #[trigger] r[y].0 by {
            if x != p && y != p {
                assert(r[x] == es[x] && r[y] == es[y]);
            } else if x == p {
                assert(r[y] == es[y] && r[x].0 == es[p].0);
            } else {
                assert(r[x] == es[x] && r[y].0 == es[p].0);
            }
        }
    } else {
        assert forall|x: int, y: int|
            0 <= x < r.len() && 0 <= y < r.len() && x != y implies #[trigger] r[x].0 != #[trigger] r[y].0 by {
            if x < es.len() && y < es.len() {
                assert(r[x] == es[x] && r[y] == es[y]);
            }
        }
    }
}

proof fn lemma_key_pos_found(es: Seq<(Seq<char>, Json)>, k: Seq<char>, j: int)
    requires
        0 <= j <= es.len(),
    ensures
        key_pos(es, k, j) == -1 ==> forall|q: int| j <= q < es.len() ==> #[trigger] es[q].0 != k,
        key_pos(es, k, j) != -1 ==> j <= key_pos(es, k, j) < es.len() && es[key_pos(es, k, j)].0 == k,
    decreases es.len() - j,
{
    if j < es.len() {
        lemma_key_pos_found(es, k, j + 1);
    }
}

proof fn lemma_value_wf(s: Seq<char>, i: int, d: nat)
    requires
        d <= MAX_DEPTH,
    ensures
        value_at(s, i, d) is Ok ==> wf_json(value_at(s, i, d)->Ok_0.0) && fits(
            value_at(s, i, d)->Ok_0.0,
            (MAX_DEPTH - d) as nat,
        ),
    decreases rest(s, i), 2nat,
{
    if 0 <= i < s.len() && value_at(s, i, d) is Ok {
        let c = s[i];
        if c == '-' || is_digit(c) {
            lemma_number_wf(s, i);
        } else if c == '[' && d < MAX_DEPTH {
            let m = i + 1 + ws_len(s, i + 1);
            if !(0 <= m < s.len() && s[m] == ']') {
                lemma_items_all(Seq::empty(), (MAX_DEPTH - d - 1) as nat);
                lemma_items_wf(s, m, Seq::empty(), d + 1);
            } else {
                lemma_items_all(Seq::empty(), (MAX_DEPTH - d - 1) as nat);
            }
        } else if c == '{' && d < MAX_DEPTH {
            let m = i + 1 + ws_len(s, i + 1);
            lemma_entries_all(Seq::empty(), (MAX_DEPTH - d - 1) as nat);
            if !(0 <= m < s.len() && s[m] == '}') {
                lemma_members_wf(s, m, Seq::empty(), d + 1);
            }
        }
    }
}

proof fn lemma_items_wf(s: Seq<char>, i: int, acc: Seq<Json>, d: nat)
    requires
        1 <= d <= MAX_DEPTH,
        wf_items(acc),
        fits_items(acc, (MAX_DEPTH - d) as nat),
    ensures
        array_items(s, i, acc, d) is Ok ==> ({
            let v = array_items(s, i, acc, d)->Ok_0.0;
            v is Arr && wf_items(v->Arr_0) && fits_items(v->Arr_0, (MAX_DEPTH - d) as nat)
        }),
    decreases rest(s, i), 3nat,
{
    if 0 <= i < s.len() && array_items(s, i, acc, d) is Ok {
        lemma_value_wf(s, i, d);
        let x = value_at(s, i, d)->Ok_0.0;
        let acc2 = acc.push(x);
        lemma_items_all(acc, (MAX_DEPTH - d) as nat);
        lemma_items_all(acc2, (MAX_DEPTH - d) as nat);
        assert forall|k: int| 0 <= k < acc2.len() implies #[trigger] wf_json(acc2[k]) && fits(
            acc2[k],
            (MAX_DEPTH - d) as nat,
        ) by {
            if k < acc.len() {
                assert(acc2[k] == acc[k]);
            }
        }
        let n = value_at(s, i, d)->Ok_0.1;
        let k = i + n + ws_len(s, i + n);
        if 0 <= k < s.len() && s[k] == ',' {
            let m = k + 1 + ws_len(s, k + 1);
            lemma_items_wf(s, m, acc2, d);
        }
    }
}

proof fn lemma_members_wf(s: Seq<char>, i: int, acc: Seq<(Seq<char>, Json)>, d: nat)
    requires
        1 <= d <= MAX_DEPTH,
        wf_entries(acc),
        keys_unique(acc),
        fits_entries(acc, (MAX_DEPTH - d) as nat),
    ensures
        object_members(s, i, acc, d) is Ok ==> ({
            let v = object_members(s, i, acc, d)->Ok_0.0;
            v is Obj && wf_entries(v->Obj_0) && keys_unique(v->Obj_0) && fits_entries(
                v->Obj_0,
                (MAX_DEPTH - d) as nat,
            )
        }),
    decreases rest(s, i), 3nat,
{
    if 0 <= i < s.len() && s[i] == '"' && object_members(s, i, acc, d) is Ok {
        let key = string_at(s, i)->Ok_0.0;
        let kn = string_at(s, i)->Ok_0.1;
        let c = i + kn + ws_len(s, i + kn);
        let b = c + 1 + ws_len(s, c + 1);
        lemma_value_wf(s, b, d);
        let x = value_at(s, b, d)->Ok_0.0;
        let es = insert_entry(acc, key, x);
        lemma_update_keys(acc, key, x);
        lemma_entries_all(acc, (MAX_DEPTH - d) as nat);
        lemma_entries_all(es, (MAX_DEPTH - d) as nat);
        assert forall|q: int| 0 <= q < es.len() implies #[trigger] wf_json(es[q].1) && fits(
            es[q].1,
            (MAX_DEPTH - d) as nat,
        ) by {
            if es[q] != (key, x) {
                assert(es[q] == acc[q]);
            }
        }
        let n = value_at(s, b, d)->Ok_0.1;
        let k = b + n + ws_len(s, b + n);
        if 0 <= k < s.len() && s[k] == ',' {
            let m = k + 1 + ws_len(s, k + 1);
            lemma_members_wf(s, m, es, d);
        }
    }
}

/// What a successful read yields is well formed: every number is valid JSON
/// number text, no object repeats a key, and arrays and objects nest no
/// deeper than the parser allows.
pub proof fn lemma_parse_well_formed(s: Seq<char>)
    ensures
        parse_text(s) is Ok ==> wf_json(parse_text(s)->Ok_0) && fits(parse_text(s)->Ok_0, MAX_DEPTH as nat),
{
    lemma_value_wf(s, ws_len(s, 0) as int, 0);
}

} // verus!
